use code_search::splitter::{detect_language, generate_chunk_id, language_map, lookup_value, split_file};

fn numbered_lines(n: usize) -> String {
    let mut parts: Vec<String> = Vec::new();
    let mut i = 1;
    while i <= n {
        parts.push(format!("line {}", i));
        i += 1;
    }
    parts.join("\n")
}

#[test]
fn test_language_detection() {
    assert_eq!(detect_language("test.rs"), "rust");
    assert_eq!(detect_language("test.py"), "python");
    assert_eq!(detect_language("test.js"), "javascript");
}

#[test]
fn test_code_chunking() {
    let content = numbered_lines(100);
    let chunks = split_file("test.rs", &content, Some(50), Some(10));

    assert!(!chunks.is_empty());
    assert_eq!(chunks[0].language, "rust");
}

#[test]
fn test_detect_language() {
    assert_eq!(detect_language("test.rs"), "rust");
    assert_eq!(detect_language("test.py"), "python");
    assert_eq!(detect_language("test.js"), "javascript");
    assert_eq!(detect_language("test.ts"), "typescript");
    assert_eq!(detect_language("test.go"), "go");
    assert_eq!(detect_language("Cargo.toml"), "rust");
    assert_eq!(detect_language("Makefile"), "makefile");
    assert_eq!(detect_language("unknown.xyz"), "unknown");
}

#[test]
fn test_generate_chunk_id() {
    let id1 = generate_chunk_id("test.rs", 1, 50);
    let id2 = generate_chunk_id("test.rs", 1, 50);
    let id3 = generate_chunk_id("test.rs", 2, 51);

    assert_eq!(id1, id2);
    assert_ne!(id1, id3);
    assert_eq!(id1.len(), 16);
}

#[test]
fn test_chunk_id_generation() {
    let id1 = generate_chunk_id("src/main.rs", 1, 50);
    let id2 = generate_chunk_id("src/main.rs", 1, 50);
    let id3 = generate_chunk_id("src/main.rs", 2, 51);

    assert_eq!(id1, id2, "Same parameters should produce same ID");
    assert_ne!(id1, id3, "Different parameters should produce different ID");
}

#[test]
fn test_split_file_basic() {
    let content = numbered_lines(100);
    let chunks = split_file("test.rs", &content, Some(50), Some(10));

    assert_eq!(chunks.len(), 3);
    assert_eq!(chunks[0].start_line, 1);
    assert_eq!(chunks[0].end_line, 50);
    assert_eq!(chunks[1].start_line, 41);
    assert_eq!(chunks[1].end_line, 90);
    assert_eq!(chunks[2].start_line, 81);
    assert_eq!(chunks[2].end_line, 100);
}

#[test]
fn test_split_file_small() {
    let content = "line1\nline2\nline3";
    let chunks = split_file("test.rs", content, Some(50), Some(10));

    assert_eq!(chunks.len(), 1);
    assert_eq!(chunks[0].start_line, 1);
    assert_eq!(chunks[0].end_line, 3);
}

#[test]
fn test_split_file_empty() {
    let chunks = split_file("test.rs", "", Some(50), Some(10));
    assert_eq!(chunks.len(), 0);
}

#[test]
fn test_language_map() {
    let map = language_map();
    assert!(lookup_value(&map, ".rs").is_some());
    assert!(lookup_value(&map, ".py").is_some());
    assert!(lookup_value(&map, ".js").is_some());
    assert!(lookup_value(&map, "Cargo.toml").is_some());
    assert!(lookup_value(&map, "Makefile").is_some());
}

#[test]
fn test_language_detection_comprehensive() {
    let test_cases = vec![
        ("file.rs", "rust"),
        ("file.py", "python"),
        ("file.js", "javascript"),
        ("file.tsx", "typescript"),
        ("file.go", "go"),
        ("file.java", "java"),
        ("file.cpp", "cpp"),
        ("file.h", "c"),
        ("file.rb", "ruby"),
        ("file.php", "php"),
        ("file.swift", "swift"),
        ("file.kt", "kotlin"),
        ("file.scala", "scala"),
        ("file.lua", "lua"),
    ];

    for (filename, expected_lang) in test_cases {
        let detected = detect_language(filename);
        assert_eq!(
            detected, expected_lang,
            "Expected {} for {}, got {:?}",
            expected_lang, filename, detected
        );
    }
}

#[test]
fn test_chunk_overlap() {
    let content = numbered_lines(100);
    let chunks = split_file("test.rs", &content, Some(50), Some(10));

    assert!(chunks.len() > 1, "Should have multiple chunks with overlap");

    for i in 0..chunks.len() - 1 {
        let current_end = chunks[i].end_line;
        let next_start = chunks[i + 1].start_line;
        let overlap = current_end - next_start + 1;

        assert_eq!(overlap, 10, "Should have 10 lines of overlap");
    }
}

#[test]
fn test_empty_file_handling() {
    let chunks = split_file("test.rs", "", None, None);
    assert!(chunks.is_empty(), "Empty file should produce no chunks");
}

#[test]
fn test_chunk_size_boundaries() {
    let exact_size = numbered_lines(50);
    let chunks = split_file("test.rs", &exact_size, Some(50), Some(10));
    assert_eq!(chunks.len(), 1, "50 lines should produce exactly 1 chunk");

    let one_over = numbered_lines(51);
    let chunks = split_file("test.rs", &one_over, Some(50), Some(10));
    assert_eq!(chunks.len(), 2, "51 lines should produce 2 chunks with overlap");
}

#[test]
fn test_chunk_content_windows() {
    let content = "a\nb\nc\nd\ne";
    let chunks = split_file("notes.txt", content, Some(3), Some(1));
    assert_eq!(chunks.len(), 2);
    assert_eq!(chunks[0].content, "a\nb\nc");
    assert_eq!(chunks[1].content, "c\nd\ne");
    assert_eq!(chunks[0].chunk_id, generate_chunk_id("notes.txt", 1, 3));
    assert_eq!(chunks[1].chunk_id, generate_chunk_id("notes.txt", 3, 5));
}
