use code_search::config::{
    ChunkingConfig, DatabaseConfig, IndexingConfig, ModelConfig, SearchLimitConfig,
};
use code_search::embedding::{get_model_dimension, EmbeddingModel, ModelType};
use code_search::indexing::{
    detect_changes, process_file_content, should_skip_file, IndexingOptions,
};
use code_search::manifest::{get_codebase_hash, hash_file_content, Manifest};

#[test]
fn test_file_hashing() {
    let content = b"test content";
    let hash1 = hash_file_content(content);
    let hash2 = hash_file_content(content);

    assert_eq!(hash1, hash2, "Same content should produce same hash");
    assert_eq!(hash1.len(), 16, "Hash should be 16 characters");

    let different_content = b"different content";
    let hash3 = hash_file_content(different_content);

    assert_ne!(hash1, hash3, "Different content should produce different hash");
}

#[test]
fn test_hash_values_are_sha256_prefixes() {
    // The first 16 hex characters of the SHA-256 digests of the inputs.
    assert_eq!(hash_file_content(b"test content"), "6ae8a75555209fd6");
    assert_eq!(get_codebase_hash("/path/to/codebase1"), "c7db1fe2c5436094");
    assert_eq!(
        code_search::splitter::generate_chunk_id("test.rs", 1, 50),
        "cc7323909654dcb2"
    );
}

#[test]
fn test_codebase_hash() {
    let path1 = "/path/to/codebase1";
    let path2 = "/path/to/codebase1";

    let hash1 = get_codebase_hash(path1);
    let hash2 = get_codebase_hash(path2);

    assert_eq!(hash1, hash2, "Same path should produce same hash");
    assert_eq!(hash1.len(), 16, "Hash should be 16 characters");
}

#[test]
fn test_should_skip_file() {
    let config = IndexingConfig::default();
    assert!(should_skip_file(".git/config", &config));
    assert!(should_skip_file("node_modules/package/index.js", &config));
    assert!(should_skip_file("target/debug/main", &config));
    assert!(should_skip_file("image.png", &config));
    assert!(should_skip_file("archive.zip", &config));

    assert!(!should_skip_file("src/main.rs", &config));
    assert!(!should_skip_file("lib.py", &config));
    assert!(!should_skip_file("index.js", &config));
}

#[test]
fn test_skip_pattern_leading_stars() {
    let mut config = IndexingConfig::default();
    config.skip_files.push("**generated.rs".to_string());
    assert!(should_skip_file("src/foo_generated.rs", &config));
    assert!(!should_skip_file("src/foo.rs", &config));
}

#[test]
fn indexing_test_default_config() {
    let config = IndexingOptions::default();
    assert!(!config.force);
    assert!(!config.verbose);
    assert!(config.use_gitignore);
}

#[test]
fn config_test_default_config() {
    assert_eq!(ModelConfig::default().model_type, "minilm");
    assert_eq!(ChunkingConfig::default().chunk_size, 50);
    assert_eq!(ChunkingConfig::default().chunk_overlap, 10);
    assert_eq!(SearchLimitConfig::default().default_limit, 10);
    assert_eq!(DatabaseConfig::default().data_dir, "code-search");
    assert_eq!(DatabaseConfig::default().db_name, "index.db");
}

#[test]
fn test_default_lists_contain_common_entries() {
    let config = IndexingConfig::default();
    let find = |list: &Vec<String>, x: &str| list.iter().any(|e| e == x);
    assert!(find(&config.extensions, ".rs"));
    assert!(find(&config.extensions, ".py"));
    assert!(find(&config.extensions, ".js"));
    assert!(find(&config.extensions, ".ts"));
    assert!(find(&config.extensions, ".go"));
    assert!(find(&config.skip_dirs, ".git"));
    assert!(find(&config.skip_dirs, "node_modules"));
    assert!(find(&config.skip_dirs, "target"));
    assert!(find(&config.skip_files, "*.pyc"));
    assert!(find(&config.skip_files, "*.lock"));
    assert!(find(&config.skip_files, ".DS_Store"));
}

#[test]
fn test_model_type_from_str() {
    assert_eq!(ModelType::parse("minilm"), ModelType::MiniLM);
    assert_eq!(ModelType::parse("MiniLM"), ModelType::MiniLM);
    assert_eq!(ModelType::parse("all-minilm-l6-v2"), ModelType::MiniLM);
    assert_eq!(ModelType::parse("nomic"), ModelType::Nomic);
    assert_eq!(ModelType::parse("Nomic"), ModelType::Nomic);
    assert_eq!(ModelType::parse("unknown"), ModelType::MiniLM);
}

#[test]
fn test_model_dimensions() {
    assert_eq!(ModelType::MiniLM.dimension(), 384);
    assert_eq!(ModelType::Nomic.dimension(), 768);
}

#[test]
fn test_model_prefixes() {
    assert_eq!(ModelType::MiniLM.document_prefix(), "");
    assert_eq!(ModelType::MiniLM.query_prefix(), "");
    assert_eq!(ModelType::Nomic.document_prefix(), "search_document: ");
    assert_eq!(ModelType::Nomic.query_prefix(), "search_query: ");
}

#[test]
fn test_get_model_dimension() {
    assert_eq!(get_model_dimension("minilm"), 384);
    assert_eq!(get_model_dimension("nomic"), 768);
}

#[test]
fn test_embedding_model_selection() {
    let model = EmbeddingModel::new(None);
    assert_eq!(model.embedding_dimension(), 384);
    assert_eq!(model.model_type(), ModelType::MiniLM);
    let nomic = EmbeddingModel::new(Some("nomic"));
    assert_eq!(nomic.embedding_dimension(), 768);
}

#[test]
fn test_manifest_operations() {
    let mut manifest = Manifest::new();
    manifest.insert("src/main.rs", "aaaa");
    manifest.insert("src/lib.rs", "bbbb");
    assert_eq!(manifest.len(), 2);
    assert_eq!(manifest.get("src/main.rs").unwrap(), "aaaa");

    manifest.insert("src/main.rs", "cccc");
    assert_eq!(manifest.len(), 2);
    assert_eq!(manifest.get("src/main.rs").unwrap(), "cccc");

    manifest.remove("src/lib.rs");
    assert_eq!(manifest.len(), 1);
    assert!(manifest.get("src/lib.rs").is_none());
    assert!(manifest.contains("src/main.rs"));
}

fn scanned(rel: &str, hash: &str) -> code_search::indexing::FileHash {
    code_search::indexing::FileHash {
        path: format!("/repo/{}", rel),
        relative_path: rel.to_string(),
        hash: hash.to_string(),
        size: 1,
    }
}

#[test]
fn test_detect_changes_classification() {
    let mut manifest = Manifest::new();
    manifest.insert("kept.rs", "h1");
    manifest.insert("edited.rs", "h2");
    manifest.insert("gone.rs", "h3");

    let current = vec![
        scanned("kept.rs", "h1"),
        scanned("edited.rs", "h2-new"),
        scanned("fresh.rs", "h4"),
    ];

    let changes = detect_changes(&current, &manifest);
    assert_eq!(changes.added, vec![("fresh.rs".to_string(), "h4".to_string())]);
    assert_eq!(
        changes.modified,
        vec![("edited.rs".to_string(), "h2-new".to_string())]
    );
    assert_eq!(changes.removed, vec!["gone.rs".to_string()]);
}

#[test]
fn test_unchanged_tree_yields_empty_changes() {
    let mut manifest = Manifest::new();
    manifest.insert("a.rs", "h1");
    manifest.insert("b.rs", "h2");

    let current = vec![scanned("a.rs", "h1"), scanned("b.rs", "h2")];

    let changes = detect_changes(&current, &manifest);
    assert!(changes.added.is_empty());
    assert!(changes.modified.is_empty());
    assert!(changes.removed.is_empty());
}

#[test]
fn test_process_file_content_records() {
    let chunks = process_file_content("a.rs", "x\ny\nz", "cb1", "hash1", Some(2), Some(1));
    assert_eq!(chunks.len(), 2);
    assert_eq!(chunks[0].codebase_id, "cb1");
    assert_eq!(chunks[0].hash, "hash1");
    assert_eq!(chunks[0].file_path, "a.rs");
    assert_eq!(chunks[0].start_line, 1);
    assert_eq!(chunks[0].end_line, 2);
    assert_eq!(chunks[1].start_line, 2);
    assert_eq!(chunks[1].end_line, 3);
    assert_eq!(chunks[0].language.as_deref(), Some("rust"));

    let empty = process_file_content("a.rs", "", "cb1", "hash1", None, None);
    assert!(empty.is_empty());
}
