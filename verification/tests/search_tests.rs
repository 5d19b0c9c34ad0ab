use code_search::search::{
    cosine_similarity, format_results, hybrid_search, tokenize_query, vector_search,
    SearchResult,
};

fn row(chunk_id: i64, score_ppm: i64) -> SearchResult {
    SearchResult {
        chunk_id,
        codebase_id: "cb".to_string(),
        file_path: format!("src/file{}.rs", chunk_id),
        start_line: 1,
        end_line: 10,
        content: format!("content {}", chunk_id),
        language: Some("rust".to_string()),
        score_ppm,
        rank: 0,
    }
}

#[test]
fn test_format_results_empty() {
    let results: Vec<SearchResult> = vec![];
    let formatted = format_results(&results);
    assert!(formatted.is_empty());
}

#[test]
fn test_format_results_rendering() {
    let formatted = format_results(&vec![row(1, 600000)]);
    assert_eq!(formatted.len(), 1);
    assert_eq!(formatted[0].file, "src/file1.rs");
    assert_eq!(formatted[0].lines, "1-10");
    assert_eq!(formatted[0].score, "0.6000");
    assert_eq!(formatted[0].language.as_deref(), Some("rust"));

    // The fourth decimal place is rounded, with carry where needed.
    let rounded = format_results(&vec![row(2, 123456), row(3, 999960)]);
    assert_eq!(rounded[0].score, "0.1235");
    assert_eq!(rounded[1].score, "1.0000");
}

#[test]
fn test_cosine_similarity_exact() {
    assert_eq!(cosine_similarity(&vec![3, 4], &vec![3, 4]), 1000000);
    assert_eq!(cosine_similarity(&vec![1, 0], &vec![0, 1]), 0);
    assert_eq!(cosine_similarity(&vec![1, 0], &vec![-1, 0]), -1000000);
}

#[test]
fn test_cosine_similarity_degenerate_is_zero() {
    assert_eq!(cosine_similarity(&vec![0, 0], &vec![0, 0]), 0);
    assert_eq!(cosine_similarity(&vec![1, 2], &vec![1, 2, 3]), 0);
    assert_eq!(cosine_similarity(&vec![], &vec![]), 0);
    assert_eq!(cosine_similarity(&vec![0, 0], &vec![5, 5]), 0);
}

#[test]
fn test_tokenize_query() {
    let terms = tokenize_query("hello a wide  world");
    assert_eq!(terms, vec!["hello".to_string(), "wide".to_string(), "world".to_string()]);
    assert!(tokenize_query("").is_empty());
    assert!(tokenize_query(" a b ").is_empty());
    let unicode = tokenize_query("ab\u{00a0}cd\u{2003}ef");
    assert_eq!(unicode, vec!["ab".to_string(), "cd".to_string(), "ef".to_string()]);
}

#[test]
fn test_hybrid_fusion_lexical_first() {
    // One chunk found by both searches: fts_weight 0.6, cosine 0.9,
    // vector_weight 0.4. The fused score is 0.6, not 0.6 + 0.36.
    let fts = vec![row(1, 0)];
    let vector = vec![row(1, 900000), row(2, 500000)];
    let fused = hybrid_search(fts, vector, 600000, 400000, 10);

    assert_eq!(fused.len(), 2);
    assert_eq!(fused[0].chunk_id, 1);
    assert_eq!(fused[0].score_ppm, 600000);
    assert_eq!(fused[0].rank, 1);
    assert_eq!(fused[1].chunk_id, 2);
    assert_eq!(fused[1].score_ppm, 200000);
    assert_eq!(fused[1].rank, 2);
}

#[test]
fn test_hybrid_search_sorts_and_truncates() {
    let fts = vec![row(1, 0)];
    let vector = vec![row(2, 900000), row(3, 800000)];
    // vector-only scores: 0.9 * 0.5 = 0.45 and 0.8 * 0.5 = 0.40;
    // the lexical hit scores only 0.3 and is cut by the limit.
    let fused = hybrid_search(fts, vector, 300000, 500000, 2);
    assert_eq!(fused.len(), 2);
    assert_eq!(fused[0].chunk_id, 2);
    assert_eq!(fused[0].score_ppm, 450000);
    assert_eq!(fused[1].chunk_id, 3);
    assert_eq!(fused[1].score_ppm, 400000);
    assert_eq!(fused[0].rank, 1);
    assert_eq!(fused[1].rank, 2);
}

#[test]
fn test_vector_search_orders_by_similarity() {
    let query: Vec<i64> = vec![1000000, 0];
    let candidates = vec![
        (row(1, 0), vec![0i64, 1000000]),
        (row(2, 0), vec![1000000i64, 0]),
        (row(3, 0), vec![700000i64, 700000]),
    ];
    let results = vector_search(candidates, &query, 2);
    assert_eq!(results.len(), 2);
    assert_eq!(results[0].chunk_id, 2);
    assert_eq!(results[0].score_ppm, 1000000);
    assert_eq!(results[0].rank, 1);
    assert_eq!(results[1].chunk_id, 3);
    assert!(results[1].score_ppm > 600000 && results[1].score_ppm < 800000);
    assert_eq!(results[1].rank, 2);
}
