use recommend_core::models::VideosJson;
use recommend_core::vectorize::compute_tf_matrix;

fn video(id: &str, title: &str, description: &str) -> VideosJson {
    VideosJson {
        video_id: id.to_string(),
        title: title.to_string(),
        description: description.to_string(),
        publisher_id: "p".to_string(),
    }
}

#[test]
fn tf_matrix_dimensions_match_corpus_and_vocabulary() {
    let corpus = vec![
        video("a", "cat video", "a cat plays"),
        video("b", "dog video", "a dog plays"),
    ];
    let (matrix, vocab) = compute_tf_matrix(&corpus);
    assert_eq!(matrix.len(), 2);
    for row in &matrix {
        assert_eq!(row.len(), vocab.len());
    }
}

#[test]
fn vocabulary_lists_distinct_stems_in_first_appearance_order() {
    let corpus = vec![
        video("a", "cat video", "a cat plays"),
        video("b", "dog video", "a dog plays"),
    ];
    let (_, vocab) = compute_tf_matrix(&corpus);
    assert_eq!(vocab, vec![
        "cat".to_string(),
        "video".to_string(),
        "a".to_string(),
        "play".to_string(),
        "dog".to_string(),
    ]);
}

#[test]
fn tf_rows_count_term_occurrences() {
    let corpus = vec![
        video("a", "cat video", "a cat plays"),
        video("b", "dog video", "a dog plays"),
    ];
    let (matrix, vocab) = compute_tf_matrix(&corpus);
    // vocabulary: cat, video, a, play, dog
    assert_eq!(vocab.len(), 5);
    assert_eq!(matrix[0], vec![2, 1, 1, 1, 0]);
    assert_eq!(matrix[1], vec![0, 1, 1, 1, 2]);
}

#[test]
fn empty_text_document_yields_all_zero_row() {
    let corpus = vec![
        video("a", "cat video", "a cat plays"),
        video("empty", "", ""),
    ];
    let (matrix, vocab) = compute_tf_matrix(&corpus);
    assert_eq!(matrix[1], vec![0; vocab.len()]);
}

#[test]
fn empty_corpus_yields_empty_matrix_and_vocabulary() {
    let corpus: Vec<VideosJson> = Vec::new();
    let (matrix, vocab) = compute_tf_matrix(&corpus);
    assert!(matrix.is_empty());
    assert!(vocab.is_empty());
}
