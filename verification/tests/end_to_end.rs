use recommend_core::edges::{build_similarity_edges, similar_items};
use recommend_core::errors::CoreError;
use recommend_core::models::VideosJson;
use recommend_core::rank::get_similar_items;
use recommend_core::similarity::{SIM_SCALE, compute_cosine_similarity};
use recommend_core::vectorize::compute_tf_matrix;

fn video(id: &str, title: &str, description: &str) -> VideosJson {
    VideosJson {
        video_id: id.to_string(),
        title: title.to_string(),
        description: description.to_string(),
        publisher_id: "p".to_string(),
    }
}

fn corpus() -> Vec<VideosJson> {
    vec![
        video("a", "cat video", "a cat plays"),
        video("b", "dog video", "a dog plays"),
        video("c", "cat and dog", "cat plays with dog"),
    ]
}

#[test]
fn corpus_vocabulary_includes_expected_stems() {
    let (_, vocab) = compute_tf_matrix(&corpus());
    for stem in ["cat", "video", "play", "dog"] {
        assert!(vocab.iter().any(|t| t == stem), "missing stem {}", stem);
    }
}

#[test]
fn shared_vocabulary_drives_similarity() {
    let (matrix, _) = compute_tf_matrix(&corpus());
    let sim = compute_cosine_similarity(&matrix);
    // c shares more vocabulary with a than b does
    assert!(sim[0][2] > sim[0][1]);
    // diagonal and symmetry on real text
    for i in 0..3 {
        assert_eq!(sim[i][i], SIM_SCALE);
        for j in 0..3 {
            assert_eq!(sim[i][j], sim[j][i]);
            assert!(sim[i][j] <= SIM_SCALE);
        }
    }
}

#[test]
fn most_similar_to_a_is_c() {
    let docs = corpus();
    let (matrix, _) = compute_tf_matrix(&docs);
    let sim = compute_cosine_similarity(&matrix);
    let top = get_similar_items(&"a".to_string(), &docs, &sim, 1).unwrap();
    assert_eq!(top.len(), 1);
    assert_eq!(top[0].video_id, "c");
}

#[test]
fn query_pipeline_returns_ranked_documents() {
    let top = similar_items(&"a".to_string(), &corpus(), 1).unwrap();
    assert_eq!(top.len(), 1);
    assert_eq!(top[0].video_id, "c");
    let err = similar_items(&"zz".to_string(), &corpus(), 1).unwrap_err();
    assert_eq!(err, CoreError::Lookup);
}

#[test]
fn batch_pipeline_lists_one_edge_per_ordered_pair() {
    let docs = corpus();
    let edges = build_similarity_edges(&docs).unwrap();
    assert_eq!(edges.len(), 6);
    let (matrix, _) = compute_tf_matrix(&docs);
    let sim = compute_cosine_similarity(&matrix);
    for e in &edges {
        let i = docs.iter().position(|d| d.video_id == e.from).unwrap();
        let j = docs.iter().position(|d| d.video_id == e.to).unwrap();
        assert_ne!(i, j);
        assert_eq!(e.weight_micros, sim[i][j]);
    }
    // both directions of every pair are present
    for i in 0..docs.len() {
        for j in 0..docs.len() {
            if i != j {
                assert!(edges.iter().any(|e| e.from == docs[i].video_id
                    && e.to == docs[j].video_id));
            }
        }
    }
}

#[test]
fn oversized_document_is_a_data_error() {
    let huge = "a ".repeat(65_537);
    let docs = vec![video("a", "cat video", "a cat plays"), video("big", &huge, "")];
    let err = build_similarity_edges(&docs).unwrap_err();
    assert_eq!(err, CoreError::Data);
    let err2 = similar_items(&"a".to_string(), &docs, 1).unwrap_err();
    assert_eq!(err2, CoreError::Data);
}

#[test]
fn zero_text_document_flows_through_the_pipeline() {
    let mut docs = corpus();
    docs.push(video("empty", "", ""));
    let (matrix, _) = compute_tf_matrix(&docs);
    let sim = compute_cosine_similarity(&matrix);
    // the zero-vector policy: every pairing with the empty document is 0
    for j in 0..docs.len() {
        assert_eq!(sim[3][j], 0);
        assert_eq!(sim[j][3], 0);
    }
    // and ranking still works, listing the empty document last
    let top = get_similar_items(&"a".to_string(), &docs, &sim, 10).unwrap();
    assert_eq!(top.len(), 3);
    assert_eq!(top[0].video_id, "c");
    assert_eq!(top[2].video_id, "empty");
}
