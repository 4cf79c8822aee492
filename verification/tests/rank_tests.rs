use recommend_core::errors::CoreError;
use recommend_core::models::VideosJson;
use recommend_core::rank::{get_similar_items, rank_indices};

fn video(id: &str) -> VideosJson {
    VideosJson {
        video_id: id.to_string(),
        title: format!("title of {}", id),
        description: String::new(),
        publisher_id: "p".to_string(),
    }
}

#[test]
fn rank_indices_sorts_descending_and_excludes_query() {
    let row = vec![1_000_000, 300_000, 900_000, 300_000];
    let ranked = rank_indices(&row, 0);
    assert_eq!(ranked, vec![2, 1, 3]);
}

#[test]
fn rank_indices_breaks_ties_by_position() {
    let row = vec![500_000, 500_000, 500_000];
    let ranked = rank_indices(&row, 1);
    assert_eq!(ranked, vec![0, 2]);
}

#[test]
fn similar_items_never_include_the_query() {
    let videos = vec![video("a"), video("b"), video("c")];
    let sim = vec![
        vec![1_000_000, 400_000, 800_000],
        vec![400_000, 1_000_000, 100_000],
        vec![800_000, 100_000, 1_000_000],
    ];
    let out = get_similar_items(&"a".to_string(), &videos, &sim, 10).unwrap();
    assert_eq!(out.len(), 2);
    for v in &out {
        assert_ne!(v.video_id, "a");
    }
}

#[test]
fn similar_items_are_ordered_by_descending_similarity() {
    let videos = vec![video("a"), video("b"), video("c"), video("d")];
    let sim = vec![
        vec![1_000_000, 200_000, 900_000, 500_000],
        vec![200_000, 1_000_000, 0, 0],
        vec![900_000, 0, 1_000_000, 0],
        vec![500_000, 0, 0, 1_000_000],
    ];
    let out = get_similar_items(&"a".to_string(), &videos, &sim, 10).unwrap();
    let ids: Vec<&str> = out.iter().map(|v| v.video_id.as_str()).collect();
    assert_eq!(ids, vec!["c", "d", "b"]);
}

#[test]
fn similar_items_respect_the_limit() {
    let videos = vec![video("a"), video("b"), video("c"), video("d")];
    let sim = vec![
        vec![1_000_000, 200_000, 900_000, 500_000],
        vec![200_000, 1_000_000, 0, 0],
        vec![900_000, 0, 1_000_000, 0],
        vec![500_000, 0, 0, 1_000_000],
    ];
    let out = get_similar_items(&"a".to_string(), &videos, &sim, 1).unwrap();
    let ids: Vec<&str> = out.iter().map(|v| v.video_id.as_str()).collect();
    assert_eq!(ids, vec!["c"]);
    let none = get_similar_items(&"a".to_string(), &videos, &sim, 0).unwrap();
    assert!(none.is_empty());
}

#[test]
fn unknown_query_id_is_a_lookup_error() {
    let videos = vec![video("a"), video("b")];
    let sim = vec![vec![1_000_000, 0], vec![0, 1_000_000]];
    let err = get_similar_items(&"zz".to_string(), &videos, &sim, 3).unwrap_err();
    assert_eq!(err, CoreError::Lookup);
}
