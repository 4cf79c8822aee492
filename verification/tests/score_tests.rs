use recommend_core::errors::CoreError;
use recommend_core::repo::{counts_as_watched, launch_db};
use recommend_core::score::{Candidate, effective_limit, score_candidates, take_limit};

fn cand(id: &str, title: &str) -> Candidate {
    Candidate { video_id: id.to_string(), title: Some(title.to_string()) }
}

#[test]
fn score_candidates_ranks_by_mean_weight() {
    // watched {"a"}, candidates {"b","c"}, edges (a,b): 0.1 and (a,c): 0.8
    let watched = vec!["a".to_string()];
    let candidates = vec![cand("b", "dog video"), cand("c", "cat and dog")];
    let weights = vec![vec![Some(100_000)], vec![Some(800_000)]];
    let recs = score_candidates(&watched, &candidates, &weights);
    assert_eq!(recs.len(), 2);
    assert_eq!(recs[0].video_id, "c");
    assert_eq!(recs[0].title, "cat and dog");
    assert_eq!(recs[0].score_micros(), 800_000);
    assert_eq!(recs[1].video_id, "b");
    assert_eq!(recs[1].title, "dog video");
    assert_eq!(recs[1].score_micros(), 100_000);
}

#[test]
fn candidate_without_edges_is_excluded() {
    let watched = vec!["a".to_string(), "b".to_string()];
    let candidates = vec![cand("c", "c title"), cand("d", "d title")];
    let weights = vec![vec![None, None], vec![Some(500_000), None]];
    let recs = score_candidates(&watched, &candidates, &weights);
    assert_eq!(recs.len(), 1);
    assert_eq!(recs[0].video_id, "d");
    assert!(recs[0].edge_count > 0);
}

#[test]
fn candidate_without_title_is_excluded() {
    let watched = vec!["a".to_string()];
    let untitled = Candidate { video_id: "c".to_string(), title: None };
    let candidates = vec![untitled, cand("d", "d title")];
    let weights = vec![vec![Some(900_000)], vec![Some(100_000)]];
    let recs = score_candidates(&watched, &candidates, &weights);
    assert_eq!(recs.len(), 1);
    assert_eq!(recs[0].video_id, "d");
}

#[test]
fn score_is_the_mean_of_found_weights() {
    let watched = vec!["a".to_string(), "b".to_string(), "c".to_string()];
    let candidates = vec![cand("x", "x title")];
    let weights = vec![vec![Some(600_000), None, Some(300_000)]];
    let recs = score_candidates(&watched, &candidates, &weights);
    assert_eq!(recs.len(), 1);
    assert_eq!(recs[0].weight_sum, 900_000);
    assert_eq!(recs[0].edge_count, 2);
    assert_eq!(recs[0].score_micros(), 450_000);
}

#[test]
fn equal_means_are_broken_by_candidate_position() {
    let watched = vec!["a".to_string()];
    let candidates = vec![cand("x", "x"), cand("y", "y"), cand("z", "z")];
    let weights = vec![vec![Some(400_000)], vec![Some(700_000)], vec![Some(400_000)]];
    let recs = score_candidates(&watched, &candidates, &weights);
    let ids: Vec<&str> = recs.iter().map(|r| r.video_id.as_str()).collect();
    assert_eq!(ids, vec!["y", "x", "z"]);
}

#[test]
fn mean_comparison_is_exact_over_different_edge_counts() {
    // 1/2 vs 2/3: the second candidate wins
    let watched = vec!["a".to_string(), "b".to_string(), "c".to_string()];
    let candidates = vec![cand("x", "x"), cand("y", "y")];
    let weights = vec![
        vec![Some(400_000), Some(600_000), None],
        vec![Some(500_000), Some(500_000), Some(510_000)],
    ];
    let recs = score_candidates(&watched, &candidates, &weights);
    // mean(x) = 500_000, mean(y) = 503_333.33..
    let ids: Vec<&str> = recs.iter().map(|r| r.video_id.as_str()).collect();
    assert_eq!(ids, vec!["y", "x"]);
}

#[test]
fn take_limit_truncates_after_ranking() {
    let watched = vec!["a".to_string()];
    let candidates = vec![cand("x", "x"), cand("y", "y"), cand("z", "z")];
    let weights = vec![vec![Some(100_000)], vec![Some(900_000)], vec![Some(500_000)]];
    let recs = score_candidates(&watched, &candidates, &weights);
    let top = take_limit(recs, 2);
    let ids: Vec<&str> = top.iter().map(|r| r.video_id.as_str()).collect();
    assert_eq!(ids, vec!["y", "z"]);
}

#[test]
fn effective_limit_defaults_to_ten() {
    assert_eq!(effective_limit(None), 10);
    assert_eq!(effective_limit(Some(3)), 3);
    assert_eq!(effective_limit(Some(0)), 0);
    assert_eq!(effective_limit(Some(-5)), 0);
}

#[test]
fn watch_rule_accepts_flag_or_high_percentage() {
    assert!(counts_as_watched(true, 0));
    assert!(counts_as_watched(false, 700));
    assert!(counts_as_watched(false, 999));
    assert!(!counts_as_watched(false, 699));
    assert!(!counts_as_watched(false, 0));
}

#[test]
fn launch_db_gates_on_store_availability() {
    assert_eq!(launch_db(true), Ok(()));
    assert_eq!(launch_db(false), Err(CoreError::Storage));
}

#[test]
fn error_tags_are_stable() {
    assert_eq!(CoreError::Data.tag(), "data error");
    assert_eq!(CoreError::Numeric.tag(), "numeric error");
    assert_eq!(CoreError::Lookup.tag(), "lookup error");
    assert_eq!(CoreError::Storage.tag(), "storage error");
}
