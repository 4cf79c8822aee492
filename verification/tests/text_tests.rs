use recommend_core::text::tokenize;

#[test]
fn tokenize_empty_string_yields_no_terms() {
    let terms = tokenize("");
    assert!(terms.is_empty());
}

#[test]
fn tokenize_whitespace_only_yields_no_terms() {
    let terms = tokenize("   \t  \n ");
    assert!(terms.is_empty());
}

#[test]
fn tokenize_lowercases_and_stems() {
    let terms = tokenize("The Cat PLAYS");
    assert_eq!(terms, vec![
        "the".to_string(),
        "cat".to_string(),
        "play".to_string(),
    ]);
}

#[test]
fn tokenize_splits_on_any_whitespace() {
    let terms = tokenize("cat\tvideo\ndog");
    assert_eq!(terms, vec![
        "cat".to_string(),
        "video".to_string(),
        "dog".to_string(),
    ]);
}

#[test]
fn tokenize_is_deterministic() {
    let a = tokenize("a cat plays with a dog");
    let b = tokenize("a cat plays with a dog");
    assert_eq!(a, b);
}

#[test]
fn tokenize_stems_plural_and_gerund_forms() {
    assert_eq!(tokenize("running"), vec!["run".to_string()]);
    assert_eq!(tokenize("videos"), vec!["video".to_string()]);
}
