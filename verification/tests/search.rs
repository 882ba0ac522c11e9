use cashyyc::search::score;

#[test]
fn when_score_with_empty_query_then_some_zero() {
    assert_eq!(score("anything", ""), Some(0));
}

#[test]
fn when_score_with_exact_match_then_some() {
    assert!(score("go", "go").is_some());
}

#[test]
fn when_score_with_no_common_subsequence_then_none() {
    assert_eq!(score("rust", "xyz"), None);
}

#[test]
fn when_score_with_query_longer_than_target_then_none() {
    assert_eq!(score("go", "gooo"), None);
}

#[test]
fn when_score_matches_case_insensitively() {
    assert!(score("Go", "go").is_some());
    assert!(score("go", "Go").is_some());
}

#[test]
fn when_score_prefers_consecutive_over_scattered() {
    let consec = score("acb", "ac").unwrap();
    let scattered = score("axc", "ac").unwrap();
    assert!(consec > scattered, "consec={consec} scattered={scattered}");
}

#[test]
fn when_score_prefers_boundary_over_interior() {
    let boundary = score("go-lang", "go").unwrap();
    let interior = score("ergo", "go").unwrap();
    assert!(
        boundary > interior,
        "boundary={boundary} interior={interior}"
    );
}

#[test]
fn when_score_prefers_separator_boundary() {
    let sep = score("x-go", "g").unwrap();
    let interior = score("xgo", "g").unwrap();
    assert!(sep > interior, "sep={sep} interior={interior}");
}

#[test]
fn when_score_prefers_camel_boundary() {
    let camel = score("myCmd", "c").unwrap();
    let interior = score("mycmd", "c").unwrap();
    assert!(camel > interior, "camel={camel} interior={interior}");
}

#[test]
fn when_score_first_char_gets_multiplied_bonus() {
    let first = score("go", "g").unwrap();
    let other = score("xg", "g").unwrap();
    assert!(first > other, "first={first} other={other}");
}

#[test]
fn when_score_same_match_position_then_scores_equal() {
    let a = score("go", "go").unwrap();
    let b = score("go-postgres", "go").unwrap();
    assert_eq!(a, b, "a={a} b={b}");
}

#[test]
fn when_score_ranks_devcontainer_templates_correctly() {
    let go = score("go", "go").unwrap();
    let go_pg = score("go-postgres", "go").unwrap();
    let django = score("django", "go").unwrap();
    assert!(go >= django, "go={go} django={django}");
    assert!(go_pg >= django, "go_pg={go_pg} django={django}");
}

#[test]
fn when_query_is_not_a_subsequence_then_there_is_no_score() {
    assert!(cashyyc::search::score("devcontainer", "DCR").is_some());
    assert!(cashyyc::search::score("devcontainer", "rcd").is_none());
    assert!(cashyyc::search::score("ab", "abc").is_none());
}
