use cashyyc::tui::view::{collapsed_window, BuildLogView, COLLAPSE_HINT, EXPAND_HINT};

#[test]
fn tui_when_collapsed_window_with_lines_then_returns_last_n() {
    let buf: Vec<String> = (1..=5).map(|i| format!("line {i}")).collect();
    let w = collapsed_window(&buf, 80);
    assert_eq!(w, vec!["line 3", "line 4", "line 5"]);
}

#[test]
fn tui_when_collapsed_window_with_fewer_lines_then_returns_padded_empty() {
    let buf = vec!["a".to_string(), "b".to_string()];
    let w = collapsed_window(&buf, 80);
    assert_eq!(w, vec!["a", "b", ""]);
}

#[test]
fn tui_when_collapsed_window_with_long_line_then_returns_truncated() {
    let buf = vec!["x".repeat(200)];
    let w = collapsed_window(&buf, 80);
    assert_eq!(w[0], "x".repeat(80));
}

#[test]
fn tui_when_on_lines_with_collapsed_then_returns_window_without_commit() {
    let view = BuildLogView::new(80);
    let (_view, frame) = view.on_lines(vec![
        "a".to_string(),
        "b".to_string(),
        "c".to_string(),
        "d".to_string(),
    ]);
    assert!(frame.commit.is_empty());
    assert_eq!(
        frame.live,
        vec![
            "b".to_string(),
            "c".to_string(),
            "d".to_string(),
            EXPAND_HINT.to_string()
        ]
    );
}

#[test]
fn tui_when_toggle_with_buffered_lines_then_returns_committed_lines() {
    let view = BuildLogView::new(80);
    let (view, _) = view.on_lines(vec!["a".to_string(), "b".to_string()]);
    let (_view, frame) = view.toggle();
    assert_eq!(frame.commit, vec!["a".to_string(), "b".to_string()]);
    assert_eq!(frame.live, vec![COLLAPSE_HINT.to_string()]);
}

#[test]
fn tui_when_on_lines_with_expanded_then_returns_appended_lines() {
    let view = BuildLogView::new(80);
    let (view, _) = view.on_lines(vec!["a".to_string(), "b".to_string()]);
    let (view, _) = view.toggle();
    let (_view, frame) = view.on_lines(vec!["c".to_string()]);
    assert_eq!(frame.commit, vec!["c".to_string()]);
    assert_eq!(frame.live, vec![COLLAPSE_HINT.to_string()]);
}

#[test]
fn tui_when_toggle_with_expanded_then_returns_no_recommit() {
    let view = BuildLogView::new(80);
    let (view, _) = view.on_lines(vec!["a".to_string(), "b".to_string()]);
    let (view, _) = view.toggle();
    let (view, frame) = view.toggle();
    assert!(frame.commit.is_empty());
    let (_view, next) = view.on_lines(vec!["c".to_string()]);
    assert!(next.commit.is_empty());
}

#[test]
fn tui_when_toggle_with_reexpansion_then_returns_only_new_lines() {
    let view = BuildLogView::new(80);
    let (view, _) = view.on_lines(vec!["a".to_string(), "b".to_string()]);
    let (view, _) = view.toggle();
    let (view, _) = view.toggle();
    let (view, _) = view.on_lines(vec!["c".to_string()]);
    let (_view, frame) = view.toggle();
    assert_eq!(frame.commit, vec!["c".to_string()]);
}
