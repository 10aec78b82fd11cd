use dupdupninja::error::Error;
use dupdupninja::matches::{MatchEntry, MatchGroup, MatchGroupKind, MatchMode, MatchesUiState, VisibleRow};
use dupdupninja::similar::HashThresholds;

fn group(kind: MatchGroupKind, title: &str, confidence: u32, files: usize) -> MatchGroup {
    let mut entries = Vec::new();
    for i in 0..files {
        entries.push(MatchEntry { path: format!("/f/{title}/{i}"), detail: None });
    }
    MatchGroup { kind, title: title.to_string(), summary: format!("{files} files"), confidence, entries }
}

fn thresholds() -> HashThresholds {
    HashThresholds { ahash: 10, dhash: 10, phash: 8 }
}

fn state() -> MatchesUiState {
    let exact = vec![
        group(MatchGroupKind::Exact, "exact 2 [blake3:bb]", 640000, 2),
        group(MatchGroupKind::Exact, "exact 3 [blake3:aa]", 640000, 3),
        group(MatchGroupKind::Exact, "exact 2 [blake3:aa]", 640000, 2),
    ];
    let similar = vec![
        group(MatchGroupKind::Similar, "similar 2", 630000, 2),
        group(MatchGroupKind::Similar, "similar 4", 600000, 4),
    ];
    MatchesUiState::new(MatchMode::All, thresholds(), exact, similar)
}

fn titles(s: &MatchesUiState) -> Vec<String> {
    s.filtered_groups().iter().map(|g| g.title.clone()).collect()
}

#[test]
fn mode_parse_accepts_any_ascii_case() {
    assert_eq!(MatchMode::parse("all").unwrap(), MatchMode::All);
    assert_eq!(MatchMode::parse("SIMILAR").unwrap(), MatchMode::Similar);
    assert_eq!(MatchMode::parse("Exact").unwrap(), MatchMode::Exact);
}

#[test]
fn mode_parse_refuses_other_words() {
    match MatchMode::parse("fuzzy") {
        Err(Error::InvalidArgument(m)) => {
            assert_eq!(m, "invalid --mode value: fuzzy (expected all|similar|exact)")
        }
        _ => panic!("expected an error"),
    }
}

#[test]
fn modes_include_their_kinds() {
    assert!(MatchMode::All.includes_exact() && MatchMode::All.includes_similar());
    assert!(MatchMode::Exact.includes_exact() && !MatchMode::Exact.includes_similar());
    assert!(!MatchMode::Similar.includes_exact() && MatchMode::Similar.includes_similar());
}

#[test]
fn filtered_groups_order_confidence_size_title() {
    let s = state();
    assert_eq!(
        titles(&s),
        vec!["exact 3 [blake3:aa]", "exact 2 [blake3:aa]", "exact 2 [blake3:bb]", "similar 2", "similar 4"]
    );
}

#[test]
fn mode_filters_groups() {
    let mut s = state();
    s.set_mode(MatchMode::Similar);
    assert_eq!(titles(&s), vec!["similar 2", "similar 4"]);
    s.set_mode(MatchMode::Exact);
    assert_eq!(titles(&s).len(), 3);
}

#[test]
fn min_confidence_hides_weaker_groups() {
    let mut s = state();
    s.adjust_min_confidence(32000 * 20);
    assert_eq!(s.min_confidence, 640000);
    assert_eq!(titles(&s).len(), 3);
    s.adjust_min_confidence(-32000);
    assert_eq!(s.min_confidence, 608000);
    assert_eq!(titles(&s).len(), 4);
    s.adjust_min_confidence(-640000 * 3);
    assert_eq!(s.min_confidence, 0);
    s.adjust_min_confidence(32000);
    s.clear_filters();
    assert_eq!(s.min_confidence, 0);
    assert_eq!(titles(&s).len(), 5);
}

#[test]
fn visible_rows_expand_a_group() {
    let mut s = state();
    assert_eq!(s.visible_rows().len(), 5);
    s.move_down();
    assert_eq!(s.selected, 1);
    s.toggle_expand_selected();
    let rows = s.visible_rows();
    assert_eq!(rows.len(), 7);
    assert_eq!(rows[1], VisibleRow::Group(1));
    assert_eq!(rows[2], VisibleRow::Entry(1, 0));
    assert_eq!(rows[3], VisibleRow::Entry(1, 1));
    assert_eq!(rows[4], VisibleRow::Group(2));
}

#[test]
fn toggling_twice_restores_the_view() {
    let mut s = state();
    s.move_down();
    s.move_down();
    let before = s.visible_rows();
    s.toggle_expand_selected();
    assert_eq!(s.selected, 2);
    assert_eq!(s.selected_row(), Some(VisibleRow::Group(2)));
    s.toggle_expand_selected();
    assert_eq!(s.selected, 2);
    assert_eq!(s.visible_rows(), before);
}

#[test]
fn collapse_from_an_entry_line_clamps_the_selection() {
    let mut s = state();
    s.set_mode(MatchMode::Similar);
    s.move_down();
    s.toggle_expand_selected();
    assert_eq!(s.visible_rows().len(), 6);
    for _ in 0..10 {
        s.move_down();
    }
    assert_eq!(s.selected, 5);
    assert_eq!(s.selected_row(), Some(VisibleRow::Entry(1, 3)));
    s.collapse_selected();
    assert_eq!(s.visible_rows().len(), 2);
    assert_eq!(s.selected, 1);
}

#[test]
fn moving_stays_within_the_lines() {
    let mut s = state();
    s.move_up();
    assert_eq!(s.selected, 0);
    for _ in 0..20 {
        s.move_down();
    }
    assert_eq!(s.selected, 4);
    s.move_up();
    s.move_down();
    assert_eq!(s.selected, 4);
    s.move_up();
    assert_eq!(s.selected, 3);
}

#[test]
fn down_then_up_returns() {
    let mut s = state();
    s.move_down();
    s.move_down();
    let at = s.selected;
    s.move_down();
    s.move_up();
    assert_eq!(s.selected, at);
}

#[test]
fn empty_browser_selects_nothing() {
    let mut s = MatchesUiState::new(MatchMode::All, thresholds(), Vec::new(), Vec::new());
    s.move_down();
    assert_eq!(s.selected, 0);
    assert_eq!(s.selected_row(), None);
    s.toggle_expand_selected();
    s.collapse_selected();
    assert_eq!(s.visible_rows().len(), 0);
}
