use ani_dl::api::ShowResult;
use ani_dl::tui::{move_sel, EpisodeOutcome, EpisodeScreen, Key, SearchOutcome, SearchScreen};

fn show(name: &str) -> ShowResult {
    ShowResult { id: name.to_lowercase(), name: name.to_string(), episodes: 12, year: 0 }
}

#[test]
fn cursor_wraps_around() {
    assert_eq!(move_sel(Some(0), 3, -1), Some(2));
    assert_eq!(move_sel(Some(2), 3, 1), Some(0));
    assert_eq!(move_sel(None, 3, 1), Some(1));
    assert_eq!(move_sel(Some(1), 0, 1), None);
    // Down then up comes back.
    assert_eq!(move_sel(move_sel(Some(2), 3, 1), 3, -1), Some(2));
}

#[test]
fn search_filters_case_blind_and_chooses() {
    let shows = vec![show("Frieren"), show("One Piece"), show("FRIEREN: Part 2")];
    let mut s = SearchScreen::new();
    assert_eq!(s.visible(&shows), vec![0, 1, 2]);
    for c in "fri".chars() {
        let v = s.visible(&shows);
        s.on_key(Key::Char(c), &v);
    }
    let vis = s.visible(&shows);
    assert_eq!(vis, vec![0, 2]);
    s.on_key(Key::Down, &vis);
    assert_eq!(s.selected, Some(1));
    assert!(matches!(s.on_key(Key::Enter, &vis), SearchOutcome::Chosen(2)));
    s.on_key(Key::Backspace, &vis);
    assert_eq!(s.input_text(), "fr");
    assert_eq!(s.selected, Some(0));
    assert!(matches!(s.on_key(Key::Esc, &vis), SearchOutcome::Cancel));
}

#[test]
fn search_selection_is_clamped() {
    let mut s = SearchScreen::new();
    s.selected = Some(5);
    s.clamp(2);
    assert_eq!(s.selected, Some(1));
    s.clamp(0);
    assert_eq!(s.selected, None);
    assert!(matches!(s.on_key(Key::Enter, &vec![]), SearchOutcome::Continue));
}

#[test]
fn episodes_toggle_and_confirm_in_order() {
    let eps: Vec<String> = ["1", "2", "3"].iter().map(|s| s.to_string()).collect();
    let mut e = EpisodeScreen::new(3);
    e.on_key(Key::Char(' '), &eps);
    e.on_key(Key::Down, &eps);
    e.on_key(Key::Char('j'), &eps);
    e.on_key(Key::Char(' '), &eps);
    assert_eq!(e.marked_count(), 2);
    match e.on_key(Key::Enter, &eps) {
        EpisodeOutcome::Confirm(v) => assert_eq!(v, ["1", "3"]),
        _ => panic!("expected a confirmation"),
    }
    // Space twice on the same row undoes itself.
    e.on_key(Key::Char(' '), &eps);
    e.on_key(Key::Char(' '), &eps);
    assert_eq!(e.marked, vec![true, false, true]);
    e.on_key(Key::Char('k'), &eps);
    assert_eq!(e.cursor, Some(1));
}

#[test]
fn select_all_flips_between_all_and_none() {
    let eps: Vec<String> = ["1", "2"].iter().map(|s| s.to_string()).collect();
    let mut e = EpisodeScreen::new(2);
    e.on_key(Key::Char('a'), &eps);
    assert_eq!(e.marked, vec![true, true]);
    e.on_key(Key::Char('a'), &eps);
    assert_eq!(e.marked, vec![false, false]);
    assert!(matches!(e.on_key(Key::Char('q'), &eps), EpisodeOutcome::Cancel));
    assert!(matches!(e.on_key(Key::Esc, &eps), EpisodeOutcome::Cancel));
}
