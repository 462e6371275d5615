use sharkmanager::history::{History, HISTORY_LIMIT};
use sharkmanager::listing::{SortCol, SortState};
use sharkmanager::tab::{TabState, ViewMode};

#[test]
fn back_and_forward() {
    let mut h = History::new("/home".to_string());
    assert_eq!(h.current(), "/home");
    assert!(!h.can_go_back());
    assert!(!h.can_go_forward());
    h.navigate("/home/me".to_string());
    h.navigate("/home/me/Docs".to_string());
    assert_eq!(h.current(), "/home/me/Docs");
    assert!(h.back());
    assert_eq!(h.current(), "/home/me");
    assert!(h.can_go_forward());
    assert!(h.forward());
    assert_eq!(h.current(), "/home/me/Docs");
    assert!(!h.forward());
}

#[test]
fn navigating_drops_the_forward_places() {
    let mut h = History::new("/a".to_string());
    h.navigate("/b".to_string());
    h.navigate("/c".to_string());
    assert!(h.back());
    assert!(h.back());
    assert_eq!(h.current(), "/a");
    h.navigate("/d".to_string());
    assert!(!h.can_go_forward());
    assert!(h.back());
    assert_eq!(h.current(), "/a");
    assert!(!h.back());
}

#[test]
fn going_to_the_shown_place_adds_nothing() {
    let mut h = History::new("/a".to_string());
    h.navigate("/a".to_string());
    assert!(!h.can_go_back());
    h.navigate("/b".to_string());
    h.navigate("/b".to_string());
    assert!(h.back());
    assert_eq!(h.current(), "/a");
    assert!(!h.can_go_back());
}

#[test]
fn history_keeps_at_most_the_limit() {
    let mut h = History::new("/0".to_string());
    for i in 1..=150 {
        h.navigate(format!("/{i}"));
    }
    assert_eq!(h.current(), "/150");
    let mut steps = 0;
    while h.back() {
        steps += 1;
    }
    assert_eq!(steps, HISTORY_LIMIT - 1);
    assert_eq!(h.current(), "/51");
}

#[test]
fn a_new_tab() {
    let t = TabState::new("/home/me".to_string());
    assert_eq!(t.history.current(), "/home/me");
    assert!(!t.show_hidden);
    assert_eq!(t.view_mode, ViewMode::Icons);
    assert!(t.search_text.is_empty());
    assert!(t.clipboard.is_none());
    assert!(t.selected.is_empty());
    assert_eq!(t.sort, SortState { col: SortCol::Name, asc: true });
    assert_eq!(t.thumb_gen, 0);
}

#[test]
fn the_same_place_written_differently_is_not_added_again() {
    let mut h = History::new("/home/me".to_string());
    h.navigate("/home/me/".to_string());
    h.navigate("/home//me".to_string());
    assert!(!h.can_go_back());
    assert_eq!(h.current(), "/home//me");
}

#[test]
fn the_same_place_shows_as_given_and_history_keeps_its_first_spelling() {
    let mut h = History::new("/a".to_string());
    h.navigate("/a/".to_string());
    assert_eq!(h.current(), "/a/");
    assert!(!h.can_go_back());
    h.navigate("/b".to_string());
    assert!(h.back());
    assert_eq!(h.current(), "/a");
    assert!(h.forward());
    assert_eq!(h.current(), "/b");
}
