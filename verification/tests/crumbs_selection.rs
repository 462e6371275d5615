use sharkmanager::crumbs::{breadcrumbs, Crumb};
use sharkmanager::geometry::Rect;
use sharkmanager::selection::{items_in_band, Selection};

fn view(v: &[Crumb]) -> Vec<(String, String, bool)> {
    v.iter().map(|c| (c.label.clone(), c.target.clone(), c.active)).collect()
}

fn c(label: &str, target: &str, active: bool) -> (String, String, bool) {
    (label.to_string(), target.to_string(), active)
}

fn s(x: &str) -> String {
    x.to_string()
}

fn sorted(mut v: Vec<String>) -> Vec<String> {
    v.sort();
    v
}

#[test]
fn path_bar_for_an_absolute_path() {
    assert_eq!(
        view(&breadcrumbs("/home/me/Docs")),
        vec![
            c("/", "/", false),
            c("home", "/home", false),
            c("me", "/home/me", false),
            c("Docs", "/home/me/Docs", true),
        ]
    );
}

#[test]
fn path_bar_for_the_root_and_odd_paths() {
    assert_eq!(view(&breadcrumbs("/")), vec![c("/", "/", true)]);
    assert_eq!(view(&breadcrumbs("")), vec![c("/", "/", true)]);
    assert_eq!(
        view(&breadcrumbs("work/src")),
        vec![c("work", "work", false), c("src", "work/src", true)]
    );
    // a `..` component has no file name and gets no button, but stays the last one
    assert_eq!(
        view(&breadcrumbs("/srv/..")),
        vec![c("/", "/", false), c("srv", "/srv", false)]
    );
}

#[test]
fn selection_basics() {
    let mut sel = Selection::new();
    assert!(sel.is_empty());
    assert_eq!(sel.len(), 0);
    sel = Selection::only(s("/d/a"));
    assert!(sel.contains("/d/a"));
    assert!(!sel.contains("/d/b"));
    assert_eq!(sel.len(), 1);
    let all = Selection::from_paths(&vec![s("/d/a"), s("/d/b"), s("/d/a")]);
    assert_eq!(all.len(), 2);
    assert_eq!(sorted(all.paths()), vec![s("/d/a"), s("/d/b")]);
}

#[test]
fn right_click_acts_on_the_selection_or_the_item() {
    let sel = Selection::from_paths(&vec![s("/d/a"), s("/d/b")]);
    assert_eq!(sorted(sel.context_items("/d/a")), vec![s("/d/a"), s("/d/b")]);
    assert_eq!(sel.context_items("/d/c"), vec![s("/d/c")]);
    assert_eq!(Selection::new().context_items("/d/x"), vec![s("/d/x")]);
}

#[test]
fn keyboard_targets() {
    let sel = Selection::from_paths(&vec![s("/d/a")]);
    assert_eq!(sel.selected_or(Some(s("/d/z"))), vec![s("/d/a")]);
    let none = Selection::new();
    assert_eq!(none.selected_or(Some(s("/d/z"))), vec![s("/d/z")]);
    assert!(none.selected_or(None).is_empty());
}

#[test]
fn rubber_band_selection() {
    let items = vec![
        (Rect { x: 0, y: 0, width: 10, height: 10 }, s("/d/a")),
        (Rect { x: 20, y: 0, width: 10, height: 10 }, s("/d/b")),
        (Rect { x: 40, y: 0, width: 10, height: 10 }, s("/d/c")),
    ];
    let band = Rect { x: 5, y: 5, width: 20, height: 2 };
    let covered = items_in_band(&band, &items);
    assert_eq!(covered, vec![s("/d/a"), s("/d/b")]);
    let base = Selection::from_paths(&vec![s("/d/c")]);
    let replaced = base.after_band(false, true, &covered);
    assert_eq!(sorted(replaced.paths()), vec![s("/d/a"), s("/d/b")]);
    let added = base.after_band(true, true, &covered);
    assert_eq!(sorted(added.paths()), vec![s("/d/a"), s("/d/b"), s("/d/c")]);
    let click = base.after_band(false, false, &covered);
    assert_eq!(click.paths(), vec![s("/d/c")]);
    let touching = Rect { x: 10, y: 0, width: 10, height: 10 };
    assert!(items_in_band(&touching, &items).is_empty());
}

#[test]
fn selection_goes_by_place() {
    let sel = Selection::from_paths(&vec![s("/d/a"), s("/d/a/"), s("/d//b")]);
    assert_eq!(sel.len(), 2);
    assert!(sel.contains("/d/b"));
    assert!(Selection::only(s("/d/a")).contains("/d/./a"));
    assert_eq!(sorted(sel.context_items("/d/a/")), vec![s("/d//b"), s("/d/a")]);
}
