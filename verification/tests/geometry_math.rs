use sharkmanager::geometry::{is_selection_drag, normalized_rect, popup_shift, rect_overlaps, Rect};

fn rect(x: i32, y: i32, width: i32, height: i32) -> Rect {
    Rect { x, y, width, height }
}

/// The corners of a drag arrive as floating-point positions; the view truncates them
/// to whole pixels before spanning the box.
fn span_of(a: (f64, f64), b: (f64, f64)) -> Rect {
    normalized_rect(a.0 as i32, a.1 as i32, b.0 as i32, b.1 as i32)
}

#[test]
fn rect_overlap_math() {
    // fully inside
    assert!(rect_overlaps(&rect(10, 10, 50, 50), &rect(20, 20, 10, 10)));
    // disjoint
    assert!(!rect_overlaps(&rect(0, 0, 10, 10), &rect(20, 20, 10, 10)));
    // touching edges = no overlap
    assert!(!rect_overlaps(&rect(0, 0, 10, 10), &rect(10, 0, 10, 10)));
    // zero-size box selects nothing
    assert!(!rect_overlaps(&rect(5, 5, 0, 0), &rect(5, 5, 10, 10)));
    // partial overlap
    assert!(rect_overlaps(&rect(0, 0, 20, 20), &rect(10, 10, 20, 20)));
}

#[test]
fn normalized_rect_math() {
    let r = span_of((30.0, 10.0), (10.0, 60.0));
    assert_eq!((r.x, r.y, r.width, r.height), (10, 10, 20, 50));
    let r = span_of((10.0, 10.0), (30.0, 40.0));
    assert_eq!((r.x, r.y, r.width, r.height), (10, 10, 20, 30));
    // tiny accidental click -> threshold check rejects it in drag_end
    let r = span_of((10.0, 10.0), (10.9, 10.9));
    let d = (r.width.pow(2) + r.height.pow(2)) as i32;
    assert!(d <= 16);
    assert!(!is_selection_drag(&r));
}

#[test]
fn a_zero_size_band_inside_an_item_selects_nothing() {
    assert!(!rect_overlaps(&rect(5, 5, 0, 0), &rect(0, 0, 10, 10)));
    assert!(!rect_overlaps(&rect(5, 5, 3, 0), &rect(0, 0, 10, 10)));
    assert!(!rect_overlaps(&rect(5, 5, 0, 3), &rect(0, 0, 10, 10)));
    assert!(rect_overlaps(&rect(5, 5, 1, 1), &rect(0, 0, 10, 10)));
}

#[test]
fn overlap_is_symmetric_on_samples() {
    let a = rect(0, 0, 20, 20);
    let b = rect(10, 10, 20, 20);
    let c = rect(30, 30, 5, 5);
    assert_eq!(rect_overlaps(&a, &b), rect_overlaps(&b, &a));
    assert_eq!(rect_overlaps(&a, &c), rect_overlaps(&c, &a));
}

#[test]
fn span_ignores_drag_direction() {
    let r1 = normalized_rect(5, 40, 25, 10);
    let r2 = normalized_rect(25, 10, 5, 40);
    assert_eq!(r1, r2);
    assert_eq!((r1.x, r1.y, r1.width, r1.height), (5, 10, 20, 30));
}

#[test]
fn drag_threshold() {
    assert!(!is_selection_drag(&rect(0, 0, 4, 0)));
    assert!(!is_selection_drag(&rect(0, 0, 0, 4)));
    assert!(is_selection_drag(&rect(0, 0, 3, 3)));
    assert!(is_selection_drag(&rect(0, 0, 5, 0)));
}

#[test]
fn popup_slides_back_inside() {
    // hangs out on the right and the bottom
    assert_eq!(popup_shift(900, 700, 200, 150, 1000, 800), (-100, -50));
    // already inside
    assert_eq!(popup_shift(10, 10, 100, 100, 1000, 800), (0, 0));
    // left of the window
    assert_eq!(popup_shift(-30, 10, 100, 100, 1000, 800), (30, 0));
    // larger than the window: put at the start
    assert_eq!(popup_shift(50, 50, 1200, 900, 1000, 800), (-50, -50));
}
