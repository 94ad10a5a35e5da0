use swrender::pick::pick;
use swrender::rectangle::Rectangle;
use swrender::ID_NONE;

// A 2 by 1 rectangle: pixels (0, 0) and (1, 0).
fn two_pixels() -> Rectangle {
    Rectangle::new(0, 1, 1, 1)
}

#[test]
fn pick_prefers_the_larger_cover() {
    let a = 11;
    let b = 22;
    // Candidate 0 (a) covers both pixels, candidate 1 (b) only (1, 0).
    let r = pick(&vec![a, b], &two_pixels(), |k, x, _y| k == 0 || x == 1);
    assert_eq!(r, a);
    // With b first, b takes (1, 0) and a keeps (0, 0): a tie that a reached first.
    let r = pick(&vec![b, a], &two_pixels(), |k, x, _y| k == 1 || x == 1);
    assert_eq!(r, a);
}

#[test]
fn pick_front_candidate_occludes() {
    let r = pick(&vec![5, 6], &two_pixels(), |_, _, _| true);
    assert_eq!(r, 5);
}

#[test]
fn pick_tie_goes_to_first_to_reach_the_count() {
    // Pixel (0, 0) is covered by candidate 1 only, pixel (1, 0) by candidate 0 only.
    let r = pick(&vec![5, 6], &two_pixels(), |k, x, _| (k == 1 && x == 0) || (k == 0 && x == 1));
    assert_eq!(r, 6);
}

#[test]
fn pick_none_when_nothing_touches() {
    assert_eq!(pick(&vec![1, 2, 3], &two_pixels(), |_, _, _| false), ID_NONE);
    assert_eq!(pick(&vec![], &two_pixels(), |_, _, _| true), ID_NONE);
}

#[test]
fn pick_counts_duplicate_ids_together() {
    // Id 9 appears twice; its hits from both places add up.
    let rect = Rectangle::new(0, 2, 1, 1);
    let r = pick(&vec![9, 4, 9], &rect, |k, x, _| {
        (k == 0 && x == 0) || (k == 1 && x == 1) || (k == 2 && x == 2)
    });
    assert_eq!(r, 9);
    let r = pick(&vec![9, 4, 9], &rect, |k, x, _| k == 1 || (k == 0 && x == 0));
    assert_eq!(r, 4);
}
