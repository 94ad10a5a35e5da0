use swrender::query::{any_candidate, color_is_touching_color, is_touching_color, is_touching_drawables};
use swrender::rectangle::Rectangle;

// Pixels (0, 0) and (1, 0).
fn two_pixels() -> Rectangle {
    Rectangle::new(0, 1, 1, 1)
}

#[test]
fn touching_drawables_needs_a_shared_pixel() {
    // The drawable covers (0, 0) only; candidate 0 covers (1, 0) only.
    let own = |x: i64, _y: i64| x == 0;
    assert!(!is_touching_drawables(&two_pixels(), own, 1, |_k, x, _y| x == 1));
    // A second candidate that covers (0, 0) makes them touch.
    assert!(is_touching_drawables(&two_pixels(), own, 2, |k, x, _y| (k == 0 && x == 1) || (k == 1 && x == 0)));
    // No candidates: nothing to touch.
    assert!(!is_touching_drawables(&two_pixels(), own, 0, |_, _, _| true));
}

#[test]
fn any_candidate_tries_only_the_first_n() {
    assert!(any_candidate(&|k: usize, _x: i64, _y: i64| k == 2, 3, 0, 0));
    assert!(!any_candidate(&|k: usize, _x: i64, _y: i64| k == 2, 2, 0, 0));
}

#[test]
fn touching_color_matches_the_composite() {
    let composite = |x: i64, _y: i64| if x == 1 { [10, 20, 30] } else { [200, 200, 200] };
    assert!(is_touching_color(&two_pixels(), |_, _| true, composite, [15, 23, 31]));
    assert!(!is_touching_color(&two_pixels(), |_, _| true, composite, [15, 23, 32]));
    // The drawable must cover the pixel where the colour is.
    assert!(!is_touching_color(&two_pixels(), |x, _| x == 0, composite, [15, 23, 31]));
    assert!(is_touching_color(&two_pixels(), |x, _| x == 0, composite, [203, 207, 207]));
}

#[test]
fn touching_color_of_an_opaque_front_candidate() {
    // The composite of a single opaque (10, 20, 30, 255) candidate is (10, 20, 30).
    let composite = |x: i64, _y: i64| if x == 0 { [10u8, 20, 30] } else { [255u8, 255, 255] };
    assert!(is_touching_color(&two_pixels(), |x, _| x == 0, composite, [10, 20, 30]));
    assert!(!is_touching_color(&two_pixels(), |x, _| x == 1, composite, [10, 20, 30]));
}

#[test]
fn color_touching_color_needs_an_opaque_mask_match() {
    let composite = |_x: i64, _y: i64| [0u8, 0, 255];
    // The drawable's own colour matches the mask but is transparent at (0, 0).
    let own = |x: i64, _y: i64| if x == 0 { [100u8, 100, 100, 0] } else { [0u8, 0, 0, 255] };
    assert!(!color_is_touching_color(&two_pixels(), own, composite, [0, 0, 250], [100, 100, 100]));
    let own = |x: i64, _y: i64| if x == 1 { [102u8, 101, 103, 9] } else { [0u8, 0, 0, 255] };
    assert!(color_is_touching_color(&two_pixels(), own, composite, [0, 0, 250], [100, 100, 100]));
    assert!(!color_is_touching_color(&two_pixels(), own, composite, [0, 0, 230], [100, 100, 100]));
}
