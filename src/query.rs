use vstd::prelude::*;

use crate::color::{color_matches, mask_matches, spec_color_matches, spec_mask_matches};
use crate::pick::{computes_touches, TouchFn};
use crate::rectangle::{computes_pixels, Rectangle};

verus! {

/// Colours by pixel, as sequences of channel values.
pub type ColorFn = spec_fn(i64, i64) -> Seq<u8>;

/// Every answer of `f` at pixel `(x, y)` is the RGB colour `c(x, y)`.
pub open spec fn computes_rgb<F: Fn(i64, i64) -> [u8; 3]>(f: F, c: ColorFn) -> bool {
    forall|x: i64, y: i64, v: [u8; 3]| #[trigger] f.ensures((x, y), v) ==> v@ == c(x, y)
}

/// Every answer of `f` at pixel `(x, y)` is the RGBA colour `c(x, y)`.
pub open spec fn computes_rgba<F: Fn(i64, i64) -> [u8; 4]>(f: F, c: ColorFn) -> bool {
    forall|x: i64, y: i64, v: [u8; 4]| #[trigger] f.ensures((x, y), v) ==> v@ == c(x, y)
}

/// Whether some candidate `k < n` touches pixel `(x, y)`.
pub open spec fn some_candidate(t: TouchFn, n: int, x: i64, y: i64) -> bool {
    exists|k: int| 0 <= k < n && #[trigger] t(k, x, y)
}

/// Whether some candidate in `0 .. n` touches pixel `(x, y)`, trying them in list order
/// and stopping at the first that does.
pub fn any_candidate<G: Fn(usize, i64, i64) -> bool>(candidate: &G, n: usize, x: i64, y: i64) -> (r: bool)
    requires
        forall|k: usize, x: i64, y: i64| candidate.requires((k, x, y)),
    ensures
        forall|t: TouchFn| #[trigger] computes_touches(*candidate, t) ==> r == some_candidate(t, n as int, x, y),
{
    let mut k: usize = 0;
    while k < n
        invariant
            forall|k: usize, x: i64, y: i64| candidate.requires((k, x, y)),
            k <= n,
            forall|t: TouchFn| #[trigger]
                computes_touches(*candidate, t) ==> forall|j: int| 0 <= j < k ==> !#[trigger] t(j, x, y),
        decreases n - k,
    {
        let hit = candidate(k, x, y);
        if hit {
            assert forall|t: TouchFn| #[trigger] computes_touches(*candidate, t) implies some_candidate(
                t,
                n as int,
                x,
                y,
            ) by {
                assert(t(k as int, x, y));
            }
            return true;
        }
        k += 1;
    }
    false
}

/// Whether the drawable touches any of `n` candidates inside `rect`: some pixel is
/// covered by the drawable (`own`) and by at least one candidate (`candidate(k, ..)`,
/// tried in list order). Stops at the first such pixel.
pub fn is_touching_drawables<F: Fn(i64, i64) -> bool, G: Fn(usize, i64, i64) -> bool>(
    rect: &Rectangle,
    own: F,
    n: usize,
    candidate: G,
) -> (r: bool)
    requires
        forall|x: i64, y: i64| own.requires((x, y)),
        forall|k: usize, x: i64, y: i64| candidate.requires((k, x, y)),
    ensures
        forall|to: spec_fn(i64, i64) -> bool, tc: TouchFn|
            computes_pixels(own, to) && computes_touches(candidate, tc) ==> (r == exists|x: i64, y: i64|
                rect.contains(x as int, y as int) && to(x, y) && some_candidate(tc, n as int, x, y)),
{
    let own = &own;
    let candidate = &candidate;
    let f = |x: i64, y: i64| -> (b: bool)
        requires
            forall|x: i64, y: i64| own.requires((x, y)),
            forall|k: usize, x: i64, y: i64| candidate.requires((k, x, y)),
        ensures
            forall|to: spec_fn(i64, i64) -> bool, tc: TouchFn|
                computes_pixels(*own, to) && computes_touches(*candidate, tc) ==> b == (to(x, y)
                    && some_candidate(tc, n as int, x, y)),
        { own(x, y) && any_candidate(candidate, n, x, y) };
    let r = rect.any_pixel(f);
    assert forall|to: spec_fn(i64, i64) -> bool, tc: TouchFn|
        computes_pixels(*own, to) && computes_touches(*candidate, tc) implies (r == exists|x: i64, y: i64|
        rect.contains(x as int, y as int) && to(x, y) && some_candidate(tc, n as int, x, y)) by {
        let tp = |x: i64, y: i64| to(x, y) && some_candidate(tc, n as int, x, y);
        assert(computes_pixels(f, tp));
    }
    r
}

/// Whether the drawable touches `color` inside `rect`: some pixel is covered by the
/// drawable (`own`) and the candidates composited there (`composite`) give a colour that
/// matches `color`. Stops at the first such pixel.
pub fn is_touching_color<F: Fn(i64, i64) -> bool, H: Fn(i64, i64) -> [u8; 3]>(
    rect: &Rectangle,
    own: F,
    composite: H,
    color: [u8; 3],
) -> (r: bool)
    requires
        forall|x: i64, y: i64| own.requires((x, y)),
        forall|x: i64, y: i64| composite.requires((x, y)),
    ensures
        forall|to: spec_fn(i64, i64) -> bool, c: ColorFn|
            computes_pixels(own, to) && computes_rgb(composite, c) ==> (r == exists|x: i64, y: i64|
                rect.contains(x as int, y as int) && to(x, y) && spec_color_matches(color@, c(x, y))),
{
    let own = &own;
    let composite = &composite;
    let f = |x: i64, y: i64| -> (b: bool)
        requires
            forall|x: i64, y: i64| own.requires((x, y)),
            forall|x: i64, y: i64| composite.requires((x, y)),
        ensures
            forall|to: spec_fn(i64, i64) -> bool, c: ColorFn|
                computes_pixels(*own, to) && computes_rgb(*composite, c) ==> b == (to(x, y)
                    && spec_color_matches(color@, c(x, y))),
        { own(x, y) && color_matches(color, composite(x, y)) };
    let r = rect.any_pixel(f);
    assert forall|to: spec_fn(i64, i64) -> bool, c: ColorFn|
        computes_pixels(*own, to) && computes_rgb(*composite, c) implies (r == exists|x: i64, y: i64|
        rect.contains(x as int, y as int) && to(x, y) && spec_color_matches(color@, c(x, y))) by {
        let tp = |x: i64, y: i64| to(x, y) && spec_color_matches(color@, c(x, y));
        assert(computes_pixels(f, tp));
    }
    r
}

/// Whether a colour of the drawable touches `color` inside `rect`: at some pixel the
/// drawable's own sampled colour (`own_color`) matches `mask` and is not transparent, and
/// the candidates composited there (`composite`) match `color`. Stops at the first such
/// pixel.
pub fn color_is_touching_color<F: Fn(i64, i64) -> [u8; 4], H: Fn(i64, i64) -> [u8; 3]>(
    rect: &Rectangle,
    own_color: F,
    composite: H,
    color: [u8; 3],
    mask: [u8; 3],
) -> (r: bool)
    requires
        forall|x: i64, y: i64| own_color.requires((x, y)),
        forall|x: i64, y: i64| composite.requires((x, y)),
    ensures
        forall|o: ColorFn, c: ColorFn|
            computes_rgba(own_color, o) && computes_rgb(composite, c) ==> (r == exists|x: i64, y: i64|
                rect.contains(x as int, y as int) && spec_mask_matches(o(x, y), mask@)
                    && spec_color_matches(color@, c(x, y))),
{
    let own_color = &own_color;
    let composite = &composite;
    let f = |x: i64, y: i64| -> (b: bool)
        requires
            forall|x: i64, y: i64| own_color.requires((x, y)),
            forall|x: i64, y: i64| composite.requires((x, y)),
        ensures
            forall|o: ColorFn, c: ColorFn|
                computes_rgba(*own_color, o) && computes_rgb(*composite, c) ==> b == (
                spec_mask_matches(o(x, y), mask@) && spec_color_matches(color@, c(x, y))),
        { mask_matches(own_color(x, y), mask) && color_matches(color, composite(x, y)) };
    let r = rect.any_pixel(f);
    assert forall|o: ColorFn, c: ColorFn|
        computes_rgba(*own_color, o) && computes_rgb(*composite, c) implies (r == exists|
        x: i64,
        y: i64,
    |
        rect.contains(x as int, y as int) && spec_mask_matches(o(x, y), mask@) && spec_color_matches(
            color@,
            c(x, y),
        )) by {
        let tp = |x: i64, y: i64| spec_mask_matches(o(x, y), mask@) && spec_color_matches(color@, c(x, y));
        assert(computes_pixels(f, tp));
    }
    r
}

} // verus!
