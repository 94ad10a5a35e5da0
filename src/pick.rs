use vstd::prelude::*;

use crate::rectangle::Rectangle;
use crate::{DrawableID, ID_NONE};

verus! {

/// What a pick has gathered so far: hits per drawable id, the leading id and its count.
pub type Tally = (Map<DrawableID, nat>, DrawableID, nat);

/// Which candidate, by index, touches which pixel.
pub type TouchFn = spec_fn(int, i64, i64) -> bool;

/// Hits credited to `id` so far.
pub open spec fn count_of(counts: Map<DrawableID, nat>, id: DrawableID) -> nat {
    if counts.contains_key(id) {
        counts[id]
    } else {
        0
    }
}

/// The first candidate index in `k .. n` that touches pixel `(x, y)`.
pub open spec fn first_hit_from(t: TouchFn, n: int, k: int, x: i64, y: i64) -> Option<int>
    decreases n - k,
{
    if k >= n {
        None
    } else if t(k, x, y) {
        Some(k)
    } else {
        first_hit_from(t, n, k + 1, x, y)
    }
}

/// The tally before any pixel.
pub open spec fn tally_start() -> Tally {
    (Map::empty(), ID_NONE, 0)
}

/// Credit one pixel to candidate `hit`, if any: its id's count goes up by one, and the
/// lead changes hands only when the new count beats the leading one.
pub open spec fn credit(st: Tally, ids: Seq<DrawableID>, hit: Option<int>) -> Tally {
    match hit {
        None => st,
        Some(k) => {
            let id = ids[k];
            let c = count_of(st.0, id) + 1;
            if c > st.2 {
                (st.0.insert(id, c), id, c)
            } else {
                (st.0.insert(id, c), st.1, st.2)
            }
        },
    }
}

/// One pixel: the first candidate in list order that touches it gets the hit.
pub open spec fn tally_step(st: Tally, ids: Seq<DrawableID>, t: TouchFn, x: i64, y: i64) -> Tally {
    credit(st, ids, first_hit_from(t, ids.len() as int, 0, x, y))
}

/// The tally after the pixels `x_first .. x_end` of row `y`, left to right.
pub open spec fn tally_row(
    st: Tally,
    ids: Seq<DrawableID>,
    t: TouchFn,
    y: i64,
    x_first: int,
    x_end: int,
) -> Tally
    decreases x_end - x_first,
{
    if x_end <= x_first {
        st
    } else {
        tally_step(tally_row(st, ids, t, y, x_first, x_end - 1), ids, t, (x_end - 1) as i64, y)
    }
}

/// The tally after the rows of `rect` below `y_end`, lowest row first.
pub open spec fn tally_rect(st: Tally, ids: Seq<DrawableID>, t: TouchFn, rect: Rectangle, y_end: int) -> Tally
    decreases y_end - rect.y_first(),
{
    if y_end <= rect.y_first() {
        st
    } else {
        tally_row(
            tally_rect(st, ids, t, rect, y_end - 1),
            ids,
            t,
            (y_end - 1) as i64,
            rect.x_first(),
            rect.x_end(),
        )
    }
}

/// The tally over the whole rectangle.
pub open spec fn pick_tally(ids: Seq<DrawableID>, t: TouchFn, rect: Rectangle) -> Tally {
    tally_rect(tally_start(), ids, t, rect, rect.y_end())
}

/// Every answer of `f` on candidate `k` and pixel `(x, y)` is `t(k, x, y)`.
pub open spec fn computes_touches<F: Fn(usize, i64, i64) -> bool>(f: F, t: TouchFn) -> bool {
    forall|k: usize, x: i64, y: i64, b: bool|
        #[trigger] f.ensures((k, x, y), b) ==> b == t(k as int, x, y)
}

/// The id of the candidate that covers the most pixels of `rect`.
///
/// `touches(k, x, y)` says whether candidate `k` (an index into `candidates`) covers
/// stage pixel `(x, y)`. At each pixel only the first candidate in list order that covers
/// it is credited, so earlier candidates occlude later ones. Pixels are taken row by row
/// from the lowest; the lead passes to an id only when its count beats the leader's, so
/// of tied ids the one that reached the count first wins. [`ID_NONE`] when no candidate
/// covers any pixel.
pub fn pick<F: Fn(usize, i64, i64) -> bool>(
    candidates: &Vec<DrawableID>,
    rect: &Rectangle,
    touches: F,
) -> (r: DrawableID)
    requires
        forall|k: usize, x: i64, y: i64| touches.requires((k, x, y)),
    ensures
        forall|t: TouchFn| #[trigger] computes_touches(touches, t) ==> r == pick_tally(candidates@, t, *rect).1,
{
    let ghost ids = candidates@;
    let mut hits: std::collections::HashMap<DrawableID, u128> = std::collections::HashMap::new();
    let mut winner: DrawableID = ID_NONE;
    let mut best: u128 = 0;
    let ghost mut st: Tally = tally_start();
    let mut seen: u128 = 0;
    let n = candidates.len();
    let x_first = rect.left as i64;
    let x_end = rect.right as i64 + 1;
    let y_end = rect.top as i64;
    let mut y = rect.bottom as i64 - 1;
    while y < y_end
        invariant
            forall|k: usize, x: i64, y: i64| touches.requires((k, x, y)),
            ids == candidates@,
            n == ids.len(),
            x_first == rect.x_first(),
            x_end == rect.x_end(),
            y_end == rect.y_end(),
            rect.y_first() <= y,
            y <= y_end || y == rect.y_first(),
            forall|t: TouchFn| #[trigger]
                computes_touches(touches, t) ==> st == tally_rect(tally_start(), ids, t, *rect, y as int),
            winner == st.1,
            best == st.2,
            forall|id: DrawableID| count_of(st.0, id) == (if hits@.contains_key(id) {
                hits@[id] as nat
            } else {
                0
            }),
            forall|id: DrawableID| count_of(st.0, id) <= seen,
            best <= seen,
            seen <= (y - rect.y_first()) * 0x2_0000_0000,
        decreases y_end - y,
    {
        let ghost row_start = st;
        let mut x = x_first;
        while x < x_end
            invariant
                forall|k: usize, x: i64, y: i64| touches.requires((k, x, y)),
                ids == candidates@,
                n == ids.len(),
                x_first == rect.x_first(),
                x_end == rect.x_end(),
                y_end == rect.y_end(),
                rect.y_first() <= y < y_end,
                x_first <= x,
                x <= x_end || x == x_first,
                forall|t: TouchFn| #[trigger]
                    computes_touches(touches, t) ==> row_start == tally_rect(tally_start(), ids, t, *rect, y as int)
                        && st == tally_row(row_start, ids, t, y, x_first as int, x as int),
                winner == st.1,
                best == st.2,
                forall|id: DrawableID| count_of(st.0, id) == (if hits@.contains_key(id) {
                    hits@[id] as nat
                } else {
                    0
                }),
                forall|id: DrawableID| count_of(st.0, id) <= seen,
                best <= seen,
                seen <= (y - rect.y_first()) * 0x2_0000_0000 + (x - x_first),
            decreases x_end - x,
        {
            let mut k: usize = 0;
            let mut found = false;
            while k < n && !found
                invariant
                    forall|k: usize, x: i64, y: i64| touches.requires((k, x, y)),
                    n == ids.len(),
                    k <= n,
                    found ==> k < n,
                    forall|t: TouchFn| #[trigger]
                        computes_touches(touches, t) ==> (found ==> first_hit_from(t, n as int, 0, x, y) == Some(
                            k as int,
                        )) && (!found ==> first_hit_from(t, n as int, 0, x, y) == first_hit_from(
                            t,
                            n as int,
                            k as int,
                            x,
                            y,
                        )),
                decreases n - k + (if found {
                    0int
                } else {
                    1
                }),
            {
                let hit = touches(k, x, y);
                if hit {
                    found = true;
                } else {
                    k += 1;
                }
            }
            let ghost prev = st;
            let ghost hit_at: Option<int> = if found {
                Some(k as int)
            } else {
                None
            };
            assert forall|t: TouchFn| #[trigger] computes_touches(touches, t) implies first_hit_from(
                t,
                n as int,
                0,
                x,
                y,
            ) == hit_at by {
                if !found {
                    assert(first_hit_from(t, n as int, k as int, x, y) is None);
                }
            }
            proof {
                st = credit(st, ids, hit_at);
            }
            if found {
                let id = candidates[k];
                let c = match hits.get(&id) {
                    Some(c) => *c + 1,
                    None => 1,
                };
                assert(c == count_of(prev.0, id) + 1);
                hits.insert(id, c);
                assert(st.0 == prev.0.insert(id, c as nat));
                assert forall|id2: DrawableID| count_of(st.0, id2) == (if hits@.contains_key(id2) {
                    hits@[id2] as nat
                } else {
                    0
                }) && count_of(st.0, id2) <= seen + 1 by {
                    if id2 != id {
                        assert(count_of(st.0, id2) == count_of(prev.0, id2));
                    }
                }
                if c > best {
                    winner = id;
                    best = c;
                }
            }
            seen = seen + 1;
            x += 1;
        }
        y += 1;
    }
    winner
}

/// The leader holds the largest count, only a leader with a hit is an id other than
/// [`ID_NONE`], and only ids of `ids` have hits.
pub open spec fn leads(st: Tally, ids: Seq<DrawableID>) -> bool {
    &&& forall|id: DrawableID| #[trigger] count_of(st.0, id) <= st.2
    &&& st.2 == count_of(st.0, st.1)
    &&& st.2 == 0 ==> st.1 == ID_NONE
    &&& forall|id: DrawableID| #[trigger] count_of(st.0, id) > 0 ==> ids.contains(id)
}

proof fn lemma_first_hit_in_range(t: TouchFn, n: int, k: int, x: i64, y: i64)
    requires
        0 <= k,
    ensures
        first_hit_from(t, n, k, x, y) matches Some(j) ==> k <= j < n,
    decreases n - k,
{
    if k < n && !t(k, x, y) {
        lemma_first_hit_in_range(t, n, k + 1, x, y);
    }
}

proof fn lemma_step_leads(st: Tally, ids: Seq<DrawableID>, t: TouchFn, x: i64, y: i64)
    requires
        leads(st, ids),
    ensures
        leads(tally_step(st, ids, t, x, y), ids),
{
    let next = tally_step(st, ids, t, x, y);
    lemma_first_hit_in_range(t, ids.len() as int, 0, x, y);
    if let Some(k) = first_hit_from(t, ids.len() as int, 0, x, y) {
        let id = ids[k];
        assert(ids.contains(id));
        assert forall|id2: DrawableID| #[trigger] count_of(next.0, id2) <= next.2 && (count_of(
            next.0,
            id2,
        ) > 0 ==> ids.contains(id2)) by {
            if id2 != id {
                assert(count_of(next.0, id2) == count_of(st.0, id2));
            }
        }
    }
}

proof fn lemma_row_leads(
    st: Tally,
    ids: Seq<DrawableID>,
    t: TouchFn,
    y: i64,
    x_first: int,
    x_end: int,
)
    requires
        leads(st, ids),
    ensures
        leads(tally_row(st, ids, t, y, x_first, x_end), ids),
    decreases x_end - x_first,
{
    if x_end > x_first {
        lemma_row_leads(st, ids, t, y, x_first, x_end - 1);
        lemma_step_leads(
            tally_row(st, ids, t, y, x_first, x_end - 1),
            ids,
            t,
            (x_end - 1) as i64,
            y,
        );
    }
}

proof fn lemma_rect_leads(st: Tally, ids: Seq<DrawableID>, t: TouchFn, rect: Rectangle, y_end: int)
    requires
        leads(st, ids),
    ensures
        leads(tally_rect(st, ids, t, rect, y_end), ids),
    decreases y_end - rect.y_first(),
{
    if y_end > rect.y_first() {
        lemma_rect_leads(st, ids, t, rect, y_end - 1);
        lemma_row_leads(
            tally_rect(st, ids, t, rect, y_end - 1),
            ids,
            t,
            (y_end - 1) as i64,
            rect.x_first(),
            rect.x_end(),
        );
    }
}

/// The id that a pick returns has at least as many first hits as any other id; with a
/// hit it is one of the candidates, and it is [`ID_NONE`] when no candidate was credited
/// with any pixel.
pub proof fn lemma_pick_takes_a_largest_count(ids: Seq<DrawableID>, t: TouchFn, rect: Rectangle)
    ensures
        ({
            let st = pick_tally(ids, t, rect);
            &&& forall|id: DrawableID| #[trigger] count_of(st.0, id) <= count_of(st.0, st.1)
            &&& count_of(st.0, st.1) == 0 ==> st.1 == ID_NONE
            &&& count_of(st.0, st.1) > 0 ==> ids.contains(st.1)
        }),
{
    assert(leads(tally_start(), ids));
    lemma_rect_leads(tally_start(), ids, t, rect, rect.y_end());
}

} // verus!
