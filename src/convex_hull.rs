use vstd::prelude::*;

verus! {

/// A texel of a silhouette as (column, row), rows counted from the top.
pub type Texel = (u32, u32);

/// Twice the signed area of the triangle `a`, `b`, `c`: positive when the vector from `a`
/// to `c` turns counter-clockwise from the vector from `a` to `b`.
///
/// Hull points are texel centres `((x + 0.5) / width, (y + 0.5) / height)`; that map
/// scales both axes by positive factors, so the sign taken on texel indices is the sign
/// taken on texture coordinates, and it is exact.
pub open spec fn det(a: Texel, b: Texel, c: Texel) -> int {
    (b.0 - a.0) * (c.1 - a.1) - (b.1 - a.1) * (c.0 - a.0)
}

/// `d` with the sign that makes the chain's required turn positive: as is on the left
/// chain (counter-clockwise), negated on the right chain (clockwise).
pub open spec fn oriented(left: bool, d: int) -> int {
    if left {
        d
    } else {
        -d
    }
}

/// Push `p` on a chain, first dropping last points while the last two and `p` do not make
/// the chain's turn: counter-clockwise on the left chain, clockwise on the right one.
pub open spec fn push_chain(chain: Seq<Texel>, p: Texel, left: bool) -> Seq<Texel>
    decreases chain.len(),
{
    if chain.len() >= 2 && oriented(left, det(chain.last(), chain[chain.len() - 2], p)) <= 0 {
        push_chain(chain.drop_last(), p, left)
    } else {
        chain.push(p)
    }
}

/// The first column `>= x` and `< width` of row `y` that touches.
pub open spec fn first_touching(t: spec_fn(int, int) -> bool, width: int, x: int, y: int) -> Option<
    int,
>
    decreases width - x,
{
    if x >= width {
        None
    } else if t(x, y) {
        Some(x)
    } else {
        first_touching(t, width, x + 1, y)
    }
}

/// The last column `< x_end` of row `y` that touches.
pub open spec fn last_touching(t: spec_fn(int, int) -> bool, x_end: int, y: int) -> Option<int>
    decreases x_end,
{
    if x_end <= 0 {
        None
    } else if t(x_end - 1, y) {
        Some(x_end - 1)
    } else {
        last_touching(t, x_end - 1, y)
    }
}

/// The left and right chains after the rows above `y_end`, top row first. A row with a
/// touching texel adds its leftmost one to the left chain and its rightmost one to the
/// right chain.
pub open spec fn hull_chains(t: spec_fn(int, int) -> bool, width: int, y_end: int) -> (
    Seq<Texel>,
    Seq<Texel>,
)
    decreases y_end,
{
    if y_end <= 0 {
        (Seq::empty(), Seq::empty())
    } else {
        let prev = hull_chains(t, width, y_end - 1);
        let y = y_end - 1;
        match first_touching(t, width, 0, y) {
            None => prev,
            Some(xl) => {
                let xr = match last_touching(t, width, y) {
                    Some(xr) => xr,
                    None => xl,
                };
                (
                    push_chain(prev.0, (xl as u32, y as u32), true),
                    push_chain(prev.1, (xr as u32, y as u32), false),
                )
            },
        }
    }
}

/// The outline: the left chain top to bottom, then the right chain bottom to top.
pub open spec fn hull(t: spec_fn(int, int) -> bool, width: int, height: int) -> Seq<Texel> {
    let c = hull_chains(t, width, height);
    c.0 + c.1.reverse()
}

/// Every answer of `f` on texel `(x, y)` is `t(x, y)`.
pub open spec fn computes_texels<F: Fn(u32, u32) -> bool>(f: F, t: spec_fn(int, int) -> bool) -> bool {
    forall|x: u32, y: u32, b: bool| #[trigger] f.ensures((x, y), b) ==> b == t(x as int, y as int)
}

fn det_exec(a: Texel, b: Texel, c: Texel) -> (r: i128)
    ensures
        r == det(a, b, c),
{
    let bx = b.0 as i128 - a.0 as i128;
    let by = b.1 as i128 - a.1 as i128;
    let cx = c.0 as i128 - a.0 as i128;
    let cy = c.1 as i128 - a.1 as i128;
    assert(-0x1_0000_0000_0000_0000 <= bx * cy <= 0x1_0000_0000_0000_0000 && -0x1_0000_0000_0000_0000
        <= by * cx <= 0x1_0000_0000_0000_0000) by (nonlinear_arith)
        requires
            -0x1_0000_0000 <= bx <= 0x1_0000_0000,
            -0x1_0000_0000 <= by <= 0x1_0000_0000,
            -0x1_0000_0000 <= cx <= 0x1_0000_0000,
            -0x1_0000_0000 <= cy <= 0x1_0000_0000,
    ;
    bx * cy - by * cx
}

fn push_chain_exec(chain: &mut Vec<Texel>, p: Texel, left: bool)
    ensures
        final(chain)@ == push_chain(old(chain)@, p, left),
{
    let mut turns = false;
    while chain.len() >= 2 && !turns
        invariant
            push_chain(chain@, p, left) == push_chain(old(chain)@, p, left),
            turns ==> chain@.len() >= 2 && oriented(left, det(chain@.last(), chain@[chain@.len() - 2], p))
                > 0,
        decreases chain.len() + (if turns {
            0int
        } else {
            1
        }),
    {
        let len = chain.len();
        let d = det_exec(chain[len - 1], chain[len - 2], p);
        if (left && d > 0) || (!left && d < 0) {
            turns = true;
        } else {
            chain.pop();
        }
    }
    chain.push(p);
}

/// The convex outline of the texels of a `width` by `height` silhouette for which
/// `touching(x, y)` holds, as texel indices.
///
/// Row by row from the top, the leftmost touching texel of the row goes on a left chain
/// kept turning counter-clockwise, and the rightmost on a right chain kept turning
/// clockwise; rows with no touching texel are skipped. The result is the left chain
/// followed by the right chain reversed, a closed clockwise outline, and is empty when no
/// texel touches.
pub fn calculate_drawable_convex_hull<F: Fn(u32, u32) -> bool>(
    width: u32,
    height: u32,
    touching: F,
) -> (r: Vec<Texel>)
    requires
        forall|x: u32, y: u32| touching.requires((x, y)),
    ensures
        forall|t: spec_fn(int, int) -> bool| #[trigger]
            computes_texels(touching, t) ==> r@ == hull(t, width as int, height as int),
{
    let mut left_hull: Vec<Texel> = Vec::new();
    let mut right_hull: Vec<Texel> = Vec::new();
    let mut y: u32 = 0;
    while y < height
        invariant
            forall|x: u32, y: u32| touching.requires((x, y)),
            y <= height,
            forall|t: spec_fn(int, int) -> bool| #[trigger]
                computes_texels(touching, t) ==> (left_hull@, right_hull@) == hull_chains(
                    t,
                    width as int,
                    y as int,
                ),
        decreases height - y,
    {
        // Leftmost touching texel of the row.
        let mut x: u32 = 0;
        let mut found = false;
        while x < width && !found
            invariant
                forall|x: u32, y: u32| touching.requires((x, y)),
                x <= width,
                found ==> x < width,
                forall|t: spec_fn(int, int) -> bool| #[trigger]
                    computes_texels(touching, t) ==> (found ==> t(x as int, y as int) && first_touching(
                        t,
                        width as int,
                        0,
                        y as int,
                    ) == Some(x as int)) && (!found ==> first_touching(t, width as int, 0, y as int)
                        == first_touching(t, width as int, x as int, y as int)),
            decreases width - x + (if found {
                0int
            } else {
                1
            }),
        {
            let hit = touching(x, y);
            if hit {
                found = true;
            } else {
                x += 1;
            }
        }
        if found {
            let xl = x;
            // Rightmost touching texel of the row; `xl` itself touches.
            let mut xr = width - 1;
            let mut found_right = false;
            while xr > xl && !found_right
                invariant
                    forall|x: u32, y: u32| touching.requires((x, y)),
                    xl <= xr < width,
                    forall|t: spec_fn(int, int) -> bool| #[trigger]
                        computes_texels(touching, t) ==> t(xl as int, y as int) && (found_right
                            ==> last_touching(t, width as int, y as int) == Some(xr as int)) && (
                        !found_right ==> last_touching(t, width as int, y as int) == last_touching(
                            t,
                            xr + 1,
                            y as int,
                        )),
                decreases xr + (if found_right {
                    0int
                } else {
                    1
                }),
            {
                let hit = touching(xr, y);
                if hit {
                    found_right = true;
                } else {
                    xr -= 1;
                }
            }
            push_chain_exec(&mut left_hull, (xl, y), true);
            push_chain_exec(&mut right_hull, (xr, y), false);
        } else {
            assert forall|t: spec_fn(int, int) -> bool| #[trigger]
                computes_texels(touching, t) implies first_touching(t, width as int, 0, y as int) is None by {
                assert(first_touching(t, width as int, x as int, y as int) is None);
            }
        }
        y += 1;
    }
    // Append the right chain bottom to top.
    let ghost left = left_hull@;
    let ghost right = right_hull@;
    let mut i = right_hull.len();
    while i > 0
        invariant
            i <= right.len(),
            right_hull@ == right,
            left_hull@ == left + right.reverse().subrange(0, right.len() - i),
        decreases i,
    {
        i -= 1;
        left_hull.push(right_hull[i]);
        assert(right.reverse().subrange(0, right.len() - i) =~= right.reverse().subrange(
            0,
            right.len() - i - 1,
        ).push(right[i as int]));
    }
    assert(right.reverse().subrange(0, right.len() as int) =~= right.reverse());
    left_hull
}

/// Each three consecutive points of `s` make the chain's turn: counter-clockwise on the
/// left chain, clockwise on the right one.
pub open spec fn turns(s: Seq<Texel>, left: bool) -> bool {
    forall|i: int|
        0 <= i && i + 2 < s.len() ==> #[trigger] oriented(left, det(s[i + 1], s[i], s[i + 2])) > 0
}

/// The points of `s` lie on strictly increasing rows, all above row `y_end`.
pub open spec fn rows_increase(s: Seq<Texel>, y_end: int) -> bool {
    &&& forall|i: int, j: int| #![trigger s[i], s[j]] 0 <= i < j < s.len() ==> s[i].1 < s[j].1
    &&& forall|i: int| 0 <= i < s.len() ==> #[trigger] s[i].1 < y_end
}

/// Every point of `s` is a touching texel of the `width` by `height` grid.
pub open spec fn all_touch(t: spec_fn(int, int) -> bool, s: Seq<Texel>, width: int) -> bool {
    forall|i: int| 0 <= i < s.len() ==> #[trigger] s[i].0 < width && t(s[i].0 as int, s[i].1 as int)
}

/// Whether row `y` has a touching texel.
pub open spec fn row_touches(t: spec_fn(int, int) -> bool, width: int, y: int) -> bool {
    exists|x: int| 0 <= x < width && #[trigger] t(x, y)
}

/// Whether `q` lies on the inner side of a chain: on or inside the edge that spans its
/// row (right of the left chain, left of the right chain), or on the row of the chain's
/// last point and on its inner side.
pub open spec fn inside_chain(chain: Seq<Texel>, q: Texel, left: bool) -> bool {
    ||| exists|i: int|
        0 <= i && i + 1 < chain.len() && chain[i].1 <= q.1 <= chain[i + 1].1 && oriented(
            left,
            #[trigger] det(chain[i], chain[i + 1], q),
        ) <= 0
    ||| chain.len() >= 1 && q.1 == chain.last().1 && oriented(left, q.0 - chain.last().0) >= 0
}

/// `q`, between the rows of `m` and `p`, is on the inner side of the edge from `m` to `p`.
pub open spec fn pending(m: Texel, p: Texel, q: Texel, left: bool) -> bool {
    m.1 <= q.1 <= p.1 && oriented(left, det(m, p, q)) <= 0
}

proof fn lemma_det_cyclic(a: Texel, b: Texel, c: Texel)
    ensures
        det(a, b, c) == det(b, c, a),
{
    let (ax, ay, bx, by, cx, cy) = (a.0 as int, a.1 as int, b.0 as int, b.1 as int, c.0 as int, c.1 as int);
    assert((bx - ax) * (cy - ay) - (by - ay) * (cx - ax) == (cx - bx) * (ay - by) - (cy - by) * (ax - bx))
        by (nonlinear_arith);
}

/// A point inside the edge from `prev` to `m` stays inside once `m`, itself inside the
/// edge from `prev` to `p`, is dropped for `p`.
proof fn lemma_inside_first_edge(prev: Texel, m: Texel, p: Texel, q: Texel, left: bool)
    requires
        prev.1 < m.1 < p.1,
        prev.1 <= q.1 <= m.1,
        oriented(left, det(prev, m, q)) <= 0,
        oriented(left, det(prev, p, m)) <= 0,
    ensures
        oriented(left, det(prev, p, q)) <= 0,
{
    let (mx, my) = (m.0 - prev.0, m.1 - prev.1);
    let (px, py) = (p.0 - prev.0, p.1 - prev.1);
    let (qx, qy) = (q.0 - prev.0, q.1 - prev.1);
    if left {
        assert(py * qx - px * qy >= 0) by (nonlinear_arith)
            requires
                0 < my < py,
                0 <= qy,
                mx * qy - my * qx <= 0,
                px * my - py * mx <= 0,
        {
            assert(my * (py * qx) >= py * (mx * qy));
            assert(py * mx * qy >= px * my * qy);
        }
    } else {
        assert(py * qx - px * qy <= 0) by (nonlinear_arith)
            requires
                0 < my < py,
                0 <= qy,
                mx * qy - my * qx >= 0,
                px * my - py * mx >= 0,
        {
            assert(my * (py * qx) <= py * (mx * qy));
            assert(py * mx * qy <= px * my * qy);
        }
    }
}

/// A point inside the edge from `m` to `p` is inside the edge from `prev` to `p` when `m`
/// is.
proof fn lemma_inside_last_edge(prev: Texel, m: Texel, p: Texel, q: Texel, left: bool)
    requires
        prev.1 < m.1 < p.1,
        m.1 <= q.1 <= p.1,
        oriented(left, det(m, p, q)) <= 0,
        oriented(left, det(prev, p, m)) <= 0,
    ensures
        oriented(left, det(prev, p, q)) <= 0,
{
    lemma_det_cyclic(m, p, q);
    lemma_det_cyclic(prev, p, m);
    lemma_det_cyclic(prev, p, q);
    lemma_det_cyclic(p, m, prev);
    lemma_det_cyclic(p, q, prev);
    let (a, b) = (m.0 - p.0, m.1 - p.1);
    let (c, d) = (q.0 - p.0, q.1 - p.1);
    let (e, f) = (prev.0 - p.0, prev.1 - p.1);
    assert(det(p, q, m) == c * b - d * a);
    assert(det(p, m, prev) == a * f - b * e);
    assert(det(p, q, prev) == c * f - d * e);
    if left {
        assert(c * f - d * e <= 0) by (nonlinear_arith)
            requires
                f < b < 0,
                b <= d <= 0,
                c * b - d * a <= 0,
                a * f - b * e <= 0,
        {
            assert((c * b) * f >= (d * a) * f);
            assert((a * f) * d >= (b * e) * d);
        }
    } else {
        assert(c * f - d * e >= 0) by (nonlinear_arith)
            requires
                f < b < 0,
                b <= d <= 0,
                c * b - d * a >= 0,
                a * f - b * e >= 0,
        {
            assert((c * b) * f <= (d * a) * f);
            assert((a * f) * d <= (b * e) * d);
        }
    }
}

/// On a row, a point on the inner side of another is inside any edge that ends there.
proof fn lemma_inside_on_row(a: Texel, b: Texel, q: Texel, left: bool)
    requires
        a.1 <= b.1,
        q.1 == b.1,
        oriented(left, q.0 - b.0) >= 0,
    ensures
        oriented(left, det(a, b, q)) <= 0,
{
    assert(det(a, b, q) == (b.1 - a.1) * (b.0 - q.0)) by (nonlinear_arith)
        requires
            q.1 == b.1,
    ;
    if left {
        assert((b.1 - a.1) * (b.0 - q.0) <= 0) by (nonlinear_arith)
            requires
                a.1 <= b.1,
                q.0 >= b.0,
        ;
    } else {
        assert((b.1 - a.1) * (b.0 - q.0) >= 0) by (nonlinear_arith)
            requires
                a.1 <= b.1,
                q.0 <= b.0,
        ;
    }
}

/// A point on the same row as `m`, on its inner side, is inside the edge from `prev` to
/// `p` when `m` is.
proof fn lemma_inside_on_last_row(prev: Texel, m: Texel, p: Texel, q: Texel, left: bool)
    requires
        prev.1 < m.1 < p.1,
        q.1 == m.1,
        oriented(left, q.0 - m.0) >= 0,
        oriented(left, det(prev, p, m)) <= 0,
    ensures
        oriented(left, det(prev, p, q)) <= 0,
{
    lemma_inside_on_row(prev, m, q, left);
    lemma_inside_first_edge(prev, m, p, q, left);
}

/// On a row, a point on the inner side of another is inside any edge that starts there.
proof fn lemma_inside_at_start(a: Texel, b: Texel, q: Texel, left: bool)
    requires
        a.1 <= b.1,
        q.1 == a.1,
        oriented(left, q.0 - a.0) >= 0,
    ensures
        oriented(left, det(a, b, q)) <= 0,
{
    assert(det(a, b, q) == -((b.1 - a.1) * (q.0 - a.0))) by (nonlinear_arith)
        requires
            q.1 == a.1,
    ;
    if left {
        assert((b.1 - a.1) * (q.0 - a.0) >= 0) by (nonlinear_arith)
            requires
                a.1 <= b.1,
                q.0 >= a.0,
        ;
    } else {
        assert((b.1 - a.1) * (q.0 - a.0) <= 0) by (nonlinear_arith)
            requires
                a.1 <= b.1,
                q.0 <= a.0,
        ;
    }
}

/// Pushing `p`, on a row below the chain, keeps every point inside that was inside the
/// chain, inside the edge from its last point to `p`, or on `p`'s row on its inner side.
proof fn lemma_push_keeps_inside(chain: Seq<Texel>, p: Texel, q: Texel, left: bool)
    requires
        rows_increase(chain, p.1 as int),
        inside_chain(chain, q, left) || (chain.len() >= 1 && pending(chain.last(), p, q, left)) || (q.1
            == p.1 && oriented(left, q.0 - p.0) >= 0),
    ensures
        inside_chain(push_chain(chain, p, left), q, left),
    decreases chain.len(),
{
    let n = chain.len() as int;
    if n >= 1 && !inside_chain(chain, q, left) && !pending(chain.last(), p, q, left) {
        assert(chain[n - 1].1 < p.1);
        lemma_inside_on_row(chain.last(), p, q, left);
        assert(pending(chain.last(), p, q, left));
    }
    if n >= 2 && oriented(left, det(chain.last(), chain[n - 2], p)) <= 0 {
        let m = chain.last();
        let prev = chain[n - 2];
        let d = chain.drop_last();
        lemma_det_cyclic(m, prev, p);
        assert(prev.1 < m.1 < p.1);
        if inside_chain(chain, q, left) {
            if exists|i: int|
                0 <= i && i + 1 < chain.len() && chain[i].1 <= q.1 <= chain[i + 1].1 && oriented(
                    left,
                    #[trigger] det(chain[i], chain[i + 1], q),
                ) <= 0 {
                let i = choose|i: int|
                    0 <= i && i + 1 < chain.len() && chain[i].1 <= q.1 <= chain[i + 1].1 && oriented(
                        left,
                        #[trigger] det(chain[i], chain[i + 1], q),
                    ) <= 0;
                if i + 1 < n - 1 {
                    assert(d[i] == chain[i] && d[i + 1] == chain[i + 1]);
                    assert(inside_chain(d, q, left));
                } else {
                    lemma_inside_first_edge(prev, m, p, q, left);
                    assert(pending(d.last(), p, q, left));
                }
            } else {
                lemma_inside_on_last_row(prev, m, p, q, left);
                assert(pending(d.last(), p, q, left));
            }
        } else {
            lemma_inside_last_edge(prev, m, p, q, left);
            assert(pending(d.last(), p, q, left));
        }
        assert(forall|i: int| 0 <= i < d.len() ==> d[i] == chain[i]);
        lemma_push_keeps_inside(d, p, q, left);
    } else {
        let r = chain.push(p);
        assert(push_chain(chain, p, left) == r);
        if n == 0 {
            assert(q.1 == p.1 && oriented(left, q.0 - p.0) >= 0);
            assert(r.last() == p);
            assert(inside_chain(r, q, left));
        } else if inside_chain(chain, q, left) {
            if exists|i: int|
                0 <= i && i + 1 < chain.len() && chain[i].1 <= q.1 <= chain[i + 1].1 && oriented(
                    left,
                    #[trigger] det(chain[i], chain[i + 1], q),
                ) <= 0 {
                let i = choose|i: int|
                    0 <= i && i + 1 < chain.len() && chain[i].1 <= q.1 <= chain[i + 1].1 && oriented(
                        left,
                        #[trigger] det(chain[i], chain[i + 1], q),
                    ) <= 0;
                assert(r[i] == chain[i] && r[i + 1] == chain[i + 1]);
                assert(oriented(left, det(r[i], r[i + 1], q)) <= 0);
                assert(inside_chain(r, q, left));
            } else {
                let m = chain.last();
                assert(m.1 < p.1);
                lemma_inside_at_start(m, p, q, left);
                assert(r[n - 1] == m && r[n] == p);
                let i = n - 1;
                assert(oriented(left, det(r[i], r[i + 1], q)) <= 0);
                assert(r[i].1 <= q.1 <= r[i + 1].1);
                assert(inside_chain(r, q, left));
            }
        } else {
            let m = chain.last();
            assert(r[n - 1] == m && r[n] == p);
            assert(pending(m, p, q, left));
            let i = n - 1;
            assert(oriented(left, det(r[i], r[i + 1], q)) <= 0);
            assert(r[i].1 <= q.1 <= r[i + 1].1);
            assert(inside_chain(r, q, left));
        }
    }
}

proof fn lemma_first_touching(t: spec_fn(int, int) -> bool, width: int, x: int, y: int)
    requires
        0 <= x,
    ensures
        first_touching(t, width, x, y) is None <==> forall|xx: int| x <= xx < width ==> !#[trigger] t(xx, y),
        first_touching(t, width, x, y) matches Some(xl) ==> x <= xl < width && t(xl, y) && forall|
            xx: int,
        | x <= xx < xl ==> !#[trigger] t(xx, y),
    decreases width - x,
{
    if x < width && !t(x, y) {
        lemma_first_touching(t, width, x + 1, y);
        if let Some(xl) = first_touching(t, width, x, y) {
            assert forall|xx: int| x <= xx < xl implies !#[trigger] t(xx, y) by {
                if xx > x {
                }
            }
        }
        if first_touching(t, width, x, y) is None {
            assert forall|xx: int| x <= xx < width implies !#[trigger] t(xx, y) by {
                if xx > x {
                }
            }
        }
    }
}

proof fn lemma_last_touching(t: spec_fn(int, int) -> bool, x_end: int, y: int)
    ensures
        last_touching(t, x_end, y) matches Some(xr) ==> 0 <= xr < x_end && t(xr, y) && forall|
            xx: int,
        | xr < xx < x_end ==> !#[trigger] t(xx, y),
        last_touching(t, x_end, y) is None ==> forall|xx: int| 0 <= xx < x_end ==> !#[trigger] t(xx, y),
    decreases x_end,
{
    if x_end > 0 && !t(x_end - 1, y) {
        lemma_last_touching(t, x_end - 1, y);
        assert forall|xx: int| 0 <= xx < x_end && last_touching(t, x_end, y) is None implies !#[trigger] t(
            xx,
            y,
        ) by {
            if xx < x_end - 1 {
            }
        }
        if let Some(xr) = last_touching(t, x_end, y) {
            assert forall|xx: int| xr < xx < x_end implies !#[trigger] t(xx, y) by {
                if xx < x_end - 1 {
                }
            }
        }
    }
}

proof fn lemma_push_chain(chain: Seq<Texel>, p: Texel, left: bool)
    ensures
        exists|k: int|
            0 <= k <= chain.len() && push_chain(chain, p, left) == #[trigger] chain.subrange(0, k).push(p),
        turns(chain, left) ==> turns(push_chain(chain, p, left), left),
    decreases chain.len(),
{
    if chain.len() >= 2 && oriented(left, det(chain.last(), chain[chain.len() - 2], p)) <= 0 {
        lemma_push_chain(chain.drop_last(), p, left);
        let k = choose|k: int|
            0 <= k <= chain.drop_last().len() && push_chain(chain.drop_last(), p, left)
                == #[trigger] chain.drop_last().subrange(0, k).push(p);
        assert(chain.drop_last().subrange(0, k) =~= chain.subrange(0, k));
        if turns(chain, left) {
            assert(turns(chain.drop_last(), left));
        }
    } else {
        assert(chain.subrange(0, chain.len() as int) =~= chain);
        if turns(chain, left) {
            let r = chain.push(p);
            assert forall|i: int| 0 <= i && i + 2 < r.len() implies #[trigger] oriented(
                left,
                det(r[i + 1], r[i], r[i + 2]),
            ) > 0 by {
                if i + 2 < chain.len() {
                    assert(r[i] == chain[i] && r[i + 1] == chain[i + 1] && r[i + 2] == chain[i + 2]);
                } else {
                    assert(r[i + 1] == chain.last() && r[i] == chain[chain.len() - 2]);
                }
            }
        }
    }
}

/// A chain keeps its row order, its bound and its touching points when a touching point
/// on a lower row is pushed after some of its last points were dropped.
proof fn lemma_prefix_push(
    t: spec_fn(int, int) -> bool,
    chain: Seq<Texel>,
    k: int,
    p: Texel,
    width: int,
    y: int,
)
    requires
        0 <= k <= chain.len(),
        rows_increase(chain, y),
        all_touch(t, chain, width),
        p.1 == y,
        p.0 < width,
        t(p.0 as int, p.1 as int),
    ensures
        rows_increase(chain.subrange(0, k).push(p), y + 1),
        all_touch(t, chain.subrange(0, k).push(p), width),
{
    let r = chain.subrange(0, k).push(p);
    assert forall|i: int| 0 <= i < r.len() implies r[i] == (if i < k {
        chain[i]
    } else {
        p
    }) by {}
    assert forall|i: int, j: int| #![trigger r[i], r[j]] 0 <= i < j < r.len() implies r[i].1 < r[j].1 by {
        if j < k {
            assert(chain[i].1 < chain[j].1);
        } else {
            assert(chain[i].1 < y);
        }
    }
    assert forall|i: int| 0 <= i < r.len() implies #[trigger] r[i].0 < width && t(r[i].0 as int, r[i].1 as int) by {
        if i < k {
            assert(chain[i].0 < width && t(chain[i].0 as int, chain[i].1 as int));
        }
    }
}

proof fn lemma_chains(t: spec_fn(int, int) -> bool, width: int, y_end: int)
    requires
        0 <= width <= u32::MAX,
        y_end <= u32::MAX,
    ensures
        ({
            let c = hull_chains(t, width, y_end);
            &&& turns(c.0, true)
            &&& turns(c.1, false)
            &&& rows_increase(c.0, y_end)
            &&& rows_increase(c.1, y_end)
            &&& all_touch(t, c.0, width)
            &&& all_touch(t, c.1, width)
            &&& (c.0.len() == 0 <==> c.1.len() == 0)
            &&& c.0.len() <= if y_end < 0 { 0 } else { y_end }
            &&& c.1.len() <= if y_end < 0 { 0 } else { y_end }
            &&& (c.0.len() == 0 <==> forall|y: int| 0 <= y < y_end ==> !#[trigger] row_touches(t, width, y))
        }),
    decreases y_end,
{
    if y_end > 0 {
        let y = y_end - 1;
        lemma_chains(t, width, y);
        let prev = hull_chains(t, width, y);
        lemma_first_touching(t, width, 0, y);
        lemma_last_touching(t, width, y);
        match first_touching(t, width, 0, y) {
            None => {
                assert(!row_touches(t, width, y));
                assert forall|yy: int| 0 <= yy < y_end implies !#[trigger] row_touches(t, width, yy) <==> (
                    yy == y || !row_touches(t, width, yy)) by {}
                assert(rows_increase(prev.0, y_end));
                assert(rows_increase(prev.1, y_end));
            },
            Some(xl) => {
                let xr = match last_touching(t, width, y) {
                    Some(xr) => xr,
                    None => xl,
                };
                let pl: Texel = (xl as u32, y as u32);
                let pr: Texel = (xr as u32, y as u32);
                lemma_push_chain(prev.0, pl, true);
                lemma_push_chain(prev.1, pr, false);
                let kl = choose|k: int|
                    0 <= k <= prev.0.len() && push_chain(prev.0, pl, true) == #[trigger] prev.0.subrange(
                        0,
                        k,
                    ).push(pl);
                let kr = choose|k: int|
                    0 <= k <= prev.1.len() && push_chain(prev.1, pr, false) == #[trigger] prev.1.subrange(
                        0,
                        k,
                    ).push(pr);
                lemma_prefix_push(t, prev.0, kl, pl, width, y);
                lemma_prefix_push(t, prev.1, kr, pr, width, y);
                assert(row_touches(t, width, y));
            },
        }
    }
}

/// Every touching texel of the rows above `y_end` is inside both chains.
proof fn lemma_chains_contain(t: spec_fn(int, int) -> bool, width: int, y_end: int)
    requires
        0 <= width <= u32::MAX,
        y_end <= u32::MAX,
    ensures
        forall|x: int, y: int|
            0 <= x < width && 0 <= y < y_end && #[trigger] t(x, y) ==> inside_chain(
                hull_chains(t, width, y_end).0,
                (x as u32, y as u32),
                true,
            ) && inside_chain(hull_chains(t, width, y_end).1, (x as u32, y as u32), false),
    decreases y_end,
{
    if y_end > 0 {
        let y = y_end - 1;
        lemma_chains_contain(t, width, y);
        lemma_chains(t, width, y);
        let prev = hull_chains(t, width, y);
        lemma_first_touching(t, width, 0, y);
        lemma_last_touching(t, width, y);
        if let Some(xl) = first_touching(t, width, 0, y) {
            let xr = match last_touching(t, width, y) {
                Some(xr) => xr,
                None => xl,
            };
            assert(last_touching(t, width, y) is Some);
            let pl: Texel = (xl as u32, y as u32);
            let pr: Texel = (xr as u32, y as u32);
            assert forall|x: int, yy: int|
                0 <= x < width && 0 <= yy < y_end && #[trigger] t(x, yy) implies inside_chain(
                push_chain(prev.0, pl, true),
                (x as u32, yy as u32),
                true,
            ) && inside_chain(push_chain(prev.1, pr, false), (x as u32, yy as u32), false) by {
                let q: Texel = (x as u32, yy as u32);
                if yy == y {
                    assert(xl <= x <= xr);
                }
                lemma_push_keeps_inside(prev.0, pl, q, true);
                lemma_push_keeps_inside(prev.1, pr, q, false);
            }
        }
    }
}

/// The outline of a `width` by `height` grid: its left chain turns counter-clockwise at
/// every point and its right chain clockwise, each on strictly increasing rows; every
/// point is a touching texel of the grid; every touching texel lies inside the outline
/// (on the inner side of both chains); it has at most two points per row; and it is empty
/// exactly when no texel touches.
pub proof fn lemma_hull_outline(t: spec_fn(int, int) -> bool, width: int, height: int)
    requires
        0 <= width <= u32::MAX,
        0 <= height <= u32::MAX,
    ensures
        turns(hull_chains(t, width, height).0, true),
        turns(hull_chains(t, width, height).1, false),
        rows_increase(hull_chains(t, width, height).0, height),
        rows_increase(hull_chains(t, width, height).1, height),
        forall|i: int|
            0 <= i < hull(t, width, height).len() ==> (#[trigger] hull(t, width, height)[i]).0 < width
                && hull(t, width, height)[i].1 < height && t(
                hull(t, width, height)[i].0 as int,
                hull(t, width, height)[i].1 as int,
            ),
        forall|x: int, y: int|
            0 <= x < width && 0 <= y < height && #[trigger] t(x, y) ==> inside_chain(
                hull_chains(t, width, height).0,
                (x as u32, y as u32),
                true,
            ) && inside_chain(hull_chains(t, width, height).1, (x as u32, y as u32), false),
        hull(t, width, height).len() <= 2 * height,
        hull(t, width, height).len() == 0 <==> forall|x: int, y: int|
            0 <= x < width && 0 <= y < height ==> !#[trigger] t(x, y),
{
    lemma_chains(t, width, height);
    lemma_chains_contain(t, width, height);
    let c = hull_chains(t, width, height);
    let h = hull(t, width, height);
    assert forall|i: int| 0 <= i < h.len() implies (#[trigger] h[i]).0 < width && h[i].1 < height && t(
        h[i].0 as int,
        h[i].1 as int,
    ) by {
        if i < c.0.len() {
            assert(h[i] == c.0[i]);
        } else {
            let j = c.1.len() - 1 - (i - c.0.len());
            assert(h[i] == c.1[j]);
        }
    }
    if h.len() == 0 {
        assert(c.0.len() == 0);
        assert forall|x: int, y: int| 0 <= x < width && 0 <= y < height implies !#[trigger] t(x, y) by {
            assert(!row_touches(t, width, y));
        }
    } else {
        if forall|x: int, y: int| 0 <= x < width && 0 <= y < height ==> !#[trigger] t(x, y) {
            assert forall|y: int| 0 <= y < height implies !#[trigger] row_touches(t, width, y) by {}
            assert(c.0.len() == 0);
        }
    }
}

} // verus!
