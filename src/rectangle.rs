use vstd::prelude::*;

verus! {

/// A query rectangle in stage pixels, each bound already rounded down to an integer.
///
/// It covers the columns `left ..= right` and the rows `bottom - 1 ..= top - 1`, the
/// host's rectangle convention.
#[derive(Clone, Copy, Debug, PartialEq, Eq, Structural)]
pub struct Rectangle {
    pub left: i32,
    pub right: i32,
    pub bottom: i32,
    pub top: i32,
}

/// Every answer of `f` at pixel `(x, y)` is `t(x, y)`.
pub open spec fn computes_pixels<F: Fn(i64, i64) -> bool>(f: F, t: spec_fn(i64, i64) -> bool) -> bool {
    forall|x: i64, y: i64, b: bool| #[trigger] f.ensures((x, y), b) ==> b == t(x, y)
}

impl Rectangle {
    /// First column covered.
    pub open spec fn x_first(self) -> int {
        self.left as int
    }

    /// One past the last column covered.
    pub open spec fn x_end(self) -> int {
        self.right + 1
    }

    /// First row covered.
    pub open spec fn y_first(self) -> int {
        self.bottom - 1
    }

    /// One past the last row covered.
    pub open spec fn y_end(self) -> int {
        self.top as int
    }

    /// Whether pixel `(x, y)` is one that queries over this rectangle visit.
    pub open spec fn contains(self, x: int, y: int) -> bool {
        self.x_first() <= x < self.x_end() && self.y_first() <= y < self.y_end()
    }

    pub fn new(left: i32, right: i32, bottom: i32, top: i32) -> (r: Rectangle)
        ensures
            r == (Rectangle { left, right, bottom, top }),
    {
        Rectangle { left, right, bottom, top }
    }

    /// Visit the pixels row by row, from the lowest row up and from left to right in each
    /// row, and stop at the first one for which `f` answers true. True when some pixel
    /// answered true; false when every pixel answered false.
    pub fn any_pixel<F: Fn(i64, i64) -> bool>(&self, f: F) -> (r: bool)
        requires
            forall|x: i64, y: i64| f.requires((x, y)),
        ensures
            r ==> exists|x: i64, y: i64| self.contains(x as int, y as int) && f.ensures((x, y), true),
            !r ==> forall|x: i64, y: i64|
                self.contains(x as int, y as int) ==> f.ensures((x, y), false),
            forall|t: spec_fn(i64, i64) -> bool| #[trigger]
                computes_pixels(f, t) ==> (r == exists|x: i64, y: i64|
                    self.contains(x as int, y as int) && t(x, y)),
    {
        let x_first = self.left as i64;
        let x_end = self.right as i64 + 1;
        let y_end = self.top as i64;
        let mut y = self.bottom as i64 - 1;
        while y < y_end
            invariant
                x_first == self.x_first(),
                x_end == self.x_end(),
                y_end == self.y_end(),
                self.y_first() <= y,
                forall|x: i64, yy: i64|
                    self.contains(x as int, yy as int) && yy < y ==> f.ensures((x, yy), false),
                forall|x: i64, y: i64| f.requires((x, y)),
            decreases y_end - y,
        {
            let mut x = x_first;
            while x < x_end
                invariant
                    x_first == self.x_first(),
                    x_end == self.x_end(),
                    y_end == self.y_end(),
                    self.y_first() <= y < y_end,
                    x_first <= x,
                    forall|xx: i64, yy: i64|
                        self.contains(xx as int, yy as int) && (yy < y || (yy == y && xx < x))
                            ==> f.ensures((xx, yy), false),
                    forall|x: i64, y: i64| f.requires((x, y)),
                decreases x_end - x,
            {
                let hit = f(x, y);
                if hit {
                    assert(self.contains(x as int, y as int) && f.ensures((x, y), true));
                    return true;
                }
                x += 1;
            }
            y += 1;
        }
        false
    }
}

} // verus!
