use vstd::prelude::*;

use crate::F32Bits;

verus! {

/// Identity of a silhouette: the id of the skin that it was made from.
pub type SilhouetteID = i32;

/// Why a silhouette rejected new pixel data.
#[derive(Clone, Copy, Debug, PartialEq, Eq, Structural)]
pub enum SilhouetteError {
    /// The buffer does not hold exactly `width * height * 4` bytes.
    BadSize,
}

/// The CPU-side alpha mask and colours of one skin: `width * height` RGBA8 pixels, row
/// by row from the top, stored with premultiplied alpha.
pub struct Silhouette {
    pub id: SilhouetteID,
    pub width: u32,
    pub height: u32,
    /// Logical size of the skin (width, height), which the pixelate effect scales by.
    pub nominal_size: [F32Bits; 2],
    pub data: Vec<u8>,
}

/// Byte `i` of `d` after premultiplying each RGBA pixel by its alpha: each colour byte
/// becomes `c * alpha / 255`, rounded down (so 0 where alpha is 0), and the alpha byte
/// stays.
pub open spec fn premultiplied_byte(d: Seq<u8>, i: int) -> u8 {
    let alpha = d[i - i % 4 + 3];
    if i % 4 == 3 {
        d[i]
    } else {
        (d[i] as int * alpha as int / 255) as u8
    }
}

/// The buffer `d` with every pixel premultiplied by its alpha.
pub open spec fn premultiplied_pixels(d: Seq<u8>) -> Seq<u8> {
    Seq::new(d.len(), |i: int| premultiplied_byte(d, i))
}

/// The fully transparent colour returned for texels outside the silhouette.
pub open spec fn blank() -> Seq<u8> {
    seq![0u8, 0u8, 0u8, 0u8]
}

impl Silhouette {
    /// The stored bytes, premultiplied.
    pub open spec fn pixels(&self) -> Seq<u8> {
        self.data@
    }

    /// The buffer holds four bytes for each pixel.
    pub open spec fn wf(&self) -> bool {
        self.pixels().len() == self.width as int * self.height as int * 4
    }

    /// Whether texel `(x, y)` lies inside the `width` by `height` grid.
    pub open spec fn in_bounds(&self, x: int, y: int) -> bool {
        0 <= x < self.width && 0 <= y < self.height
    }

    /// Index of the first byte of texel `(x, y)`.
    pub open spec fn offset(&self, x: int, y: int) -> int {
        (y * self.width + x) * 4
    }

    /// Whether texel `(x, y)` is inside the grid and has a non-zero alpha.
    pub open spec fn spec_point(&self, x: int, y: int) -> bool {
        self.in_bounds(x, y) && self.pixels()[self.offset(x, y) + 3] != 0
    }

    /// The stored colour of texel `(x, y)`, or blank outside the grid.
    pub open spec fn spec_color(&self, x: int, y: int) -> Seq<u8> {
        if self.in_bounds(x, y) {
            self.pixels().subrange(self.offset(x, y), self.offset(x, y) + 4)
        } else {
            blank()
        }
    }

    /// An empty 0 by 0 silhouette.
    pub fn new(id: SilhouetteID) -> (r: Silhouette)
        ensures
            r.wf(),
            r.id == id,
            r.width == 0,
            r.height == 0,
            r.nominal_size@ == seq![0u32, 0u32],
            r.pixels() == Seq::<u8>::empty(),
    {
        let data: Vec<u8> = Vec::new();
        let r = Silhouette { id, width: 0, height: 0, nominal_size: [0, 0], data };
        assert(r.nominal_size@ =~= seq![0u32, 0u32]);
        assert(r.pixels().len() == 0);
        assert(r.width == 0 && r.height == 0);
        assert(0int * 0int * 4 == 0);
        r
    }

    /// Replace the pixels with `w` by `h` RGBA8 pixels from `data`. Data that is not yet
    /// premultiplied is premultiplied on the way in. A buffer of the wrong size is
    /// rejected and the silhouette stays as it was.
    pub fn set_data(
        &mut self,
        w: u32,
        h: u32,
        data: Vec<u8>,
        nominal_size: [F32Bits; 2],
        premultiplied: bool,
    ) -> (r: Result<(), SilhouetteError>)
        requires
            old(self).wf(),
        ensures
            final(self).wf(),
            r is Err <==> data@.len() != w as int * h as int * 4,
            r is Err ==> r == Err::<(), SilhouetteError>(SilhouetteError::BadSize) && *final(self)
                == *old(self),
            r is Ok ==> final(self).id == old(self).id && final(self).width == w && final(self).height
                == h && final(self).nominal_size == nominal_size && final(self).pixels() == (if premultiplied {
                data@
            } else {
                premultiplied_pixels(data@)
            }),
    {
        if !size_matches(w, h, data.len()) {
            return Err(SilhouetteError::BadSize);
        }
        let mut data = data;
        if !premultiplied {
            premultiply(&mut data);
        }
        self.width = w;
        self.height = h;
        self.nominal_size = nominal_size;
        self.data = data;
        Ok(())
    }

    /// Byte offset of an in-bounds texel, with the proof that its four bytes are stored.
    fn texel_offset(&self, x: i64, y: i64) -> (r: usize)
        requires
            self.wf(),
            self.in_bounds(x as int, y as int),
        ensures
            r == self.offset(x as int, y as int),
            r + 4 <= self.pixels().len(),
    {
        let n = self.data.len();
        let w = self.width as usize;
        assert((y * w + x) * 4 + 4 <= w * self.height * 4 && 0 <= y * w <= y * w + x)
            by (nonlinear_arith)
            requires
                0 <= x < w,
                0 <= y < self.height,
        ;
        assert(n == w * self.height * 4);
        let row = (y as usize) * w;
        (row + x as usize) * 4
    }

    /// Whether texel `(x, y)` is inside the grid and not fully transparent.
    fn get_point(&self, x: i64, y: i64) -> (r: bool)
        requires
            self.wf(),
        ensures
            r == self.spec_point(x as int, y as int),
    {
        if x < 0 || y < 0 || x >= self.width as i64 || y >= self.height as i64 {
            false
        } else {
            let idx = self.texel_offset(x, y);
            self.data[idx + 3] != 0
        }
    }

    /// The stored colour of texel `(x, y)`; blank outside the grid.
    fn get_color(&self, x: i64, y: i64) -> (r: [u8; 4])
        requires
            self.wf(),
        ensures
            r@ == self.spec_color(x as int, y as int),
    {
        if x < 0 || y < 0 || x >= self.width as i64 || y >= self.height as i64 {
            let r: [u8; 4] = [0, 0, 0, 0];
            assert(r@ =~= blank());
            r
        } else {
            let idx = self.texel_offset(x, y);
            let r: [u8; 4] = [self.data[idx], self.data[idx + 1], self.data[idx + 2], self.data[idx + 3]];
            assert(r@ =~= self.pixels().subrange(idx as int, idx + 4));
            r
        }
    }

    /// Nearest-neighbour hit test. `(x, y)` is the texel under a texture coordinate
    /// `(u, v)`: `(floor(u * width), floor(v * height))`. True exactly when that texel is
    /// inside the grid and not fully transparent.
    pub fn is_touching_nearest(&self, x: i32, y: i32) -> (r: bool)
        requires
            self.wf(),
        ensures
            r == self.spec_point(x as int, y as int),
            r == (self.in_bounds(x as int, y as int) && self.pixels()[self.offset(x as int, y as int)
                + 3] != 0),
    {
        self.get_point(x as i64, y as i64)
    }

    /// Nearest-neighbour colour sample at texel `(x, y)`, chosen as for
    /// [`Self::is_touching_nearest`]: the stored premultiplied colour, or transparent black
    /// outside the grid.
    pub fn color_at_nearest(&self, x: i32, y: i32) -> (r: [u8; 4])
        requires
            self.wf(),
        ensures
            r@ == self.spec_color(x as int, y as int),
            !self.in_bounds(x as int, y as int) ==> r@ == blank(),
    {
        self.get_color(x as i64, y as i64)
    }

    /// Approximate linear hit test. `(x, y)` is the texel at the lower corner of the
    /// sample's 2 by 2 footprint: `(floor(u * width - 0.5), floor(v * height - 0.5))`.
    /// True when any of the four texels of the footprint is opaque; this is an OR of the
    /// four, not a weighted blend.
    pub fn is_touching_linear(&self, x: i32, y: i32) -> (r: bool)
        requires
            self.wf(),
        ensures
            r == (self.spec_point(x as int, y as int) || self.spec_point(x + 1, y as int)
                || self.spec_point(x as int, y + 1) || self.spec_point(x + 1, y + 1)),
    {
        let x = x as i64;
        let y = y as i64;
        self.get_point(x, y) || self.get_point(x + 1, y) || self.get_point(x, y + 1) || self.get_point(
            x + 1,
            y + 1,
        )
    }
}

/// After premultiplying, no colour byte exceeds its pixel's alpha; in particular a
/// transparent pixel is transparent black.
pub proof fn lemma_premultiplied_within_alpha(d: Seq<u8>)
    requires
        d.len() % 4 == 0,
    ensures
        forall|i: int|
            0 <= i < d.len() && i % 4 != 3 ==> #[trigger] premultiplied_pixels(d)[i]
                <= premultiplied_pixels(d)[i - i % 4 + 3],
{
    assert forall|i: int| 0 <= i < d.len() && i % 4 != 3 implies #[trigger] premultiplied_pixels(d)[i]
        <= premultiplied_pixels(d)[i - i % 4 + 3] by {
        let a = d[i - i % 4 + 3];
        let c = d[i];
        assert(c as int * a as int / 255 <= a) by (nonlinear_arith)
            requires
                0 <= c <= 255,
                0 <= a <= 255,
        ;
        assert((i - i % 4 + 3) % 4 == 3);
        assert(premultiplied_pixels(d)[i - i % 4 + 3] == a);
    }
}

/// Whether `len` bytes make exactly `w` by `h` RGBA8 pixels.
pub fn size_matches(w: u32, h: u32, len: usize) -> (r: bool)
    ensures
        r == (len == w as int * h as int * 4),
{
    assert(w as int * h as int <= 0xffff_ffffu128 * 0xffff_ffffu128) by (nonlinear_arith)
        requires
            w <= 0xffff_ffffu32,
            h <= 0xffff_ffffu32,
    ;
    let wh = (w as u128) * (h as u128);
    len as u128 == wh * 4
}

/// Premultiply each RGBA pixel of `data` by its alpha, in place.
fn premultiply(data: &mut Vec<u8>)
    requires
        old(data)@.len() % 4 == 0,
    ensures
        final(data)@ == premultiplied_pixels(old(data)@),
{
    let ghost orig = data@;
    let n = data.len();
    let mut i: usize = 0;
    while i < n
        invariant
            n == data@.len() == orig.len(),
            n % 4 == 0,
            i % 4 == 0,
            i <= n,
            forall|j: int| 0 <= j < i ==> data@[j] == premultiplied_byte(orig, j),
            forall|j: int| i <= j < n ==> data@[j] == orig[j],
        decreases n - i,
    {
        let alpha = data[i + 3];
        if alpha != 0 {
            let mut c: usize = 0;
            while c < 3
                invariant
                    n == data@.len() == orig.len(),
                    n % 4 == 0,
                    i % 4 == 0,
                    i + 4 <= n,
                    c <= 3,
                    alpha == orig[i + 3],
                    alpha != 0,
                    forall|j: int| 0 <= j < i ==> data@[j] == premultiplied_byte(orig, j),
                    forall|j: int| i <= j < i + c ==> data@[j] == premultiplied_byte(orig, j),
                    forall|j: int| i + c <= j < n ==> data@[j] == orig[j],
                decreases 3 - c,
            {
                let v = data[i + c];
                assert(v as int * alpha as int <= 255 * 255) by (nonlinear_arith)
                    requires
                        v <= 255,
                        alpha <= 255,
                ;
                let prod = (v as u32) * (alpha as u32);
                let p = prod / 255;
                assert((i + c) as int % 4 == c as int && (i + c) as int - (i + c) as int % 4 + 3 == i
                    + 3);
                data.set(i + c, p as u8);
                c += 1;
            }
            assert forall|j: int| i <= j < i + 4 implies data@[j] == premultiplied_byte(orig, j) by {
                assert(j - j % 4 + 3 == i + 3);
            }
        } else {
            // A transparent pixel premultiplies to transparent black.
            assert(orig[i + 3] == 0);
            data.set(i, 0);
            data.set(i + 1, 0);
            data.set(i + 2, 0);
            assert forall|j: int| i <= j < i + 4 implies data@[j] == premultiplied_byte(orig, j) by {
                assert(j - j % 4 + 3 == i + 3);
                assert(j % 4 == j - i);
                if j < i + 3 {
                    assert(orig[j] as int * 0 / 255 == 0);
                }
            }
        }
        i += 4;
    }
    assert(data@ =~= premultiplied_pixels(orig));
}

} // verus!
