use vstd::prelude::*;

verus! {

/// Two RGB colours are close enough for a colour-touch test when red and green agree in
/// their top five bits and blue in its top four.
pub open spec fn spec_color_matches(a: Seq<u8>, b: Seq<u8>) -> bool {
    &&& a[0] / 8 == b[0] / 8
    &&& a[1] / 8 == b[1] / 8
    &&& a[2] / 16 == b[2] / 16
}

/// A sampled RGBA colour matches an RGB mask colour when it is not fully transparent and
/// each channel agrees with the mask in its top six bits.
pub open spec fn spec_mask_matches(a: Seq<u8>, b: Seq<u8>) -> bool {
    &&& a[3] != 0
    &&& a[0] / 4 == b[0] / 4
    &&& a[1] / 4 == b[1] / 4
    &&& a[2] / 4 == b[2] / 4
}

proof fn lemma_xor_masks(x: u8, y: u8)
    ensures
        ((x ^ y) & 0xf8u8 == 0) == (x / 8 == y / 8),
        ((x ^ y) & 0xf0u8 == 0) == (x / 16 == y / 16),
        ((x ^ y) & 0xfcu8 == 0) == (x / 4 == y / 4),
{
    assert(((x ^ y) & 0xf8u8 == 0) == (x >> 3u8 == y >> 3u8)) by (bit_vector);
    assert(((x ^ y) & 0xf0u8 == 0) == (x >> 4u8 == y >> 4u8)) by (bit_vector);
    assert(((x ^ y) & 0xfcu8 == 0) == (x >> 2u8 == y >> 2u8)) by (bit_vector);
    assert(x >> 3u8 == x / 8 && y >> 3u8 == y / 8) by (bit_vector);
    assert(x >> 4u8 == x / 16 && y >> 4u8 == y / 16) by (bit_vector);
    assert(x >> 2u8 == x / 4 && y >> 2u8 == y / 4) by (bit_vector);
}

/// Whether two RGB colours are close enough for a colour-touch test.
pub fn color_matches(a: [u8; 3], b: [u8; 3]) -> (r: bool)
    ensures
        r == spec_color_matches(a@, b@),
{
    proof {
        lemma_xor_masks(a[0], b[0]);
        lemma_xor_masks(a[1], b[1]);
        lemma_xor_masks(a[2], b[2]);
    }
    let d0 = (a[0] ^ b[0]) & 0xf8u8;
    let d1 = (a[1] ^ b[1]) & 0xf8u8;
    let d2 = (a[2] ^ b[2]) & 0xf0u8;
    assert((d0 | d1 | d2 == 0) == (d0 == 0 && d1 == 0 && d2 == 0)) by (bit_vector);
    d0 | d1 | d2 == 0
}

/// Whether a sampled RGBA colour is close enough to an RGB mask colour.
pub fn mask_matches(a: [u8; 4], b: [u8; 3]) -> (r: bool)
    ensures
        r == spec_mask_matches(a@, b@),
{
    proof {
        lemma_xor_masks(a[0], b[0]);
        lemma_xor_masks(a[1], b[1]);
        lemma_xor_masks(a[2], b[2]);
    }
    let d0 = (a[0] ^ b[0]) & 0xfcu8;
    let d1 = (a[1] ^ b[1]) & 0xfcu8;
    let d2 = (a[2] ^ b[2]) & 0xfcu8;
    assert((d0 | d1 | d2 == 0) == (d0 == 0 && d1 == 0 && d2 == 0)) by (bit_vector);
    a[3] != 0 && d0 | d1 | d2 == 0
}

} // verus!
