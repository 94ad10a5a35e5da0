use vstd::prelude::*;

verus! {

/// Bit set of the visual effects enabled on a drawable.
pub type EffectBits = u32;

/// The seven shader effects, named by their position in an [`EffectBits`] mask.
#[derive(Clone, Copy, Debug, PartialEq, Eq, Structural)]
pub enum EffectBitfield {
    Color,
    Fisheye,
    Whirl,
    Pixelate,
    Mosaic,
    Brightness,
    Transparency,
}

impl EffectBitfield {
    /// Position of this effect's flag in an effect mask.
    pub open spec fn spec_index(self) -> u32 {
        match self {
            EffectBitfield::Color => 0,
            EffectBitfield::Fisheye => 1,
            EffectBitfield::Whirl => 2,
            EffectBitfield::Pixelate => 3,
            EffectBitfield::Mosaic => 4,
            EffectBitfield::Brightness => 5,
            EffectBitfield::Transparency => 6,
        }
    }

    /// The mask that holds this effect's flag alone.
    pub fn bit(self) -> (r: EffectBits)
        ensures
            r == 1u32 << self.spec_index(),
    {
        match self {
            EffectBitfield::Color => 1u32 << 0u32,
            EffectBitfield::Fisheye => 1u32 << 1u32,
            EffectBitfield::Whirl => 1u32 << 2u32,
            EffectBitfield::Pixelate => 1u32 << 3u32,
            EffectBitfield::Mosaic => 1u32 << 4u32,
            EffectBitfield::Brightness => 1u32 << 5u32,
            EffectBitfield::Transparency => 1u32 << 6u32,
        }
    }
}

/// Effects that recolour a sample: hue shift, brightness and transparency.
pub const COLOR_EFFECT_MASK: EffectBits = (1u32 << 0u32) | (1u32 << 5u32) | (1u32 << 6u32);

/// Effects that move the sampled point: fisheye, whirl, pixelate and mosaic.
pub const DISTORTION_EFFECT_MASK: EffectBits = (1u32 << 1u32) | (1u32 << 2u32) | (1u32 << 3u32) | (
1u32 << 4u32);

/// Whether `effect` is switched on in `bits`.
pub open spec fn spec_enabled(bits: EffectBits, effect: EffectBitfield) -> bool {
    bits & (1u32 << effect.spec_index()) != 0
}

/// Whether `effect` is switched on in `bits`.
pub fn effect_enabled(bits: EffectBits, effect: EffectBitfield) -> (r: bool)
    ensures
        r == spec_enabled(bits, effect),
{
    bits & effect.bit() != 0
}

/// A group mask meets `bits` exactly when one of the group's effects is on.
proof fn lemma_group_masks(bits: EffectBits)
    ensures
        (bits & COLOR_EFFECT_MASK != 0) == (spec_enabled(bits, EffectBitfield::Color) || spec_enabled(
            bits,
            EffectBitfield::Brightness,
        ) || spec_enabled(bits, EffectBitfield::Transparency)),
        (bits & DISTORTION_EFFECT_MASK != 0) == (spec_enabled(bits, EffectBitfield::Fisheye)
            || spec_enabled(bits, EffectBitfield::Whirl) || spec_enabled(bits, EffectBitfield::Pixelate)
            || spec_enabled(bits, EffectBitfield::Mosaic)),
{
    assert((bits & ((1u32 << 0u32) | (1u32 << 5u32) | (1u32 << 6u32)) != 0) == (bits & (1u32 << 0u32)
        != 0 || bits & (1u32 << 5u32) != 0 || bits & (1u32 << 6u32) != 0)) by (bit_vector);
    assert((bits & ((1u32 << 1u32) | (1u32 << 2u32) | (1u32 << 3u32) | (1u32 << 4u32)) != 0) == (bits
        & (1u32 << 1u32) != 0 || bits & (1u32 << 2u32) != 0 || bits & (1u32 << 3u32) != 0 || bits & (1u32
        << 4u32) != 0)) by (bit_vector);
}

/// Whether any effect of the colour group is on.
pub fn has_color_effects(bits: EffectBits) -> (r: bool)
    ensures
        r == (bits & COLOR_EFFECT_MASK != 0),
        r == (spec_enabled(bits, EffectBitfield::Color) || spec_enabled(bits, EffectBitfield::Brightness)
            || spec_enabled(bits, EffectBitfield::Transparency)),
{
    proof {
        lemma_group_masks(bits);
    }
    bits & COLOR_EFFECT_MASK != 0
}

/// Whether any effect of the distortion group is on.
pub fn has_distortion_effects(bits: EffectBits) -> (r: bool)
    ensures
        r == (bits & DISTORTION_EFFECT_MASK != 0),
        r == (spec_enabled(bits, EffectBitfield::Fisheye) || spec_enabled(bits, EffectBitfield::Whirl)
            || spec_enabled(bits, EffectBitfield::Pixelate) || spec_enabled(bits, EffectBitfield::Mosaic)),
{
    proof {
        lemma_group_masks(bits);
    }
    bits & DISTORTION_EFFECT_MASK != 0
}

/// `seq![e]` when `e` is on in `bits`, else nothing.
pub open spec fn step_if_enabled(bits: EffectBits, e: EffectBitfield) -> Seq<EffectBitfield> {
    if spec_enabled(bits, e) {
        seq![e]
    } else {
        seq![]
    }
}

/// The distortions that a sample goes through, in the order the shader applies them:
/// mosaic, pixelate, whirl, then fisheye, each only when it is on.
pub open spec fn spec_distortion_steps(bits: EffectBits) -> Seq<EffectBitfield> {
    step_if_enabled(bits, EffectBitfield::Mosaic) + step_if_enabled(bits, EffectBitfield::Pixelate)
        + step_if_enabled(bits, EffectBitfield::Whirl) + step_if_enabled(bits, EffectBitfield::Fisheye)
}

/// The colour effects that a sample goes through, in order: hue shift, brightness, then
/// transparency, each only when it is on.
pub open spec fn spec_color_steps(bits: EffectBits) -> Seq<EffectBitfield> {
    step_if_enabled(bits, EffectBitfield::Color) + step_if_enabled(bits, EffectBitfield::Brightness)
        + step_if_enabled(bits, EffectBitfield::Transparency)
}

fn push_if_enabled(steps: &mut Vec<EffectBitfield>, bits: EffectBits, e: EffectBitfield)
    ensures
        final(steps)@ == old(steps)@ + step_if_enabled(bits, e),
{
    if effect_enabled(bits, e) {
        steps.push(e);
    } else {
        assert(old(steps)@ + seq![] =~= old(steps)@);
    }
}

/// The distortion steps that `bits` switches on, in the order of application.
pub fn distortion_steps(bits: EffectBits) -> (r: Vec<EffectBitfield>)
    ensures
        r@ == spec_distortion_steps(bits),
{
    let mut steps: Vec<EffectBitfield> = Vec::new();
    push_if_enabled(&mut steps, bits, EffectBitfield::Mosaic);
    push_if_enabled(&mut steps, bits, EffectBitfield::Pixelate);
    push_if_enabled(&mut steps, bits, EffectBitfield::Whirl);
    push_if_enabled(&mut steps, bits, EffectBitfield::Fisheye);
    assert(steps@ =~= spec_distortion_steps(bits));
    steps
}

/// The colour steps that `bits` switches on, in the order of application.
pub fn color_steps(bits: EffectBits) -> (r: Vec<EffectBitfield>)
    ensures
        r@ == spec_color_steps(bits),
{
    let mut steps: Vec<EffectBitfield> = Vec::new();
    push_if_enabled(&mut steps, bits, EffectBitfield::Color);
    push_if_enabled(&mut steps, bits, EffectBitfield::Brightness);
    push_if_enabled(&mut steps, bits, EffectBitfield::Transparency);
    assert(steps@ =~= spec_color_steps(bits));
    steps
}

/// With no effect bit set, a sample goes through no distortion and no colour step: both
/// the point and the colour transform are the identity.
pub proof fn lemma_no_bits_no_steps()
    ensures
        spec_distortion_steps(0) == Seq::<EffectBitfield>::empty(),
        spec_color_steps(0) == Seq::<EffectBitfield>::empty(),
        0u32 & COLOR_EFFECT_MASK == 0,
        0u32 & DISTORTION_EFFECT_MASK == 0,
{
    assert(forall|s: u32| 0u32 & (1u32 << s) == 0) by (bit_vector);
    assert(0u32 & COLOR_EFFECT_MASK == 0) by (bit_vector);
    assert(0u32 & DISTORTION_EFFECT_MASK == 0) by (bit_vector);
    assert(spec_distortion_steps(0) =~= Seq::<EffectBitfield>::empty());
    assert(spec_color_steps(0) =~= Seq::<EffectBitfield>::empty());
}

/// The steps switched on are exactly those of the group's mask: a sample pays for a group
/// only when the group's mask meets `bits`.
pub proof fn lemma_steps_follow_group_masks(bits: EffectBits)
    ensures
        (spec_distortion_steps(bits).len() > 0) == (bits & DISTORTION_EFFECT_MASK != 0),
        (spec_color_steps(bits).len() > 0) == (bits & COLOR_EFFECT_MASK != 0),
{
    lemma_group_masks(bits);
}

} // verus!
