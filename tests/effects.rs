use swrender::effects::{
    color_steps, distortion_steps, effect_enabled, has_color_effects, has_distortion_effects,
    EffectBitfield, COLOR_EFFECT_MASK, DISTORTION_EFFECT_MASK,
};

#[test]
fn effect_bits_by_position() {
    assert_eq!(EffectBitfield::Color.bit(), 1);
    assert_eq!(EffectBitfield::Fisheye.bit(), 2);
    assert_eq!(EffectBitfield::Whirl.bit(), 4);
    assert_eq!(EffectBitfield::Pixelate.bit(), 8);
    assert_eq!(EffectBitfield::Mosaic.bit(), 16);
    assert_eq!(EffectBitfield::Brightness.bit(), 32);
    assert_eq!(EffectBitfield::Transparency.bit(), 64);
}

#[test]
fn group_masks() {
    assert_eq!(COLOR_EFFECT_MASK, 0b110_0001);
    assert_eq!(DISTORTION_EFFECT_MASK, 0b001_1110);
    assert_eq!(COLOR_EFFECT_MASK & DISTORTION_EFFECT_MASK, 0);
}

#[test]
fn zero_bits_enable_nothing() {
    assert!(!has_color_effects(0));
    assert!(!has_distortion_effects(0));
    assert!(distortion_steps(0).is_empty());
    assert!(color_steps(0).is_empty());
    assert!(!effect_enabled(0, EffectBitfield::Mosaic));
}

#[test]
fn groups_follow_their_bits() {
    assert!(has_color_effects(EffectBitfield::Transparency.bit()));
    assert!(!has_distortion_effects(EffectBitfield::Transparency.bit()));
    assert!(has_distortion_effects(EffectBitfield::Whirl.bit()));
    assert!(!has_color_effects(EffectBitfield::Whirl.bit()));
    assert!(!has_color_effects(1 << 7));
    assert!(!has_distortion_effects(1 << 7));
}

#[test]
fn distortions_apply_in_shader_order() {
    let all = 0x7f;
    assert_eq!(
        distortion_steps(all),
        vec![
            EffectBitfield::Mosaic,
            EffectBitfield::Pixelate,
            EffectBitfield::Whirl,
            EffectBitfield::Fisheye
        ]
    );
    let bits = EffectBitfield::Fisheye.bit() | EffectBitfield::Mosaic.bit();
    assert_eq!(
        distortion_steps(bits),
        vec![EffectBitfield::Mosaic, EffectBitfield::Fisheye]
    );
    assert_eq!(
        distortion_steps(EffectBitfield::Mosaic.bit()),
        vec![EffectBitfield::Mosaic]
    );
}

#[test]
fn color_effects_apply_in_shader_order() {
    assert_eq!(
        color_steps(0x7f),
        vec![
            EffectBitfield::Color,
            EffectBitfield::Brightness,
            EffectBitfield::Transparency
        ]
    );
    assert_eq!(
        color_steps(EffectBitfield::Transparency.bit() | EffectBitfield::Fisheye.bit()),
        vec![EffectBitfield::Transparency]
    );
}
