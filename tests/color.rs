use swrender::color::{color_matches, mask_matches};

#[test]
fn color_match_ignores_low_bits() {
    assert!(color_matches([0b1010_1000, 16, 32], [0b1010_1111, 23, 47]));
    assert!(!color_matches([0b1010_1000, 16, 32], [0b1011_0000, 16, 32]));
    assert!(!color_matches([8, 16, 32], [8, 24, 32]));
    assert!(!color_matches([8, 16, 32], [8, 16, 48]));
    assert!(color_matches([255, 255, 255], [248, 248, 240]));
}

#[test]
fn mask_match_needs_alpha() {
    assert!(!mask_matches([10, 20, 30, 0], [10, 20, 30]));
    assert!(mask_matches([10, 20, 30, 1], [10, 20, 30]));
}

#[test]
fn mask_match_ignores_two_low_bits() {
    assert!(mask_matches([0b100, 0b111, 0b1000, 255], [0b111, 0b100, 0b1011]));
    assert!(!mask_matches([0b100, 0, 0, 255], [0b1000, 0, 0]));
    assert!(!mask_matches([0, 0, 4, 255], [0, 0, 0]));
}
