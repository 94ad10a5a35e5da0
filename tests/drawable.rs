use swrender::drawable::Drawable;
use swrender::silhouette::Silhouette;

fn drawable(nearest: bool) -> Drawable {
    Drawable {
        id: 1,
        inverse_matrix: [0; 16],
        silhouette: 2,
        effects: [0; 7],
        effect_bits: 0,
        use_nearest_neighbor: nearest,
    }
}

#[test]
fn touch_test_follows_sampling_mode() {
    let mut s = Silhouette::new(2);
    let mut data = vec![0u8; 2 * 2 * 4];
    data[(1 * 2 + 1) * 4 + 3] = 9;
    assert_eq!(s.set_data(2, 2, data, [0, 0], true), Ok(()));
    assert!(!drawable(true).is_touching_texel(&s, 0, 0));
    assert!(drawable(false).is_touching_texel(&s, 0, 0));
    assert!(drawable(true).is_touching_texel(&s, 1, 1));
    assert!(!drawable(false).is_touching_texel(&s, -2, -2));
}
