use swrender::silhouette::{Silhouette, SilhouetteError};

fn opaque_2x2() -> Silhouette {
    let mut s = Silhouette::new(7);
    let data = vec![
        10, 20, 30, 255, 0, 0, 0, 0, //
        0, 0, 0, 0, 40, 50, 60, 200,
    ];
    assert_eq!(s.set_data(2, 2, data, [0, 0], true), Ok(()));
    s
}

#[test]
fn new_silhouette_is_empty() {
    let s = Silhouette::new(3);
    assert_eq!(s.id, 3);
    assert_eq!(s.width, 0);
    assert_eq!(s.height, 0);
    assert!(s.data.is_empty());
    assert!(!s.is_touching_nearest(0, 0));
    assert_eq!(s.color_at_nearest(0, 0), [0, 0, 0, 0]);
}

#[test]
fn set_data_rejects_one_byte_short() {
    let mut s = opaque_2x2();
    let before = s.data.clone();
    let r = s.set_data(4, 3, vec![0u8; 4 * 3 * 4 - 1], [0, 0], false);
    assert_eq!(r, Err(SilhouetteError::BadSize));
    assert_eq!(s.width, 2);
    assert_eq!(s.height, 2);
    assert_eq!(s.data, before);
}

#[test]
fn set_data_rejects_one_byte_long() {
    let mut s = Silhouette::new(1);
    let r = s.set_data(1, 1, vec![0u8; 5], [0, 0], true);
    assert_eq!(r, Err(SilhouetteError::BadSize));
    assert_eq!(s.width, 0);
}

#[test]
fn premultiplies_half_transparent_red() {
    let mut s = Silhouette::new(1);
    assert_eq!(s.set_data(1, 1, vec![255, 0, 0, 128], [0, 0], false), Ok(()));
    assert_eq!(s.data, vec![128, 0, 0, 128]);
    assert_eq!(s.color_at_nearest(0, 0), [128, 0, 0, 128]);
}

#[test]
fn premultiplies_each_channel_by_alpha() {
    let mut s = Silhouette::new(1);
    let data = vec![100, 50, 200, 51, 7, 8, 9, 255];
    assert_eq!(s.set_data(2, 1, data, [0, 0], false), Ok(()));
    assert_eq!(s.data, vec![20, 10, 40, 51, 7, 8, 9, 255]);
}

#[test]
fn premultiply_makes_transparent_pixels_black() {
    let mut s = Silhouette::new(1);
    assert_eq!(s.set_data(2, 1, vec![10, 20, 30, 0, 255, 0, 0, 0], [0, 0], false), Ok(()));
    assert_eq!(s.data, vec![0, 0, 0, 0, 0, 0, 0, 0]);
    assert_eq!(s.color_at_nearest(1, 0), [0, 0, 0, 0]);
}

#[test]
fn premultiplied_data_is_stored_as_given() {
    let mut s = Silhouette::new(1);
    let nominal = [1.5f32.to_bits(), 2.0f32.to_bits()];
    assert_eq!(s.set_data(1, 1, vec![255, 0, 0, 128], nominal, true), Ok(()));
    assert_eq!(s.data, vec![255, 0, 0, 128]);
    assert_eq!(s.nominal_size, nominal);
    assert_eq!(f32::from_bits(s.nominal_size[0]), 1.5f32);
}

#[test]
fn nearest_hit_follows_alpha() {
    let s = opaque_2x2();
    assert!(s.is_touching_nearest(0, 0));
    assert!(!s.is_touching_nearest(1, 0));
    assert!(!s.is_touching_nearest(0, 1));
    assert!(s.is_touching_nearest(1, 1));
}

#[test]
fn nearest_outside_grid_is_blank() {
    let s = opaque_2x2();
    assert!(!s.is_touching_nearest(2, 0));
    assert!(!s.is_touching_nearest(0, 2));
    assert!(!s.is_touching_nearest(-1, 0));
    assert!(!s.is_touching_nearest(0, -1));
    assert_eq!(s.color_at_nearest(2, 1), [0, 0, 0, 0]);
    assert_eq!(s.color_at_nearest(-1, 1), [0, 0, 0, 0]);
    assert_eq!(s.color_at_nearest(i32::MAX, i32::MIN), [0, 0, 0, 0]);
}

#[test]
fn nearest_color_is_stored_pixel() {
    let s = opaque_2x2();
    assert_eq!(s.color_at_nearest(0, 0), [10, 20, 30, 255]);
    assert_eq!(s.color_at_nearest(1, 1), [40, 50, 60, 200]);
    assert_eq!(s.color_at_nearest(1, 0), [0, 0, 0, 0]);
}

#[test]
fn linear_hit_is_any_of_four_neighbours() {
    let mut s = Silhouette::new(1);
    let mut data = vec![0u8; 3 * 3 * 4];
    // Only texel (2, 2) is opaque.
    data[(2 * 3 + 2) * 4 + 3] = 255;
    assert_eq!(s.set_data(3, 3, data, [0, 0], true), Ok(()));
    assert!(s.is_touching_linear(1, 1));
    assert!(s.is_touching_linear(2, 1));
    assert!(s.is_touching_linear(1, 2));
    assert!(s.is_touching_linear(2, 2));
    assert!(!s.is_touching_linear(0, 0));
    assert!(!s.is_touching_linear(0, 1));
    assert!(!s.is_touching_linear(3, 3));
    assert!(!s.is_touching_linear(i32::MAX, i32::MAX));
    assert!(!s.is_touching_nearest(1, 1));
}
