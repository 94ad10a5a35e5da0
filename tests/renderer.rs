use swrender::renderer::SoftwareRenderer;
use swrender::silhouette::SilhouetteError;
use swrender::ID_NONE;

#[test]
fn new_renderer_holds_the_none_silhouette() {
    let r = SoftwareRenderer::new();
    let none = r.silhouette(ID_NONE).expect("none silhouette");
    assert_eq!(none.width, 0);
    assert_eq!(none.height, 0);
    assert_eq!(none.id, ID_NONE);
    assert_eq!(none.nominal_size, [0, 0]);
    assert!(none.data.is_empty());
    assert!(r.drawable(0).is_none());
}

#[test]
fn set_drawable_creates_with_defaults() {
    let mut r = SoftwareRenderer::new();
    r.set_drawable(4, None, None, None, 3, true);
    let d = r.drawable(4).expect("created");
    assert_eq!(d.id, 4);
    assert_eq!(d.inverse_matrix, [0u32; 16]);
    assert_eq!(d.effects, [0u32; 7]);
    assert_eq!(d.silhouette, ID_NONE);
    assert_eq!(d.effect_bits, 3);
    assert!(d.use_nearest_neighbor);
}

#[test]
fn set_drawable_patches_only_given_fields() {
    let mut r = SoftwareRenderer::new();
    let m = [1.0f32.to_bits(); 16];
    let fx = [0.5f32.to_bits(); 7];
    r.set_drawable(4, Some(m), Some(9), Some(fx), 1, true);
    r.set_drawable(4, None, None, None, 16, false);
    let d = r.drawable(4).expect("still there");
    assert_eq!(d.inverse_matrix, m);
    assert_eq!(d.silhouette, 9);
    assert_eq!(d.effects, fx);
    assert_eq!(d.effect_bits, 16);
    assert!(!d.use_nearest_neighbor);
    r.set_drawable(4, None, Some(2), None, 16, false);
    assert_eq!(r.drawable(4).unwrap().silhouette, 2);
    assert_eq!(r.drawable(4).unwrap().inverse_matrix, m);
}

#[test]
fn remove_drawable_of_absent_id_is_a_no_op() {
    let mut r = SoftwareRenderer::new();
    r.set_drawable(1, None, None, None, 0, true);
    r.remove_drawable(2);
    assert!(r.drawable(1).is_some());
    r.remove_drawable(1);
    assert!(r.drawable(1).is_none());
    r.remove_drawable(1);
    assert!(r.drawable(1).is_none());
}

#[test]
fn set_silhouette_creates_and_replaces() {
    let mut r = SoftwareRenderer::new();
    assert_eq!(r.set_silhouette(3, 1, 1, vec![255, 0, 0, 128], [0, 0], false), Ok(()));
    let s = r.silhouette(3).unwrap();
    assert_eq!(s.id, 3);
    assert_eq!(s.data, vec![128, 0, 0, 128]);
    assert_eq!(r.set_silhouette(3, 2, 1, vec![1, 2, 3, 4, 5, 6, 7, 8], [0, 0], true), Ok(()));
    let s = r.silhouette(3).unwrap();
    assert_eq!((s.width, s.height), (2, 1));
    assert_eq!(s.data, vec![1, 2, 3, 4, 5, 6, 7, 8]);
}

#[test]
fn set_silhouette_rejects_bad_size_and_keeps_state() {
    let mut r = SoftwareRenderer::new();
    assert_eq!(
        r.set_silhouette(3, 2, 2, vec![0u8; 15], [0, 0], true),
        Err(SilhouetteError::BadSize)
    );
    assert!(r.silhouette(3).is_none());
    assert_eq!(r.set_silhouette(3, 1, 1, vec![1, 2, 3, 4], [0, 0], true), Ok(()));
    assert_eq!(
        r.set_silhouette(3, 1, 1, vec![1, 2, 3], [0, 0], true),
        Err(SilhouetteError::BadSize)
    );
    assert_eq!(r.silhouette(3).unwrap().data, vec![1, 2, 3, 4]);
}

#[test]
fn remove_silhouette_of_absent_id_is_a_no_op() {
    let mut r = SoftwareRenderer::new();
    r.remove_silhouette(5);
    assert!(r.silhouette(ID_NONE).is_some());
    r.remove_silhouette(ID_NONE);
    assert!(r.silhouette(ID_NONE).is_none());
}
