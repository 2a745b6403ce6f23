use sprite_raster::sampling::SamplingMethod;
use sprite_raster::scene::Scene;

#[test]
fn test_sampling_method_conversion() {
    assert_eq!(SamplingMethod::from_u8(0), SamplingMethod::Nearest);
    assert_eq!(SamplingMethod::from_u8(1), SamplingMethod::Bilinear);
    assert_eq!(SamplingMethod::from_u8(2), SamplingMethod::Supersampling);
    assert_eq!(SamplingMethod::from_u8(99), SamplingMethod::Nearest);

    assert_eq!(SamplingMethod::Nearest.to_u8(), 0);
    assert_eq!(SamplingMethod::Bilinear.to_u8(), 1);
    assert_eq!(SamplingMethod::Supersampling.to_u8(), 2);
}

#[test]
fn test_new_scene() {
    let scene = Scene::new(800, 600);
    assert_eq!(scene.width(), 800);
    assert_eq!(scene.height(), 600);
    assert_eq!(scene.data_len(), 800 * 600 * 4);
}

#[test]
fn test_add_remove_sprite() {
    let mut scene = Scene::new(100, 100);
    scene.add_sprite(1);
    scene.add_sprite(2);
    assert_eq!(scene.sprite_ids(), &[1, 2]);

    scene.remove_sprite(1);
    assert_eq!(scene.sprite_ids(), &[2]);
}

#[test]
fn test_clear() {
    let mut scene = Scene::new(2, 2);
    scene.set_background_color(255, 0, 0, 255);
    scene.clear();

    let data = scene.data();
    assert_eq!(&data[0..4], &[255, 0, 0, 255]);
}
