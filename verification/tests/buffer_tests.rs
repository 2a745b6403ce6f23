use sprite_raster::buffer::{MemoryBlock, PixelBuffer};
use sprite_raster::members;
use sprite_raster::pixels;
use sprite_raster::sampling::SamplingMethod;
use sprite_raster::scene::Scene;

#[test]
fn pixel_buffer_starts_zeroed() {
    let buffer = PixelBuffer::new(3, 2);
    assert_eq!(buffer.width(), 3);
    assert_eq!(buffer.height(), 2);
    assert_eq!(buffer.data_len(), 24);
    assert!(buffer.data().iter().all(|&b| b == 0));
}

#[test]
fn pixel_buffer_clear_writes_every_pixel() {
    let mut buffer = PixelBuffer::new(2, 2);
    buffer.clear(1, 2, 3, 4);
    assert_eq!(buffer.data(), &[1, 2, 3, 4].repeat(4)[..]);
}

#[test]
fn pixel_buffer_set_pixel_ignores_positions_outside() {
    let mut buffer = PixelBuffer::new(2, 2);
    buffer.set_pixel(1, 0, 9, 8, 7, 6);
    buffer.set_pixel(2, 0, 1, 1, 1, 1);
    buffer.set_pixel(0, 2, 1, 1, 1, 1);
    buffer.set_pixel(u32::MAX, u32::MAX, 1, 1, 1, 1);
    assert_eq!(buffer.data(), &[0, 0, 0, 0, 9, 8, 7, 6, 0, 0, 0, 0, 0, 0, 0, 0]);
}

#[test]
fn pixel_buffer_fill_rect_is_clipped() {
    let mut buffer = PixelBuffer::new(3, 3);
    buffer.fill_rect(1, 1, 5, 5, 7, 7, 7, 7);
    for y in 0..3usize {
        for x in 0..3usize {
            let at = (y * 3 + x) * 4;
            let expected = if x >= 1 && y >= 1 { [7u8; 4] } else { [0u8; 4] };
            assert_eq!(&buffer.data()[at..at + 4], &expected);
        }
    }
    buffer.fill_rect(0, 0, 1, 2, 1, 2, 3, 4);
    assert_eq!(&buffer.data()[0..4], &[1, 2, 3, 4]);
    assert_eq!(&buffer.data()[12..16], &[1, 2, 3, 4]);
    assert_eq!(&buffer.data()[24..28], &[0, 0, 0, 0]);
    let before = buffer.data().to_vec();
    buffer.fill_rect(3, 0, 2, 2, 9, 9, 9, 9);
    buffer.fill_rect(0, 0, 0, 3, 9, 9, 9, 9);
    buffer.fill_rect(u32::MAX, 1, u32::MAX, 1, 9, 9, 9, 9);
    assert_eq!(buffer.data(), &before[..]);
}

#[test]
fn pixel_buffer_resize_keeps_the_bytes_that_fit() {
    let mut buffer = PixelBuffer::new(2, 1);
    buffer.clear(1, 2, 3, 4);
    buffer.resize(2, 2);
    assert_eq!(buffer.width(), 2);
    assert_eq!(buffer.height(), 2);
    assert_eq!(buffer.data(), &[1, 2, 3, 4, 1, 2, 3, 4, 0, 0, 0, 0, 0, 0, 0, 0]);
    buffer.resize(1, 1);
    assert_eq!(buffer.data(), &[1, 2, 3, 4]);
    buffer.resize(0, 0);
    assert_eq!(buffer.data_len(), 0);
}

#[test]
fn memory_block_fills() {
    let mut block = MemoryBlock::new(5);
    assert_eq!(block.size(), 5);
    assert_eq!(block.data(), &[0, 0, 0, 0, 0]);
    block.fill_ones();
    assert_eq!(block.data(), &[255, 255, 255, 255, 255]);
    block.fill_zeros();
    assert_eq!(block.data(), &[0, 0, 0, 0, 0]);
    assert_eq!(MemoryBlock::new(0).size(), 0);
}

#[test]
fn scene_starts_black_with_nearest_sampling() {
    let scene = Scene::new(2, 1);
    assert_eq!(scene.sampling_method(), SamplingMethod::Nearest);
    assert_eq!(scene.data(), &[0u8; 8]);
    assert!(scene.sprite_ids().is_empty());
    let mut scene = scene;
    scene.clear();
    assert_eq!(scene.data(), &[0, 0, 0, 255, 0, 0, 0, 255]);
}

#[test]
fn scene_resize_fills_with_the_background() {
    let mut scene = Scene::new(1, 1);
    scene.set_background_color(4, 3, 2, 1);
    assert_eq!(scene.data(), &[0, 0, 0, 0]);
    scene.resize(2, 2);
    assert_eq!(scene.width(), 2);
    assert_eq!(scene.height(), 2);
    assert_eq!(scene.data_len(), 16);
    assert_eq!(scene.data(), &[4, 3, 2, 1].repeat(4)[..]);
}

#[test]
fn scene_sampling_method_can_be_set() {
    let mut scene = Scene::new(1, 1);
    scene.set_sampling_method(SamplingMethod::Supersampling);
    assert_eq!(scene.sampling_method(), SamplingMethod::Supersampling);
}

#[test]
fn scene_buffer_can_be_written_in_place() {
    let mut scene = Scene::new(1, 2);
    scene.data_mut()[5] = 77;
    assert_eq!(scene.data(), &[0, 0, 0, 0, 0, 77, 0, 0]);
}

#[test]
fn scene_lists_each_sprite_once() {
    let mut scene = Scene::new(1, 1);
    scene.add_sprite(3);
    scene.add_sprite(1);
    scene.add_sprite(3);
    assert_eq!(scene.sprite_ids(), &[3, 1]);
    scene.remove_sprite(9);
    assert_eq!(scene.sprite_ids(), &[3, 1]);
    scene.remove_sprite(3);
    scene.remove_sprite(1);
    assert!(scene.sprite_ids().is_empty());
}

#[test]
fn id_lists_insert_and_remove() {
    let mut list = vec![4u32, 2];
    assert!(members::contains(&list, 2));
    assert!(!members::contains(&list, 3));
    assert!(!members::insert(&mut list, 4));
    assert!(members::insert(&mut list, 3));
    assert_eq!(list, vec![4, 2, 3]);
    assert!(members::remove(&mut list, 2));
    assert!(!members::remove(&mut list, 2));
    assert_eq!(list, vec![4, 3]);
    let mut twice = vec![1u32, 5, 1, 1];
    assert!(members::remove(&mut twice, 1));
    assert_eq!(twice, vec![5]);
}

#[test]
fn pixel_helpers_fill_and_copy() {
    assert_eq!(pixels::solid(2, [1, 2, 3, 4]), vec![1, 2, 3, 4, 1, 2, 3, 4]);
    assert!(pixels::solid(0, [1, 2, 3, 4]).is_empty());
    let mut buf = vec![0u8; 10];
    pixels::fill(&mut buf, [9, 8, 7, 6]);
    assert_eq!(buf, vec![9, 8, 7, 6, 9, 8, 7, 6, 0, 0]);
    assert_eq!(pixels::copy_of(&[1, 2, 3]), vec![1, 2, 3]);
    assert_eq!(pixels::zeroed(3), vec![0, 0, 0]);
    let mut rows = vec![0u8; 6];
    pixels::fill_rows(&mut rows, &vec![1, 2, 3], 2);
    assert_eq!(rows, vec![1, 2, 3, 1, 2, 3]);
}
