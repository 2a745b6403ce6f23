use sprite_raster::layer::{clip_span, AxisTap, Layer, Placement};
use sprite_raster::world::World;

const RED: [u8; 4] = [255, 0, 0, 255];
const GREEN: [u8; 4] = [0, 255, 0, 255];
const BLACK: [u8; 4] = [0, 0, 0, 255];

/// Where every live sprite lands in the default scene, with the columns and
/// rows that its sample points round to.
fn placements(world: &World) -> Vec<Placement> {
    let sprites = world.sprites();
    let width = world.scene_width();
    let height = world.scene_height();
    let center_x = width as f32 / 2.0;
    let center_y = height as f32 / 2.0;
    let mut placements = Vec::new();
    for id in 0..sprites.len() as u32 {
        let Some((x_bits, y_bits)) = sprites.position(id) else {
            placements.push(Placement {
                left: 0,
                top: 0,
                cols: Vec::new(),
                rows: Vec::new(),
                weighted: Vec::new(),
            });
            continue;
        };
        let pos_x = f32::from_bits(x_bits);
        let pos_y = f32::from_bits(y_bits);
        let (sprite_w, sprite_h) = sprites.display_size(id);
        let half_w = sprite_w as f32 / 2.0;
        let half_h = sprite_h as f32 / 2.0;
        let (left, right) = clip_span(
            (pos_x - half_w + center_x).floor() as i32,
            (pos_x + half_w + center_x).ceil() as i32,
            width,
        );
        let (top, bottom) = clip_span(
            (pos_y - half_h + center_y).floor() as i32,
            (pos_y + half_h + center_y).ceil() as i32,
            height,
        );
        let tap = |at: f32| AxisTap {
            near: at.round() as i32,
            lo: (at - 0.25).round() as i32,
            hi: (at + 0.25).round() as i32,
        };
        placements.push(Placement {
            left,
            top,
            cols: (left..right).map(|tx| tap(tx as f32 - center_x - pos_x + half_w)).collect(),
            rows: (top..bottom).map(|ty| tap(ty as f32 - center_y - pos_y + half_h)).collect(),
            weighted: Vec::new(),
        });
    }
    placements
}

fn render(world: &mut World) {
    let placements = placements(world);
    world.render_placed(&placements);
}

fn pixel(world: &World, x: u32, y: u32) -> [u8; 4] {
    let at = ((y * world.scene_width() + x) * 4) as usize;
    let data = world.scene_data();
    [data[at], data[at + 1], data[at + 2], data[at + 3]]
}

fn place(world: &mut World, id: u32, x: f32, y: f32) {
    world.set_sprite_position(id, x.to_bits(), y.to_bits());
}

#[test]
fn test_create_world() {
    let world = World::new(800, 600);
    assert_eq!(world.scene_width(), 800);
    assert_eq!(world.scene_height(), 600);
}

#[test]
fn test_create_sprite() {
    let mut world = World::new(100, 100);
    let id = world.create_rect_sprite(10, 10, 255, 0, 0, 255);
    assert_eq!(id, 0);

    let id2 = world.create_rect_sprite(10, 10, 0, 255, 0, 255);
    assert_eq!(id2, 1);
}

#[test]
fn test_sprite_position() {
    let mut world = World::new(100, 100);
    let id = world.create_rect_sprite(10, 10, 255, 0, 0, 255);

    world.set_sprite_position(id, 50.0f32.to_bits(), 30.0f32.to_bits());
    let pos = world.get_sprite_position(id).unwrap();
    assert_eq!(vec![f32::from_bits(pos.0), f32::from_bits(pos.1)], vec![50.0, 30.0]);
}

#[test]
fn test_sprite_zindex() {
    let mut world = World::new(100, 100);
    let id = world.create_rect_sprite(10, 10, 255, 0, 0, 255);

    world.set_sprite_zindex(id, 5);
    assert_eq!(world.get_sprite_zindex(id), Some(5));
}

#[test]
fn test_sprite_removal() {
    let mut world = World::new(100, 100);
    let id = world.create_rect_sprite(10, 10, 255, 0, 0, 255);

    assert!(world.sprites().is_active(id));
    world.remove_sprite(id);
    assert!(!world.sprites().is_active(id));
}

#[test]
fn test_render() {
    let mut world = World::new(100, 100);
    let id = world.create_rect_sprite(10, 10, 255, 0, 0, 255);
    world.add_to_scene(id);
    render(&mut world);
    assert!(world.scene_data_len() > 0);
}

#[test]
fn new_world_has_a_zeroed_default_scene() {
    let world = World::new(4, 3);
    assert_eq!(world.default_scene(), 0);
    assert_eq!(world.scene_data_len(), 4 * 3 * 4);
    assert!(world.scene_data().iter().all(|&b| b == 0));
    assert_eq!(world.get_sampling_method(), 0);
    assert_eq!(world.sprites().len(), 0);
    assert_eq!(world.scenes().len(), 1);
    assert!(world.scenes().order_stale(0));
}

#[test]
fn sprite_ids_count_up_from_zero() {
    let mut world = World::new(10, 10);
    for expected in 0..5u32 {
        let id = if expected % 2 == 0 {
            world.create_rect_sprite(2, 2, 1, 2, 3, 4)
        } else {
            world.create_sprite(&[9, 8, 7, 6], 1, 1)
        };
        assert_eq!(id, expected);
    }
}

#[test]
fn removed_sprite_is_absent_and_its_id_is_not_reused() {
    let mut world = World::new(10, 10);
    let first = world.create_rect_sprite(2, 2, 255, 0, 0, 255);
    let second = world.create_rect_sprite(2, 2, 0, 255, 0, 255);
    place(&mut world, first, 3.0, 4.0);
    world.set_sprite_zindex(first, 7);
    assert!(world.get_sprite_position(first).is_some());

    world.remove_sprite(first);
    assert_eq!(world.get_sprite_position(first), None);
    assert_eq!(world.get_sprite_zindex(first), None);
    assert_eq!(world.sprites().zindex(first), None);
    assert!(world.sprites().is_active(second));

    let third = world.create_rect_sprite(2, 2, 0, 0, 255, 255);
    assert_eq!(third, 2);
    assert_ne!(third, first);
    assert_eq!(world.get_sprite_position(first), None);
    assert_eq!(world.get_sprite_position(third), Some((0, 0)));
}

#[test]
fn mutators_ignore_ids_that_name_no_live_sprite() {
    let mut world = World::new(10, 10);
    let id = world.create_rect_sprite(2, 2, 255, 0, 0, 255);
    world.remove_sprite(id);
    for ghost in [id, 1, 1000, u32::MAX] {
        place(&mut world, ghost, 1.0, 2.0);
        world.set_sprite_zindex(ghost, 3);
        world.reset_sprite_transform(ghost);
        world.apply_sprite_rotation(ghost, vec![0; 16], 2, 2);
        world.apply_sprite_scale(ghost, vec![0; 16], 2, 2);
        world.apply_sprite_transform(ghost, vec![0; 16], 2, 2);
        world.add_to_scene(ghost);
        world.remove_from_scene(ghost);
        world.remove_sprite(ghost);
        assert_eq!(world.get_sprite_position(ghost), None);
        assert_eq!(world.get_sprite_zindex(ghost), None);
    }
    assert_eq!(world.sprites().len(), 1);
    assert!(world.scenes().members(0).is_empty());
    assert_eq!(world.sprites().display_data(id), &[255, 0, 0, 255].repeat(4)[..]);
}

#[test]
fn create_sprite_keeps_the_given_bytes() {
    let mut world = World::new(10, 10);
    let bytes: Vec<u8> = (0..24).collect();
    let id = world.create_sprite(&bytes, 3, 2);
    assert_eq!(world.sprites().original_size(id), (3, 2));
    assert_eq!(world.sprites().display_size(id), (3, 2));
    assert_eq!(world.sprites().original_data(id), &bytes[..]);
    assert_eq!(world.sprites().display_data(id), &bytes[..]);
    assert_eq!(world.get_sprite_position(id), Some((0, 0)));
    assert_eq!(world.get_sprite_zindex(id), Some(0));
}

#[test]
fn rect_sprite_is_of_one_colour() {
    let mut world = World::new(10, 10);
    let id = world.create_rect_sprite(3, 2, 10, 20, 30, 40);
    assert_eq!(world.sprites().original_size(id), (3, 2));
    assert_eq!(world.sprites().display_data(id), &[10, 20, 30, 40].repeat(6)[..]);
    let empty = world.create_rect_sprite(0, 5, 1, 1, 1, 1);
    assert_eq!(world.sprites().display_data(empty).len(), 0);
}

#[test]
fn end_to_end_red_square_on_black() {
    let mut world = World::new(100, 100);
    let id = world.create_rect_sprite(10, 10, 255, 0, 0, 255);
    world.add_to_scene(id);
    render(&mut world);
    assert_eq!(world.scene_data_len(), 100 * 100 * 4);
    assert_eq!(world.scene_data().len(), 100 * 100 * 4);
    for y in 0..100 {
        for x in 0..100 {
            let inside = (45..55).contains(&x) && (45..55).contains(&y);
            let expected = if inside { RED } else { BLACK };
            assert_eq!(pixel(&world, x, y), expected, "pixel ({}, {})", x, y);
        }
    }
}

#[test]
fn rendering_twice_gives_the_same_bytes() {
    let mut world = World::new(32, 24);
    let a = world.create_rect_sprite(10, 10, 255, 0, 0, 128);
    let b = world.create_rect_sprite(6, 8, 0, 255, 0, 200);
    world.add_to_scene(a);
    world.add_to_scene(b);
    place(&mut world, b, 3.0, -2.0);
    world.set_background_color(10, 20, 30, 255);
    render(&mut world);
    let first = world.scene_data().to_vec();
    render(&mut world);
    assert_eq!(world.scene_data(), &first[..]);
}

#[test]
fn draw_order_follows_the_z_index() {
    let mut world = World::new(20, 20);
    let red = world.create_rect_sprite(10, 10, 255, 0, 0, 255);
    let green = world.create_rect_sprite(10, 10, 0, 255, 0, 255);
    world.add_to_scene(red);
    world.add_to_scene(green);
    world.set_sprite_zindex(green, 1);
    render(&mut world);
    assert_eq!(pixel(&world, 10, 10), GREEN);
    assert_eq!(world.sprites().draw_order(world.scenes().members(0)), vec![red, green]);

    world.set_sprite_zindex(red, 2);
    assert!(world.scenes().order_stale(0));
    render(&mut world);
    assert!(!world.scenes().order_stale(0));
    assert_eq!(pixel(&world, 10, 10), RED);
    assert_eq!(world.sprites().draw_order(world.scenes().members(0)), vec![green, red]);

    world.set_sprite_zindex(red, -5);
    render(&mut world);
    assert_eq!(pixel(&world, 10, 10), GREEN);
}

#[test]
fn equal_z_index_keeps_the_order_of_insertion() {
    let mut world = World::new(20, 20);
    let red = world.create_rect_sprite(10, 10, 255, 0, 0, 255);
    let green = world.create_rect_sprite(10, 10, 0, 255, 0, 255);
    let blue = world.create_rect_sprite(10, 10, 0, 0, 255, 255);
    world.add_to_scene(green);
    world.add_to_scene(blue);
    world.add_to_scene(red);
    assert_eq!(
        world.sprites().draw_order(world.scenes().members(0)),
        vec![green, blue, red]
    );
    render(&mut world);
    assert_eq!(pixel(&world, 10, 10), RED);

    world.set_sprite_zindex(green, 1);
    world.set_sprite_zindex(red, 1);
    assert_eq!(
        world.sprites().draw_order(world.scenes().members(0)),
        vec![blue, green, red]
    );
    world.set_sprite_zindex(blue, 1);
    assert_eq!(
        world.sprites().draw_order(world.scenes().members(0)),
        vec![green, blue, red]
    );
}

#[test]
fn background_change_shows_at_untouched_pixels() {
    let mut world = World::new(20, 20);
    let id = world.create_rect_sprite(4, 4, 255, 0, 0, 255);
    world.add_to_scene(id);
    render(&mut world);
    assert_eq!(pixel(&world, 0, 0), BLACK);
    assert!(!world.scenes().order_stale(0));

    world.set_background_color(1, 2, 3, 4);
    render(&mut world);
    for y in 0..20 {
        for x in 0..20 {
            let inside = (8..12).contains(&x) && (8..12).contains(&y);
            let expected = if inside { RED } else { [1, 2, 3, 4] };
            assert_eq!(pixel(&world, x, y), expected);
        }
    }
}

#[test]
fn half_transparent_sprite_is_blended_over_the_background() {
    let mut world = World::new(4, 4);
    let id = world.create_rect_sprite(2, 2, 200, 100, 50, 128);
    world.add_to_scene(id);
    render(&mut world);
    assert_eq!(pixel(&world, 1, 1), [100, 50, 25, 255]);
    assert_eq!(pixel(&world, 2, 2), [100, 50, 25, 255]);
    assert_eq!(pixel(&world, 0, 0), BLACK);
    assert_eq!(pixel(&world, 3, 3), BLACK);
}

#[test]
fn fully_transparent_sprite_changes_nothing() {
    let mut world = World::new(4, 4);
    world.set_background_color(9, 8, 7, 6);
    let id = world.create_rect_sprite(4, 4, 200, 100, 50, 0);
    world.add_to_scene(id);
    render(&mut world);
    assert_eq!(world.scene_data(), &[9, 8, 7, 6].repeat(16)[..]);
}

#[test]
fn sprite_is_clipped_at_the_edges() {
    let mut world = World::new(10, 10);
    let id = world.create_rect_sprite(4, 4, 255, 0, 0, 255);
    world.add_to_scene(id);
    place(&mut world, id, -5.0, -5.0);
    render(&mut world);
    for y in 0..10 {
        for x in 0..10 {
            let expected = if x < 2 && y < 2 { RED } else { BLACK };
            assert_eq!(pixel(&world, x, y), expected);
        }
    }
    place(&mut world, id, 100.0, 0.0);
    render(&mut world);
    assert_eq!(world.scene_data(), &BLACK.repeat(100)[..]);
    place(&mut world, id, -100.0, -100.0);
    render(&mut world);
    assert_eq!(world.scene_data(), &BLACK.repeat(100)[..]);
}

#[test]
fn removed_sprite_is_not_drawn() {
    let mut world = World::new(10, 10);
    let id = world.create_rect_sprite(4, 4, 255, 0, 0, 255);
    world.add_to_scene(id);
    render(&mut world);
    assert_eq!(pixel(&world, 5, 5), RED);
    world.remove_sprite(id);
    assert!(world.scenes().members(0).is_empty());
    assert!(world.scenes().order_stale(0));
    render(&mut world);
    assert_eq!(world.scene_data(), &BLACK.repeat(100)[..]);
}

#[test]
fn sprite_outside_the_scene_list_is_not_drawn() {
    let mut world = World::new(10, 10);
    let id = world.create_rect_sprite(4, 4, 255, 0, 0, 255);
    render(&mut world);
    assert_eq!(world.scene_data(), &BLACK.repeat(100)[..]);
    world.add_to_scene(id);
    world.add_to_scene(id);
    assert_eq!(world.scenes().members(0), &vec![id]);
    render(&mut world);
    assert_eq!(pixel(&world, 5, 5), RED);
    world.remove_from_scene(id);
    render(&mut world);
    assert_eq!(world.scene_data(), &BLACK.repeat(100)[..]);
    assert!(world.sprites().is_active(id));
}

#[test]
fn sprite_without_a_layer_is_not_drawn() {
    let mut world = World::new(10, 10);
    let id = world.create_rect_sprite(4, 4, 255, 0, 0, 255);
    world.add_to_scene(id);
    world.render(&Vec::new());
    assert_eq!(world.scene_data(), &BLACK.repeat(100)[..]);
}

#[test]
fn layer_beyond_the_scene_is_clipped() {
    let mut world = World::new(4, 4);
    let id = world.create_rect_sprite(1, 1, 0, 0, 0, 0);
    world.add_to_scene(id);
    let layer = Layer::new(2, 3, 5, 5, GREEN.repeat(25)).unwrap();
    world.render(&vec![layer]);
    for y in 0..4 {
        for x in 0..4 {
            let expected = if x >= 2 && y >= 3 { GREEN } else { BLACK };
            assert_eq!(pixel(&world, x, y), expected);
        }
    }
    let far = Layer::new(u32::MAX, u32::MAX, 2, 2, GREEN.repeat(4)).unwrap();
    world.render(&vec![far]);
    assert_eq!(world.scene_data(), &BLACK.repeat(16)[..]);
}

#[test]
fn scenes_have_their_own_members() {
    let mut world = World::new(10, 10);
    let second = world.create_scene(5, 6);
    assert_eq!(second, 1);
    assert_eq!(world.create_scene(0, 0), 2);
    let id = world.create_rect_sprite(2, 2, 255, 0, 0, 255);
    world.add_sprite_to_scene(id, second);
    assert!(world.scenes().members(0).is_empty());
    assert_eq!(world.scenes().members(second), &vec![id]);
    assert_eq!(world.scenes().width(second), 5);
    assert_eq!(world.scenes().height(second), 6);
    assert_eq!(world.scenes().data(second).len(), 5 * 6 * 4);
    world.add_sprite_to_scene(id, 17);
    world.add_to_scene(id);
    world.remove_sprite(id);
    assert!(world.scenes().members(0).is_empty());
    assert!(world.scenes().members(second).is_empty());
}

#[test]
fn scene_z_index_is_kept() {
    let mut world = World::new(10, 10);
    assert_eq!(world.get_scene_zindex(0), Some(0));
    world.set_scene_zindex(0, -3);
    assert_eq!(world.get_scene_zindex(0), Some(-3));
    world.set_scene_zindex(5, 9);
    assert_eq!(world.get_scene_zindex(5), None);
}

#[test]
fn sampling_method_is_selected_by_code() {
    let mut world = World::new(10, 10);
    assert_eq!(world.get_sampling_method(), 0);
    world.set_sampling_method(1);
    assert_eq!(world.get_sampling_method(), 1);
    world.set_sampling_method(2);
    assert_eq!(world.get_sampling_method(), 2);
    world.set_sampling_method(77);
    assert_eq!(world.get_sampling_method(), 0);
}

#[test]
fn resize_gives_a_zeroed_buffer_until_the_next_render() {
    let mut world = World::new(4, 4);
    world.set_background_color(5, 6, 7, 8);
    render(&mut world);
    world.resize_scene(3, 2);
    assert_eq!(world.scene_width(), 3);
    assert_eq!(world.scene_height(), 2);
    assert_eq!(world.scene_data_len(), 3 * 2 * 4);
    assert!(world.scene_data().iter().all(|&b| b == 0));
    render(&mut world);
    assert_eq!(world.scene_data(), &[5, 6, 7, 8].repeat(6)[..]);
    world.resize_scene(0, 7);
    render(&mut world);
    assert_eq!(world.scene_data_len(), 0);
}

#[test]
fn baked_bitmap_replaces_the_display_bitmap() {
    let mut world = World::new(10, 10);
    let id = world.create_rect_sprite(2, 2, 255, 0, 0, 255);
    world.add_to_scene(id);
    world.apply_sprite_scale(id, GREEN.repeat(16), 4, 4);
    assert_eq!(world.sprites().display_size(id), (4, 4));
    assert_eq!(world.sprites().original_size(id), (2, 2));
    assert_eq!(world.sprites().original_data(id), &RED.repeat(4)[..]);
    render(&mut world);
    for y in 0..10 {
        for x in 0..10 {
            let inside = (3..7).contains(&x) && (3..7).contains(&y);
            assert_eq!(pixel(&world, x, y), if inside { GREEN } else { BLACK });
        }
    }
    world.apply_sprite_rotation(id, RED.repeat(6), 3, 2);
    assert_eq!(world.sprites().display_size(id), (3, 2));
    world.apply_sprite_transform(id, GREEN.repeat(2), 1, 2);
    assert_eq!(world.sprites().display_size(id), (1, 2));
    assert_eq!(world.sprites().display_data(id), &GREEN.repeat(2)[..]);

    world.reset_sprite_transform(id);
    assert_eq!(world.sprites().display_size(id), (2, 2));
    assert_eq!(world.sprites().display_data(id), &RED.repeat(4)[..]);
}

#[test]
fn degenerate_bakes_change_nothing() {
    let mut world = World::new(10, 10);
    let id = world.create_rect_sprite(2, 2, 255, 0, 0, 255);
    world.apply_sprite_scale(id, Vec::new(), 0, 4);
    world.apply_sprite_scale(id, Vec::new(), 4, 0);
    world.apply_sprite_transform(id, Vec::new(), 0, 0);
    world.apply_sprite_scale(id, vec![0; 15], 2, 2);
    world.apply_sprite_rotation(id, vec![0; 17], 2, 2);
    world.apply_sprite_transform(id, vec![0; 4], 2, 2);
    assert_eq!(world.sprites().display_size(id), (2, 2));
    assert_eq!(world.sprites().display_data(id), &RED.repeat(4)[..]);
    world.apply_sprite_rotation(id, Vec::new(), 0, 3);
    assert_eq!(world.sprites().display_size(id), (0, 3));
}

#[test]
fn position_is_kept_bit_for_bit() {
    let mut world = World::new(10, 10);
    let id = world.create_rect_sprite(2, 2, 255, 0, 0, 255);
    for bits in [0u32, 1, 0x7fc0_0001, 0x8000_0000, u32::MAX, 1.5f32.to_bits()] {
        world.set_sprite_position(id, bits, !bits);
        assert_eq!(world.get_sprite_position(id), Some((bits, !bits)));
    }
}

#[test]
fn supersampled_frame_of_a_square_on_whole_pixels() {
    let mut world = World::new(10, 10);
    world.set_sampling_method(2);
    let id = world.create_rect_sprite(4, 4, 255, 0, 0, 255);
    world.add_to_scene(id);
    render(&mut world);
    for y in 0..10 {
        for x in 0..10 {
            let inside = (3..7).contains(&x) && (3..7).contains(&y);
            assert_eq!(pixel(&world, x, y), if inside { RED } else { BLACK });
        }
    }
}

#[test]
fn supersampled_frame_blends_two_colours_at_half_a_pixel() {
    let mut world = World::new(4, 2);
    world.set_background_color(0, 0, 0, 0);
    let id = world.create_sprite(&[200, 0, 0, 255, 0, 100, 0, 255], 2, 1);
    world.add_to_scene(id);
    place(&mut world, id, 0.5, 0.0);
    world.set_sampling_method(2);
    render(&mut world);
    // The sample point of scene column 2 lies at 0.5 in the sprite: its
    // sub-samples round to the columns 0 and 1. Those of column 1 round to
    // -1 and 0, those of column 3 to 1 and 2; in both rows the sub-samples
    // round to row 0 and to a row outside the sprite.
    for y in 0..2 {
        assert_eq!(pixel(&world, 0, y), [0, 0, 0, 0]);
        assert_eq!(pixel(&world, 1, y), [200, 0, 0, 255]);
        assert_eq!(pixel(&world, 2, y), [100, 50, 0, 255]);
        assert_eq!(pixel(&world, 3, y), [0, 100, 0, 255]);
    }
}

#[test]
fn topmost_sprite_hides_the_ones_below() {
    let mut world = World::new(6, 6);
    let bottom = world.create_rect_sprite(6, 6, 10, 10, 10, 255);
    let middle = world.create_rect_sprite(4, 4, 0, 255, 0, 255);
    let top = world.create_rect_sprite(2, 2, 255, 0, 0, 255);
    world.add_to_scene(top);
    world.add_to_scene(middle);
    world.add_to_scene(bottom);
    world.set_sprite_zindex(top, 3);
    world.set_sprite_zindex(middle, 2);
    world.set_sprite_zindex(bottom, 1);
    render(&mut world);
    for y in 0..6 {
        for x in 0..6 {
            let expected = if (2..4).contains(&x) && (2..4).contains(&y) {
                RED
            } else if (1..5).contains(&x) && (1..5).contains(&y) {
                GREEN
            } else {
                [10, 10, 10, 255]
            };
            assert_eq!(pixel(&world, x, y), expected);
        }
    }
}

fn tap(near: i32, lo: i32, hi: i32) -> AxisTap {
    AxisTap { near, lo, hi }
}

fn no_placement() -> Placement {
    Placement { left: 0, top: 0, cols: Vec::new(), rows: Vec::new(), weighted: Vec::new() }
}

#[test]
fn placed_sprite_is_sampled_from_its_own_bitmap() {
    let mut world = World::new(3, 1);
    world.set_background_color(0, 0, 0, 0);
    let id = world.create_sprite(&[1, 2, 3, 255, 4, 5, 6, 255], 2, 1);
    world.add_to_scene(id);
    let placement = Placement {
        left: 1,
        top: 0,
        cols: vec![tap(1, 1, 1), tap(0, 0, 0)],
        rows: vec![tap(0, 0, 0)],
        weighted: Vec::new(),
    };
    world.render_placed(&vec![placement]);
    assert_eq!(world.scene_data(), &[0, 0, 0, 0, 4, 5, 6, 255, 1, 2, 3, 255]);

    world.apply_sprite_scale(id, vec![9, 9, 9, 255], 1, 1);
    let placement = Placement {
        left: 0,
        top: 0,
        cols: vec![tap(0, 0, 0), tap(1, 1, 1)],
        rows: vec![tap(0, 0, 0)],
        weighted: Vec::new(),
    };
    world.render_placed(&vec![placement]);
    assert_eq!(world.scene_data(), &[9, 9, 9, 255, 0, 0, 0, 0, 0, 0, 0, 0]);
}

#[test]
fn kernel_follows_the_sampling_method_of_the_scene() {
    let mut world = World::new(1, 1);
    world.set_background_color(0, 0, 0, 0);
    let id = world.create_sprite(&[200, 0, 0, 255, 0, 100, 0, 255], 2, 1);
    world.add_to_scene(id);
    let placement = || Placement {
        left: 0,
        top: 0,
        cols: vec![tap(1, 0, 1)],
        rows: vec![tap(0, 0, 0)],
        weighted: vec![Some([7, 8, 9, 255])],
    };
    world.render_placed(&vec![placement()]);
    assert_eq!(world.scene_data(), &[0, 100, 0, 255]);
    world.set_sampling_method(2);
    world.render_placed(&vec![placement()]);
    assert_eq!(world.scene_data(), &[100, 50, 0, 255]);
    world.set_sampling_method(1);
    world.render_placed(&vec![placement()]);
    assert_eq!(world.scene_data(), &[7, 8, 9, 255]);
}

#[test]
fn weighted_colours_fill_the_rectangle_row_by_row() {
    let mut world = World::new(3, 2);
    world.set_background_color(0, 0, 0, 0);
    world.set_sampling_method(1);
    let id = world.create_rect_sprite(1, 1, 50, 50, 50, 255);
    world.add_to_scene(id);
    let placement = Placement {
        left: 1,
        top: 0,
        cols: vec![tap(0, 0, 0), tap(0, 0, 0)],
        rows: vec![tap(0, 0, 0), tap(0, 0, 0)],
        weighted: vec![Some([1, 1, 1, 255]), None, Some([3, 3, 3, 255])],
    };
    world.render_placed(&vec![placement]);
    assert_eq!(
        world.scene_data(),
        &[
            0, 0, 0, 0, 1, 1, 1, 255, 0, 0, 0, 0, //
            0, 0, 0, 0, 3, 3, 3, 255, 0, 0, 0, 0,
        ]
    );
}

#[test]
fn only_members_with_a_placement_are_drawn() {
    let mut world = World::new(2, 1);
    let red = world.create_rect_sprite(1, 1, 255, 0, 0, 255);
    let green = world.create_rect_sprite(1, 1, 0, 255, 0, 255);
    let here = |left: u32| Placement {
        left,
        top: 0,
        cols: vec![tap(0, 0, 0)],
        rows: vec![tap(0, 0, 0)],
        weighted: Vec::new(),
    };
    // no sprite is a member
    world.render_placed(&vec![here(0), here(1)]);
    assert_eq!(world.scene_data(), &[0, 0, 0, 255, 0, 0, 0, 255]);
    // green is a member, red is not
    world.add_to_scene(green);
    world.render_placed(&vec![here(0), here(1)]);
    assert_eq!(world.scene_data(), &[0, 0, 0, 255, 0, 255, 0, 255]);
    // both are members, green has no placement
    world.add_to_scene(red);
    world.render_placed(&vec![here(0)]);
    assert_eq!(world.scene_data(), &[255, 0, 0, 255, 0, 0, 0, 255]);
    world.render_placed(&vec![no_placement(), here(0)]);
    assert_eq!(world.scene_data(), &[0, 255, 0, 255, 0, 0, 0, 255]);
    world.render_placed(&Vec::new());
    assert_eq!(world.scene_data(), &[0, 0, 0, 255, 0, 0, 0, 255]);
    // a removed sprite is no member any more
    world.remove_sprite(red);
    world.render_placed(&vec![here(0), here(1)]);
    assert_eq!(world.scene_data(), &[0, 0, 0, 255, 0, 255, 0, 255]);
}

#[test]
fn placed_frames_follow_the_z_index() {
    let mut world = World::new(1, 1);
    let red = world.create_rect_sprite(1, 1, 255, 0, 0, 255);
    let green = world.create_rect_sprite(1, 1, 0, 255, 0, 255);
    world.add_to_scene(red);
    world.add_to_scene(green);
    let here = || Placement {
        left: 0,
        top: 0,
        cols: vec![tap(0, 0, 0)],
        rows: vec![tap(0, 0, 0)],
        weighted: Vec::new(),
    };
    world.render_placed(&vec![here(), here()]);
    assert_eq!(world.scene_data(), &GREEN);
    world.set_sprite_zindex(red, 1);
    world.render_placed(&vec![here(), here()]);
    assert_eq!(world.scene_data(), &RED);
    let first = world.scene_data().to_vec();
    world.render_placed(&vec![here(), here()]);
    assert_eq!(world.scene_data(), &first[..]);
}

#[test]
fn z_index_of_a_removed_sprite_is_absent() {
    let mut world = World::new(100, 100);
    let id = world.create_rect_sprite(10, 10, 255, 0, 0, 255);
    assert_eq!(id, 0);
    assert_eq!(world.get_sprite_zindex(0), Some(0));
    world.set_sprite_zindex(0, 5);
    assert_eq!(world.get_sprite_zindex(0), Some(5));
    world.remove_sprite(0);
    assert_eq!(world.get_sprite_zindex(0), None);
    assert_eq!(world.get_sprite_zindex(1), None);
}
