use vstd::prelude::*;
use crate::blend::{lemma_over_opaque, lemma_over_transparent};
use crate::frame::{composite_pixel, frame, lemma_composite_len, lemma_frame_len, lemma_frame_shows};
use crate::layer::{LayerView, Placement};
use crate::pixels::{pixel_index, pixel_of};
use crate::scenes::{scene_wf, with_background};
use crate::sprites::{draw_order, is_live, lemma_draw_order_ascending};
use crate::world::{scene_linked, WorldState};

verus! {

/// A new sprite gets the id that is the number of sprites created before
/// it, is live, and leaves every other sprite as it was.
pub proof fn lemma_sprite_ids_count_up(world: WorldState, pixels: Seq<u8>, width: u32, height: u32)
    requires
        world.sprites.len() < u32::MAX,
    ensures
        world.after_create_sprite(pixels, width, height).sprites.len() == world.sprites.len() + 1,
        is_live(
            world.after_create_sprite(pixels, width, height).sprites,
            world.sprites.len() as u32,
        ),
        forall|id: u32|
            id < world.sprites.len() ==> world.after_create_sprite(
                pixels,
                width,
                height,
            ).sprites[id as int] == world.sprites[id as int],
{
}

/// A removed sprite is not live, and stays so when a sprite is created
/// afterwards: the new sprite gets another id.
pub proof fn lemma_removed_id_not_reused(
    world: WorldState,
    id: u32,
    pixels: Seq<u8>,
    width: u32,
    height: u32,
)
    requires
        id < world.sprites.len(),
    ensures
        !is_live(world.after_remove_sprite(id).sprites, id),
        world.after_remove_sprite(id).sprites.len() == world.sprites.len(),
        !is_live(
            world.after_remove_sprite(id).after_create_sprite(pixels, width, height).sprites,
            id,
        ),
{
}

/// After a sprite was removed, no scene has it as a member.
pub proof fn lemma_removed_from_every_scene(world: WorldState, id: u32, scene: int)
    requires
        0 <= scene < world.scenes.len(),
    ensures
        !world.after_remove_sprite(id).scenes[scene].members.contains(id),
{
    crate::members::lemma_without_contains(world.scenes[scene].members, id);
}

/// Rendering twice with the same layers and nothing changed in between
/// gives what rendering once gives: the same buffer, and the same world.
pub proof fn lemma_render_idempotent(world: WorldState, layers: Seq<LayerView>)
    requires
        world.wf(),
    ensures
        world.after_render(layers).after_render(layers) == world.after_render(layers),
        world.after_render(layers).after_render(layers).stage().pixels == world.after_render(
            layers,
        ).stage().pixels,
{
    let once = world.after_render(layers);
    let twice = once.after_render(layers);
    assert(once.stage().members == world.stage().members);
    assert(twice.scenes =~= once.scenes);
}

/// Rendering does not change what the sprites show at given placements, so
/// rendering twice at the same placements with nothing changed in between
/// gives what rendering once gives.
pub proof fn lemma_placed_render_idempotent(world: WorldState, placements: Seq<Placement>)
    requires
        world.wf(),
    ensures
        world.after_render(world.sampled_layers(placements)).sampled_layers(placements)
            == world.sampled_layers(placements),
        world.after_render(world.sampled_layers(placements)).after_render(
            world.sampled_layers(placements),
        ) == world.after_render(world.sampled_layers(placements)),
{
    let layers = world.sampled_layers(placements);
    let once = world.after_render(layers);
    assert(once.stage().members == world.stage().members);
    assert(once.stage().sampling == world.stage().sampling);
    assert(once.sampled_layers(placements) =~= layers);
    lemma_render_idempotent(world, layers);
}

/// Rendering leaves a well-formed world well formed.
pub proof fn lemma_render_keeps_wf(world: WorldState, layers: Seq<LayerView>)
    requires
        world.wf(),
    ensures
        world.after_render(layers).wf(),
{
    let after = world.after_render(layers);
    lemma_frame_len(
        world.stage().background,
        world.stage().width,
        world.stage().height,
        draw_order(world.stage().members, world.sprites),
        layers,
    );
    assert forall|i: int| 0 <= i < after.scenes.len() implies scene_wf(#[trigger] after.scenes[i])
        && scene_linked(after.scenes[i], after.sprites) by {
        assert(scene_wf(world.scenes[i]));
        assert(scene_linked(world.scenes[i], world.sprites));
    }
}

/// After the z-index of a live sprite was changed, the next render draws
/// by the new z-indexes: the draw order of the default scene holds its
/// members and no other id, and their z-indexes, the changed one among
/// them, never fall from one to the next.
pub proof fn lemma_render_after_zindex(world: WorldState, id: u32, z: i32, layers: Seq<LayerView>)
    requires
        world.wf(),
        is_live(world.sprites, id),
    ensures
        ({
            let after = world.after_set_zindex(id, z).after_render(layers);
            let order = after.stage().order;
            &&& after.sprites[id as int].z == z
            &&& !after.stage().order_stale
            &&& after.stage().members == world.stage().members
            &&& forall|k: int|
                0 <= k < after.stage().members.len() ==> order.contains(
                    #[trigger] after.stage().members[k],
                )
            &&& forall|i: int|
                0 <= i < order.len() ==> after.stage().members.contains(#[trigger] order[i])
            &&& forall|a: int, b: int|
                0 <= a < b < order.len() ==> after.sprites[order[a] as int].z
                    <= after.sprites[order[b] as int].z
        }),
{
    let moved = world.after_set_zindex(id, z);
    let after = moved.after_render(layers);
    let members = world.stage().members;
    assert(scene_linked(world.stage(), world.sprites));
    assert(moved.stage().members == members);
    assert(after.stage().order == draw_order(members, moved.sprites));
    lemma_draw_order_ascending(members, moved.sprites);
    assert forall|k: int| 0 <= k < members.len() implies is_live(
        moved.sprites,
        #[trigger] members[k],
    ) by {
        assert(is_live(world.sprites, members[k]));
    }
}

/// Whether no layer of the sprites in `order` shows anything at the scene
/// pixel `(x, y)`: each either does not cover the pixel or is fully
/// transparent there.
pub open spec fn untouched(order: Seq<u32>, layers: Seq<LayerView>, x: int, y: int) -> bool {
    forall|i: int|
        0 <= i < order.len() && (#[trigger] order[i]) < layers.len() ==> {
            ||| !layers[order[i] as int].covers(x, y)
            ||| layers[order[i] as int].color_at(x, y)[3] == 0
        }
}

/// A pixel at which no layer shows anything is composited to the
/// background.
pub proof fn lemma_untouched_is_background(
    background: Seq<u8>,
    order: Seq<u32>,
    layers: Seq<LayerView>,
    x: int,
    y: int,
)
    requires
        background.len() == 4,
        untouched(order, layers, x, y),
    ensures
        composite_pixel(background, order, layers, x, y) == background,
    decreases order.len(),
{
    if order.len() > 0 {
        let front = order.drop_last();
        assert forall|i: int| 0 <= i < front.len() && (#[trigger] front[i]) < layers.len() implies {
            ||| !layers[front[i] as int].covers(x, y)
            ||| layers[front[i] as int].color_at(x, y)[3] == 0
        } by {
            assert(front[i] == order[i]);
        }
        lemma_untouched_is_background(background, front, layers, x, y);
        let id = order.last();
        assert(id == order[order.len() - 1]);
        if id < layers.len() && layers[id as int].covers(x, y) {
            lemma_over_transparent(background, layers[id as int].color_at(x, y));
        }
    }
}

/// Where a sprite shows an opaque pixel and no sprite that is drawn after
/// it shows anything, the composite is the colour of that sprite: what is
/// drawn later lies on top.
pub proof fn lemma_topmost_opaque_shows(
    background: Seq<u8>,
    order: Seq<u32>,
    layers: Seq<LayerView>,
    k: int,
    x: int,
    y: int,
)
    requires
        background.len() == 4,
        0 <= k < order.len(),
        order[k] < layers.len(),
        layers[order[k] as int].covers(x, y),
        layers[order[k] as int].color_at(x, y).len() == 4,
        layers[order[k] as int].color_at(x, y)[3] == 255,
        untouched(order.subrange(k + 1, order.len() as int), layers, x, y),
    ensures
        composite_pixel(background, order, layers, x, y) == layers[order[k] as int].color_at(
            x,
            y,
        ),
    decreases order.len(),
{
    let front = order.drop_last();
    let below = composite_pixel(background, front, layers, x, y);
    lemma_composite_len(background, front, layers, x, y);
    if k == order.len() - 1 {
        lemma_over_opaque(below, layers[order[k] as int].color_at(x, y));
    } else {
        let after = order.subrange(k + 1, order.len() as int);
        let id = order.last();
        assert(after[after.len() - 1] == id);
        assert(front[k] == order[k]);
        assert forall|i: int|
            0 <= i < front.subrange(k + 1, front.len() as int).len() && (#[trigger] front.subrange(
                k + 1,
                front.len() as int,
            )[i]) < layers.len() implies {
            ||| !layers[front.subrange(k + 1, front.len() as int)[i] as int].covers(x, y)
            ||| layers[front.subrange(k + 1, front.len() as int)[i] as int].color_at(x, y)[3]
                == 0
        } by {
            assert(front.subrange(k + 1, front.len() as int)[i] == after[i]);
        }
        lemma_topmost_opaque_shows(background, front, layers, k, x, y);
        if id < layers.len() && layers[id as int].covers(x, y) {
            lemma_over_transparent(below, layers[id as int].color_at(x, y));
        }
    }
}

/// After the background colour was changed, the next render shows the new
/// colour, byte for byte, at every pixel at which no sprite shows anything.
pub proof fn lemma_render_after_background(
    world: WorldState,
    color: Seq<u8>,
    layers: Seq<LayerView>,
    x: int,
    y: int,
)
    requires
        world.wf(),
        color.len() == 4,
        0 <= x < world.stage().width,
        0 <= y < world.stage().height,
        untouched(draw_order(world.stage().members, world.sprites), layers, x, y),
    ensures
        pixel_of(
            world.with_stage(with_background(world.stage(), color)).after_render(
                layers,
            ).stage().pixels,
            pixel_index(world.stage().width as int, x, y),
        ) == color,
{
    let stage = world.stage();
    let recolored = world.with_stage(with_background(stage, color));
    let after = recolored.after_render(layers);
    let order = draw_order(stage.members, world.sprites);
    assert(recolored.stage().background == color);
    assert(recolored.stage().members == stage.members);
    assert(after.stage().pixels == frame(
        color,
        stage.width,
        stage.height,
        order,
        layers,
    ));
    lemma_frame_shows(color, stage.width, stage.height, order, layers);
    lemma_untouched_is_background(color, order, layers, x, y);
}

} // verus!
