use vstd::prelude::*;
use crate::layer::{views_of, Layer, LayerView, Placement};
use crate::members;
use crate::pixels::{byte_len, copy_of, filled, solid, Bitmap};
use crate::sampling::SamplingMethod;
use crate::scenes::{
    fits,
    fresh_scene,
    painted,
    resized,
    scene_wf,
    scenes_wf,
    with_background,
    with_member,
    with_moved_member,
    without_member,
    SceneState,
    SceneStore,
};
use crate::sprites::{
    draw_order,
    fresh_sprite,
    is_live,
    lemma_draw_order_agrees,
    sprites_wf,
    SpriteState,
    SpriteStore,
};

verus! {

/// A world, as plain values.
pub struct WorldState {
    pub sprites: Seq<SpriteState>,
    pub scenes: Seq<SceneState>,
    /// The scene that the world was made with, which most operations act
    /// on.
    pub default_scene: u32,
}

/// Whether a scene agrees with the sprites: its members are live, and its
/// draw order, unless marked stale, is the one that the sprites give.
pub open spec fn scene_linked(scene: SceneState, sprites: Seq<SpriteState>) -> bool {
    &&& forall|k: int| 0 <= k < scene.members.len() ==> is_live(sprites, #[trigger] scene.members[k])
    &&& !scene.order_stale ==> scene.order == draw_order(scene.members, sprites)
}

impl WorldState {
    /// The sprites and the scenes are well formed, the default scene exists,
    /// and every scene agrees with the sprites.
    pub open spec fn wf(self) -> bool {
        &&& sprites_wf(self.sprites)
        &&& scenes_wf(self.scenes)
        &&& self.default_scene < self.scenes.len()
        &&& forall|i: int|
            0 <= i < self.scenes.len() ==> scene_linked(#[trigger] self.scenes[i], self.sprites)
    }

    /// The default scene.
    pub open spec fn stage(self) -> SceneState {
        self.scenes[self.default_scene as int]
    }

    /// The world with its default scene replaced.
    pub open spec fn with_stage(self, scene: SceneState) -> WorldState {
        WorldState { scenes: self.scenes.update(self.default_scene as int, scene), ..self }
    }

    /// The world with one sprite replaced.
    pub open spec fn with_sprite(self, id: u32, sprite: SpriteState) -> WorldState {
        WorldState { sprites: self.sprites.update(id as int, sprite), ..self }
    }

    /// The world after a sprite was created from a bitmap: the sprite stands
    /// at the end, under the id that is the number of sprites before it.
    pub open spec fn after_create_sprite(self, pixels: Seq<u8>, width: u32, height: u32)
        -> WorldState {
        WorldState { sprites: self.sprites.push(fresh_sprite(pixels, width, height)), ..self }
    }

    /// The world after a sprite was removed: the sprite is no longer live,
    /// and no scene has it as a member.
    pub open spec fn after_remove_sprite(self, id: u32) -> WorldState {
        WorldState {
            sprites: if id < self.sprites.len() {
                self.sprites.update(
                    id as int,
                    SpriteState { active: false, ..self.sprites[id as int] },
                )
            } else {
                self.sprites
            },
            scenes: Seq::new(self.scenes.len(), |i: int| without_member(self.scenes[i], id)),
            ..self
        }
    }

    /// The world after a sprite was given a position; a no-op unless the
    /// sprite is live.
    pub open spec fn after_set_position(self, id: u32, x: u32, y: u32) -> WorldState {
        if is_live(self.sprites, id) {
            self.with_sprite(id, SpriteState { x, y, ..self.sprites[id as int] })
        } else {
            self
        }
    }

    /// The world after a sprite was given a z-index: every scene that holds
    /// the sprite has its draw order marked stale. A no-op unless the sprite
    /// is live.
    pub open spec fn after_set_zindex(self, id: u32, z: i32) -> WorldState {
        if is_live(self.sprites, id) {
            WorldState {
                sprites: self.sprites.update(id as int, SpriteState { z, ..self.sprites[id as int] }),
                scenes: Seq::new(
                    self.scenes.len(),
                    |i: int| with_moved_member(self.scenes[i], id),
                ),
                ..self
            }
        } else {
            self
        }
    }

    /// The world after a sprite was given a new bitmap to be drawn; a no-op
    /// unless the sprite is live and the bitmap has four bytes for each
    /// pixel.
    pub open spec fn after_set_display(self, id: u32, pixels: Seq<u8>, width: u32, height: u32)
        -> WorldState {
        if is_live(self.sprites, id) && pixels.len() == byte_len(width as int, height as int) {
            self.with_sprite(
                id,
                SpriteState { display: Bitmap { pixels, width, height }, ..self.sprites[id as int] },
            )
        } else {
            self
        }
    }

    /// The world after a sprite was set back to the bitmap it was made
    /// from; a no-op unless the sprite is live.
    pub open spec fn after_reset(self, id: u32) -> WorldState {
        if is_live(self.sprites, id) {
            self.with_sprite(
                id,
                SpriteState {
                    display: self.sprites[id as int].original,
                    ..self.sprites[id as int]
                },
            )
        } else {
            self
        }
    }

    /// The world after a scene was created.
    pub open spec fn after_create_scene(self, width: u32, height: u32) -> WorldState {
        WorldState { scenes: self.scenes.push(fresh_scene(width, height)), ..self }
    }

    /// Whether `id` names a scene that exists and is in use.
    pub open spec fn scene_live(self, id: u32) -> bool {
        id < self.scenes.len() && self.scenes[id as int].active
    }

    /// The world after a scene was given a z-index; a no-op unless the scene
    /// is in use.
    pub open spec fn after_set_scene_zindex(self, id: u32, z: i32) -> WorldState {
        if self.scene_live(id) {
            WorldState {
                scenes: self.scenes.update(id as int, SceneState { z, ..self.scenes[id as int] }),
                ..self
            }
        } else {
            self
        }
    }

    /// The world after a sprite was added to a scene; a no-op unless the
    /// scene is in use and the sprite is live.
    pub open spec fn after_add_to_scene(self, sprite: u32, scene: u32) -> WorldState {
        if self.scene_live(scene) && is_live(self.sprites, sprite) {
            WorldState {
                scenes: self.scenes.update(
                    scene as int,
                    with_member(self.scenes[scene as int], sprite),
                ),
                ..self
            }
        } else {
            self
        }
    }

    /// A layer that covers no pixel.
    pub open spec fn no_layer() -> LayerView {
        LayerView { left: 0, top: 0, width: 0, height: 0, pixels: Seq::empty() }
    }

    /// What the sprites show in a frame, where `placements[id]` says where
    /// sprite `id` lands: for each member of the default scene that has a
    /// placement, its display bitmap sampled there by the sampling method of
    /// the scene; for every other sprite, nothing.
    pub open spec fn sampled_layers(self, placements: Seq<Placement>) -> Seq<LayerView> {
        Seq::new(
            self.sprites.len(),
            |id: int|
                if id < placements.len() && self.stage().members.contains(id as u32) {
                    placements[id].sampled(self.sprites[id].display, self.stage().sampling)
                } else {
                    Self::no_layer()
                },
        )
    }

    /// The world after a frame was rendered: the default scene holds the
    /// draw order that the sprites give and the frame drawn in that order.
    pub open spec fn after_render(self, layers: Seq<LayerView>) -> WorldState {
        self.with_stage(
            painted(
                SceneState {
                    order: draw_order(self.stage().members, self.sprites),
                    order_stale: false,
                    ..self.stage()
                },
                layers,
            ),
        )
    }
}

/// The sprites, the scenes and the default scene of a rasterizer. Sprites
/// and scenes are named by ids that are never given out twice.
pub struct World {
    sprites: SpriteStore,
    scenes: SceneStore,
    default_scene: u32,
}

impl View for World {
    type V = WorldState;

    closed spec fn view(&self) -> WorldState {
        WorldState {
            sprites: self.sprites@,
            scenes: self.scenes@,
            default_scene: self.default_scene,
        }
    }
}

/// A scene keeps agreeing with the sprites when the sprites change in a way
/// that leaves its members as live as they were and their z-indexes as they
/// were.
pub proof fn lemma_still_linked(scene: SceneState, before: Seq<SpriteState>, after: Seq<SpriteState>)
    requires
        scene_linked(scene, before),
        forall|k: int|
            0 <= k < scene.members.len() ==> {
                &&& is_live(after, #[trigger] scene.members[k])
                &&& after[scene.members[k] as int].z == before[scene.members[k] as int].z
            },
    ensures
        scene_linked(scene, after),
{
    lemma_draw_order_agrees(scene.members, before, after);
}

/// A scene that a sprite is taken out of agrees with the sprites, where it
/// agreed before and the other sprites are as live as they were and have the
/// z-indexes that they had.
pub proof fn lemma_member_removed(
    was: SceneState,
    sprite: u32,
    before: Seq<SpriteState>,
    after: Seq<SpriteState>,
)
    requires
        scene_linked(was, before),
        forall|id: u32|
            id != sprite && is_live(before, id) ==> is_live(after, id) && after[id as int].z
                == before[id as int].z,
    ensures
        scene_linked(without_member(was, sprite), after),
{
    let now = without_member(was, sprite);
    if was.members.contains(sprite) {
        members::lemma_without_contains(was.members, sprite);
        assert forall|k: int| 0 <= k < now.members.len() implies is_live(
            after,
            #[trigger] now.members[k],
        ) by {
            assert(now.members.contains(now.members[k]));
            assert(was.members.contains(now.members[k]));
            let j = choose|j: int| 0 <= j < was.members.len() && was.members[j] == now.members[k];
            assert(is_live(before, was.members[j]));
        }
    } else {
        assert forall|k: int| 0 <= k < was.members.len() implies #[trigger] was.members[k]
            != sprite by {
            assert(was.members.contains(was.members[k]));
        }
        lemma_still_linked(was, before, after);
    }
}

/// A scene agrees with the sprites after the z-index of a sprite changed
/// and the draw order of the scene was marked stale if it holds the sprite.
pub proof fn lemma_member_moved(
    was: SceneState,
    sprite: u32,
    before: Seq<SpriteState>,
    after: Seq<SpriteState>,
)
    requires
        scene_linked(was, before),
        forall|id: u32| is_live(before, id) ==> is_live(after, id),
        forall|id: u32|
            id != sprite && is_live(before, id) ==> after[id as int].z == before[id as int].z,
    ensures
        scene_linked(with_moved_member(was, sprite), after),
{
    if !was.members.contains(sprite) {
        assert forall|k: int| 0 <= k < was.members.len() implies #[trigger] was.members[k]
            != sprite by {
            assert(was.members.contains(was.members[k]));
        }
        lemma_still_linked(was, before, after);
    }
}

/// A world stays well formed when only its sprites change, and change so
/// that every sprite that was live is live still and has the z-index that
/// it had.
pub proof fn lemma_sprites_changed(before: WorldState, after: WorldState)
    requires
        before.wf(),
        sprites_wf(after.sprites),
        after.scenes == before.scenes,
        after.default_scene == before.default_scene,
        forall|id: u32|
            is_live(before.sprites, id) ==> is_live(after.sprites, id) && after.sprites[id as int].z
                == before.sprites[id as int].z,
    ensures
        after.wf(),
{
    assert forall|i: int| 0 <= i < after.scenes.len() implies scene_linked(
        #[trigger] after.scenes[i],
        after.sprites,
    ) by {
        assert(scene_linked(before.scenes[i], before.sprites));
        lemma_still_linked(after.scenes[i], before.sprites, after.sprites);
    }
}

/// A world stays well formed when only one of its scenes changes, into a
/// well-formed scene that agrees with the sprites.
pub proof fn lemma_scene_changed(before: WorldState, after: WorldState, scene: int)
    requires
        before.wf(),
        0 <= scene < before.scenes.len(),
        after.sprites == before.sprites,
        after.default_scene == before.default_scene,
        after.scenes == before.scenes.update(scene, after.scenes[scene]),
        scene_wf(after.scenes[scene]),
        scene_linked(after.scenes[scene], after.sprites),
    ensures
        after.wf(),
{
    assert forall|i: int| 0 <= i < after.scenes.len() implies scene_wf(#[trigger] after.scenes[i])
        && scene_linked(after.scenes[i], after.sprites) by {
        if i != scene {
            assert(scene_wf(before.scenes[i]));
            assert(scene_linked(before.scenes[i], before.sprites));
        }
    }
}

impl World {
    /// Both stores are well formed, and the world is.
    pub closed spec fn wf(&self) -> bool {
        &&& self.sprites.wf()
        &&& self.scenes.wf()
        &&& self@.wf()
    }

    /// A well-formed world has a well-formed state.
    pub proof fn lemma_wf(&self)
        requires
            self.wf(),
        ensures
            self@.wf(),
    {
    }

    /// Makes a world without sprites, with one scene of the given size: the
    /// default scene, which has id 0.
    pub fn new(width: u32, height: u32) -> (world: World)
        requires
            fits(width, height),
        ensures
            world.wf(),
            world@ == (WorldState {
                sprites: Seq::empty(),
                scenes: seq![fresh_scene(width, height)],
                default_scene: 0,
            }),
    {
        let mut scenes = SceneStore::new();
        let default_scene = scenes.add(width, height);
        let world = World { sprites: SpriteStore::new(), scenes, default_scene };
        proof {
            world.scenes.lemma_wf();
            world.sprites.lemma_wf();
            assert(world@.scenes =~= seq![fresh_scene(width, height)]);
            assert(world@.scenes[0].members.len() == 0);
        }
        world
    }

    /// The sprites of the world.
    pub fn sprites(&self) -> (store: &SpriteStore)
        requires
            self.wf(),
        ensures
            store.wf(),
            store@ == self@.sprites,
    {
        &self.sprites
    }

    /// The scenes of the world.
    pub fn scenes(&self) -> (store: &SceneStore)
        requires
            self.wf(),
        ensures
            store.wf(),
            store@ == self@.scenes,
    {
        &self.scenes
    }

    /// The id of the default scene.
    pub fn default_scene(&self) -> (id: u32)
        requires
            self.wf(),
        ensures
            id == self@.default_scene,
            id < self@.scenes.len(),
    {
        self.default_scene
    }

    /// Creates a sprite from a bitmap of `width` by `height` pixels and
    /// returns its id. Ids count up from 0.
    pub fn create_sprite(&mut self, data: &[u8], width: u32, height: u32) -> (id: u32)
        requires
            old(self).wf(),
            old(self)@.sprites.len() < u32::MAX,
            data@.len() == byte_len(width as int, height as int),
        ensures
            final(self).wf(),
            id == old(self)@.sprites.len(),
            final(self)@ == old(self)@.after_create_sprite(data@, width, height),
    {
        let id = self.sprites.add(copy_of(data), width, height);
        proof {
            self.sprites.lemma_wf();
            lemma_sprites_changed(old(self)@, self@);
        }
        id
    }

    /// Creates a sprite of `width` by `height` pixels of one colour and
    /// returns its id.
    pub fn create_rect_sprite(&mut self, width: u32, height: u32, r: u8, g: u8, b: u8, a: u8) -> (id:
        u32)
        requires
            old(self).wf(),
            old(self)@.sprites.len() < u32::MAX,
            byte_len(width as int, height as int) <= u32::MAX,
        ensures
            final(self).wf(),
            id == old(self)@.sprites.len(),
            final(self)@ == old(self)@.after_create_sprite(
                filled(seq![r, g, b, a], width as int * height as int),
                width,
                height,
            ),
    {
        proof {
            assert(width * height <= width * height * 4) by (nonlinear_arith)
                requires
                    0 <= width,
                    0 <= height,
            ;
        }
        let count: u32 = width * height;
        let color: [u8; 4] = [r, g, b, a];
        proof {
            assert(color@ =~= seq![r, g, b, a]);
        }
        let data = solid(count as usize, color);
        self.create_sprite(data.as_slice(), width, height)
    }

    /// Removes a sprite: it is no longer live, no scene has it as a member,
    /// and the scenes that had have their draw order marked stale. Its id is
    /// not given out again.
    pub fn remove_sprite(&mut self, id: u32)
        requires
            old(self).wf(),
        ensures
            final(self).wf(),
            final(self)@ == old(self)@.after_remove_sprite(id),
    {
        self.sprites.remove(id);
        self.scenes.remove_everywhere(id);
        proof {
            self.sprites.lemma_wf();
            self.scenes.lemma_wf();
            let before = old(self)@;
            assert(self@.scenes =~= before.after_remove_sprite(id).scenes);
            assert forall|i: int| 0 <= i < self@.scenes.len() implies scene_linked(
                #[trigger] self@.scenes[i],
                self@.sprites,
            ) by {
                assert(scene_linked(before.scenes[i], before.sprites));
                lemma_member_removed(before.scenes[i], id, before.sprites, self@.sprites);
            }
        }
    }

    /// Gives a sprite a position, each coordinate as the bit pattern of a
    /// single-precision number. Does nothing unless the sprite is live.
    pub fn set_sprite_position(&mut self, id: u32, x: u32, y: u32)
        requires
            old(self).wf(),
        ensures
            final(self).wf(),
            final(self)@ == old(self)@.after_set_position(id, x, y),
    {
        self.sprites.set_position(id, x, y);
        proof {
            self.sprites.lemma_wf();
            lemma_sprites_changed(old(self)@, self@);
        }
    }

    /// The position of a live sprite, as it was set; `None` for any other
    /// id.
    pub fn get_sprite_position(&self, id: u32) -> (at: Option<(u32, u32)>)
        requires
            self.wf(),
        ensures
            at == if is_live(self@.sprites, id) {
                Some((self@.sprites[id as int].x, self@.sprites[id as int].y))
            } else {
                None
            },
    {
        self.sprites.position(id)
    }

    /// Gives a sprite a z-index and marks the draw order stale in every
    /// scene that holds the sprite. Does nothing unless the sprite is live.
    pub fn set_sprite_zindex(&mut self, id: u32, zindex: i32)
        requires
            old(self).wf(),
        ensures
            final(self).wf(),
            final(self)@ == old(self)@.after_set_zindex(id, zindex),
    {
        if self.sprites.is_active(id) {
            self.sprites.set_zindex(id, zindex);
            self.scenes.mark_moved(id);
            proof {
                self.sprites.lemma_wf();
                self.scenes.lemma_wf();
                let before = old(self)@;
                assert(self@.scenes =~= before.after_set_zindex(id, zindex).scenes);
                assert forall|i: int| 0 <= i < self@.scenes.len() implies scene_linked(
                    #[trigger] self@.scenes[i],
                    self@.sprites,
                ) by {
                    assert(scene_linked(before.scenes[i], before.sprites));
                    lemma_member_moved(before.scenes[i], id, before.sprites, self@.sprites);
                }
            }
        }
    }

    /// The z-index of a live sprite; `None` for any other id.
    pub fn get_sprite_zindex(&self, id: u32) -> (z: Option<i32>)
        requires
            self.wf(),
        ensures
            z == if is_live(self@.sprites, id) {
                Some(self@.sprites[id as int].z)
            } else {
                None
            },
    {
        self.sprites.zindex(id)
    }

    /// Replaces the bitmap that is drawn for a sprite.
    fn install_display(&mut self, id: u32, data: Vec<u8>, width: u32, height: u32)
        requires
            old(self).wf(),
        ensures
            final(self).wf(),
            final(self)@ == old(self)@.after_set_display(id, data@, width, height),
    {
        proof {
            assert(width as int * height as int <= 0xffff_ffff * 0xffff_ffff) by (nonlinear_arith)
                requires
                    0 <= width <= 0xffff_ffff,
                    0 <= height <= 0xffff_ffff,
            ;
        }
        let expected: u128 = width as u128 * height as u128 * 4;
        if self.sprites.is_active(id) && data.len() as u128 == expected {
            self.sprites.set_display(id, data, width, height);
            proof {
                self.sprites.lemma_wf();
                lemma_sprites_changed(old(self)@, self@);
            }
        }
    }

    /// Installs the outcome of a rotation bake: from now on the sprite is
    /// drawn from `data`, a bitmap of `width` by `height` pixels that the
    /// caller made. The bitmap that the sprite was created from stays as it
    /// is. Does nothing unless the sprite is live and `data` has four bytes
    /// for each pixel.
    pub fn apply_sprite_rotation(&mut self, id: u32, data: Vec<u8>, width: u32, height: u32)
        requires
            old(self).wf(),
        ensures
            final(self).wf(),
            final(self)@ == old(self)@.after_set_display(id, data@, width, height),
    {
        self.install_display(id, data, width, height);
    }

    /// Installs the outcome of a scale bake: from now on the sprite is
    /// drawn from `data`, a bitmap of `width` by `height` pixels that the
    /// caller made. The bitmap that the sprite was created from stays as it
    /// is. Does nothing where the new bitmap would have no pixels, nor
    /// unless the sprite is live and `data` has four bytes for each pixel.
    pub fn apply_sprite_scale(&mut self, id: u32, data: Vec<u8>, width: u32, height: u32)
        requires
            old(self).wf(),
        ensures
            final(self).wf(),
            final(self)@ == if width == 0 || height == 0 {
                old(self)@
            } else {
                old(self)@.after_set_display(id, data@, width, height)
            },
    {
        if width != 0 && height != 0 {
            self.install_display(id, data, width, height);
        }
    }

    /// Installs the outcome of a bake that scales and rotates: from now on
    /// the sprite is drawn from `data`, a bitmap of `width` by `height`
    /// pixels that the caller made. The bitmap that the sprite was created
    /// from stays as it is. Does nothing where the new bitmap would have no
    /// pixels, nor unless the sprite is live and `data` has four bytes for
    /// each pixel.
    pub fn apply_sprite_transform(&mut self, id: u32, data: Vec<u8>, width: u32, height: u32)
        requires
            old(self).wf(),
        ensures
            final(self).wf(),
            final(self)@ == if width == 0 || height == 0 {
                old(self)@
            } else {
                old(self)@.after_set_display(id, data@, width, height)
            },
    {
        if width != 0 && height != 0 {
            self.install_display(id, data, width, height);
        }
    }

    /// Draws a sprite from the bitmap it was made from again. Does nothing
    /// unless the sprite is live.
    pub fn reset_sprite_transform(&mut self, id: u32)
        requires
            old(self).wf(),
        ensures
            final(self).wf(),
            final(self)@ == old(self)@.after_reset(id),
    {
        if self.sprites.is_active(id) {
            self.sprites.reset_display(id);
            proof {
                self.sprites.lemma_wf();
                lemma_sprites_changed(old(self)@, self@);
            }
        }
    }

    /// Creates a scene of the given size and returns its id. Ids count up
    /// from 1; the default scene has id 0.
    pub fn create_scene(&mut self, width: u32, height: u32) -> (id: u32)
        requires
            old(self).wf(),
            old(self)@.scenes.len() < u32::MAX,
            fits(width, height),
        ensures
            final(self).wf(),
            id == old(self)@.scenes.len(),
            final(self)@ == old(self)@.after_create_scene(width, height),
    {
        let id = self.scenes.add(width, height);
        proof {
            self.scenes.lemma_wf();
            assert forall|i: int| 0 <= i < self@.scenes.len() implies scene_linked(
                #[trigger] self@.scenes[i],
                self@.sprites,
            ) by {
                if i < old(self)@.scenes.len() {
                    assert(scene_linked(old(self)@.scenes[i], old(self)@.sprites));
                } else {
                    assert(self@.scenes[i].members.len() == 0);
                }
            }
        }
        id
    }

    /// Gives a scene a z-index. Does nothing unless the scene is in use.
    pub fn set_scene_zindex(&mut self, id: u32, zindex: i32)
        requires
            old(self).wf(),
        ensures
            final(self).wf(),
            final(self)@ == old(self)@.after_set_scene_zindex(id, zindex),
    {
        if self.scenes.is_active(id) {
            self.scenes.set_zindex(id, zindex);
            proof {
                self.scenes.lemma_wf();
                lemma_scene_changed(old(self)@, self@, id as int);
            }
        }
    }

    /// The z-index of a scene that is in use; `None` for any other id.
    pub fn get_scene_zindex(&self, id: u32) -> (z: Option<i32>)
        requires
            self.wf(),
        ensures
            z == if self@.scene_live(id) {
                Some(self@.scenes[id as int].z)
            } else {
                None
            },
    {
        if self.scenes.is_active(id) {
            Some(self.scenes.zindex(id))
        } else {
            None
        }
    }

    /// Adds a sprite to the default scene.
    pub fn add_to_scene(&mut self, sprite_id: u32)
        requires
            old(self).wf(),
        ensures
            final(self).wf(),
            final(self)@ == old(self)@.after_add_to_scene(sprite_id, old(self)@.default_scene),
    {
        let scene = self.default_scene;
        self.add_sprite_to_scene(sprite_id, scene);
    }

    /// Adds a sprite to the end of a scene's members and marks the draw
    /// order of the scene stale, unless the sprite is a member already.
    /// Does nothing unless the scene is in use and the sprite is live.
    pub fn add_sprite_to_scene(&mut self, sprite_id: u32, scene_id: u32)
        requires
            old(self).wf(),
        ensures
            final(self).wf(),
            final(self)@ == old(self)@.after_add_to_scene(sprite_id, scene_id),
    {
        if self.scenes.is_active(scene_id) && self.sprites.is_active(sprite_id) {
            self.scenes.add_member(scene_id, sprite_id);
            proof {
                self.scenes.lemma_wf();
                lemma_scene_changed(old(self)@, self@, scene_id as int);
            }
        }
    }

    /// Takes a sprite out of the default scene and marks the draw order of
    /// the scene stale, if the sprite is a member.
    pub fn remove_from_scene(&mut self, sprite_id: u32)
        requires
            old(self).wf(),
        ensures
            final(self).wf(),
            final(self)@ == old(self)@.with_stage(without_member(old(self)@.stage(), sprite_id)),
    {
        self.scenes.remove_member(self.default_scene, sprite_id);
        proof {
            self.scenes.lemma_wf();
            let before = old(self)@;
            assert(scene_linked(before.stage(), before.sprites));
            lemma_member_removed(before.stage(), sprite_id, before.sprites, before.sprites);
            lemma_scene_changed(before, self@, self.default_scene as int);
        }
    }

    /// Sets the background colour of the default scene, and marks its
    /// background row stale if the colour changed.
    pub fn set_background_color(&mut self, r: u8, g: u8, b: u8, a: u8)
        requires
            old(self).wf(),
        ensures
            final(self).wf(),
            final(self)@ == old(self)@.with_stage(
                with_background(old(self)@.stage(), seq![r, g, b, a]),
            ),
    {
        let color: [u8; 4] = [r, g, b, a];
        proof {
            assert(color@ =~= seq![r, g, b, a]);
        }
        self.scenes.set_background(self.default_scene, color);
        proof {
            self.scenes.lemma_wf();
            lemma_scene_changed(old(self)@, self@, self.default_scene as int);
        }
    }

    /// Selects the sampling method of the default scene by its code: 1 for
    /// bilinear, 2 for supersampling, anything else for nearest.
    pub fn set_sampling_method(&mut self, method: u8)
        requires
            old(self).wf(),
        ensures
            final(self).wf(),
            final(self)@ == old(self)@.with_stage(
                SceneState {
                    sampling: SamplingMethod::spec_from_u8(method),
                    ..old(self)@.stage()
                },
            ),
    {
        self.scenes.set_sampling(self.default_scene, SamplingMethod::from_u8(method));
        proof {
            self.scenes.lemma_wf();
            lemma_scene_changed(old(self)@, self@, self.default_scene as int);
        }
    }

    /// The code of the sampling method of the default scene.
    pub fn get_sampling_method(&self) -> (code: u8)
        requires
            self.wf(),
        ensures
            code == self@.stage().sampling.spec_to_u8(),
    {
        self.scenes.sampling(self.default_scene).to_u8()
    }

    /// Renders a frame into the default scene. The buffer is filled with
    /// the background; the draw order is computed again if it is stale;
    /// then the layers of the sprites are laid over the buffer in draw
    /// order. Layer number `id` holds what sprite `id` shows in this frame;
    /// a sprite without a layer shows nothing.
    pub fn render(&mut self, layers: &Vec<Layer>)
        requires
            old(self).wf(),
        ensures
            final(self).wf(),
            final(self)@ == old(self)@.after_render(views_of(layers@)),
    {
        let scene = self.default_scene;
        proof {
            assert(scene_linked(old(self)@.stage(), old(self)@.sprites));
        }
        if self.scenes.order_stale(scene) {
            let order = self.sprites.draw_order(self.scenes.members(scene));
            self.scenes.set_order(scene, order);
        }
        self.scenes.paint(scene, layers);
        proof {
            self.scenes.lemma_wf();
            let before = old(self)@;
            assert(self@.scenes =~= before.after_render(views_of(layers@)).scenes);
            lemma_scene_changed(old(self)@, self@, scene as int);
        }
    }

    /// Renders a frame into the default scene, with every sprite sampled
    /// from its own display bitmap by the sampling method of the scene.
    /// `placements[id]` says where sprite `id` lands in the scene and where
    /// its sample points fall. Only the members of the scene are sampled; a
    /// member without a placement shows nothing.
    pub fn render_placed(&mut self, placements: &Vec<Placement>)
        requires
            old(self).wf(),
            forall|id: int| 0 <= id < placements@.len() ==> (#[trigger] placements@[id]).fits(),
        ensures
            final(self).wf(),
            final(self)@ == old(self)@.after_render(old(self)@.sampled_layers(placements@)),
    {
        let scene = self.default_scene;
        let method = self.scenes.sampling(scene);
        let count: usize = self.sprites.len();
        let mut layers: Vec<Layer> = Vec::new();
        let mut id: usize = 0;
        proof {
            self.sprites.lemma_wf();
        }
        while id < count
            invariant
                id <= count,
                count == self@.sprites.len(),
                count <= u32::MAX,
                self.wf(),
                self@ == old(self)@,
                scene == self@.default_scene,
                method == self@.stage().sampling,
                sprites_wf(self@.sprites),
                forall|k: int| 0 <= k < placements@.len() ==> (#[trigger] placements@[k]).fits(),
                layers@.len() == id,
                forall|k: int|
                    0 <= k < id ==> (#[trigger] layers@[k])@ == self@.sampled_layers(
                        placements@,
                    )[k],
            decreases count - id,
        {
            let sprite: u32 = id as u32;
            let layer = if id < placements.len() && members::contains(
                self.scenes.members(scene),
                sprite,
            ) {
                let size = self.sprites.display_size(sprite);
                proof {
                    assert(self@.sprites[id as int].display.wf());
                }
                placements[id].sample(self.sprites.display_data(sprite), size.0, size.1, method)
            } else {
                Layer::empty()
            };
            layers.push(layer);
            id += 1;
        }
        proof {
            assert(views_of(layers@) =~= self@.sampled_layers(placements@));
        }
        self.render(&layers);
    }

    /// The pixel buffer of the default scene, row by row from the upper
    /// left, four bytes for each pixel.
    pub fn scene_data(&self) -> (bytes: &[u8])
        requires
            self.wf(),
        ensures
            bytes@ == self@.stage().pixels,
    {
        self.scenes.data(self.default_scene)
    }

    /// The number of bytes of the default scene's pixel buffer.
    pub fn scene_data_len(&self) -> (len: usize)
        requires
            self.wf(),
        ensures
            len == self@.stage().pixels.len(),
            len == byte_len(self@.stage().width as int, self@.stage().height as int),
    {
        proof {
            self.scenes.lemma_wf();
            assert(crate::scenes::scene_wf(self@.stage()));
        }
        self.scenes.data(self.default_scene).len()
    }

    /// The width of the default scene in pixels.
    pub fn scene_width(&self) -> (width: u32)
        requires
            self.wf(),
        ensures
            width == self@.stage().width,
    {
        self.scenes.width(self.default_scene)
    }

    /// The height of the default scene in pixels.
    pub fn scene_height(&self) -> (height: u32)
        requires
            self.wf(),
        ensures
            height == self@.stage().height,
    {
        self.scenes.height(self.default_scene)
    }

    /// Gives the default scene a new size with a zeroed buffer, and marks
    /// its background row stale. Sprites keep their bitmaps.
    pub fn resize_scene(&mut self, width: u32, height: u32)
        requires
            old(self).wf(),
            fits(width, height),
        ensures
            final(self).wf(),
            final(self)@ == old(self)@.with_stage(resized(old(self)@.stage(), width, height)),
    {
        self.scenes.resize(self.default_scene, width, height);
        proof {
            self.scenes.lemma_wf();
            lemma_scene_changed(old(self)@, self@, self.default_scene as int);
        }
    }
}

} // verus!
