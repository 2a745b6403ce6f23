use vstd::prelude::*;
use crate::frame::{draw_layers, frame, lemma_composed_is_frame};
use crate::layer::{views_of, Layer, LayerView};
use crate::members;
use crate::pixels::{
    byte_len,
    fill_rows,
    filled,
    lemma_tiled_is_filled,
    opaque_black,
    solid,
    zeroed,
    zeros,
};
use crate::sampling::SamplingMethod;

verus! {

/// One scene, as plain values.
pub struct SceneState {
    /// The pixel buffer, row by row, four bytes for each pixel.
    pub pixels: Seq<u8>,
    pub width: u32,
    pub height: u32,
    pub z: i32,
    /// The four bytes of the background colour.
    pub background: Seq<u8>,
    /// The sprites of the scene, in the order in which they were added.
    pub members: Seq<u32>,
    pub sampling: SamplingMethod,
    pub active: bool,
    /// The draw order as it was last computed.
    pub order: Seq<u32>,
    /// Whether the draw order has to be computed again before it is used.
    pub order_stale: bool,
    /// One row of background pixels as it was last computed.
    pub row: Seq<u8>,
    /// Whether the background row has to be computed again before it is
    /// used.
    pub row_stale: bool,
}

/// Whether the buffer of a `width` by `height` scene and one row of it can
/// be addressed.
pub open spec fn fits(width: u32, height: u32) -> bool {
    byte_len(width as int, height as int) <= u32::MAX && 4 * width <= u32::MAX
}

/// A scene as it is right after its creation.
pub open spec fn fresh_scene(width: u32, height: u32) -> SceneState {
    SceneState {
        pixels: zeros(byte_len(width as int, height as int)),
        width,
        height,
        z: 0,
        background: opaque_black(),
        members: Seq::empty(),
        sampling: SamplingMethod::Nearest,
        active: true,
        order: Seq::empty(),
        order_stale: true,
        row: Seq::empty(),
        row_stale: true,
    }
}

/// Whether the cached background row can be used as it is.
pub open spec fn row_usable(scene: SceneState) -> bool {
    !scene.row_stale && scene.row.len() == 4 * scene.width
}

/// The buffer and the background have the right length, no sprite is a
/// member twice, and a background row that is usable holds the background.
pub open spec fn scene_wf(scene: SceneState) -> bool {
    &&& fits(scene.width, scene.height)
    &&& scene.pixels.len() == byte_len(scene.width as int, scene.height as int)
    &&& scene.background.len() == 4
    &&& scene.members.no_duplicates()
    &&& row_usable(scene) ==> scene.row == filled(scene.background, scene.width as int)
}

/// Every scene is well formed, and there are no more scenes than ids.
pub open spec fn scenes_wf(scenes: Seq<SceneState>) -> bool {
    &&& scenes.len() <= u32::MAX
    &&& forall|i: int| 0 <= i < scenes.len() ==> scene_wf(#[trigger] scenes[i])
}

/// A scene after `sprite` was added to it: at the end of the members, with
/// the draw order marked stale, unless it was a member already.
pub open spec fn with_member(scene: SceneState, sprite: u32) -> SceneState {
    if scene.members.contains(sprite) {
        scene
    } else {
        SceneState { members: scene.members.push(sprite), order_stale: true, ..scene }
    }
}

/// A scene after `sprite` was taken out of it: gone from the members, with
/// the draw order marked stale, if it was a member.
pub open spec fn without_member(scene: SceneState, sprite: u32) -> SceneState {
    if scene.members.contains(sprite) {
        SceneState { members: members::without(scene.members, sprite), order_stale: true, ..scene }
    } else {
        scene
    }
}

/// A scene after the z-index of `sprite` changed: the draw order is marked
/// stale if the sprite is a member.
pub open spec fn with_moved_member(scene: SceneState, sprite: u32) -> SceneState {
    if scene.members.contains(sprite) {
        SceneState { order_stale: true, ..scene }
    } else {
        scene
    }
}

/// A scene after its background was set: the background row is marked
/// stale if the colour changed.
pub open spec fn with_background(scene: SceneState, color: Seq<u8>) -> SceneState {
    if scene.background == color {
        scene
    } else {
        SceneState { background: color, row_stale: true, ..scene }
    }
}

/// A scene after it was resized: a zeroed buffer of the new size, and the
/// background row marked stale.
pub open spec fn resized(scene: SceneState, width: u32, height: u32) -> SceneState {
    SceneState {
        pixels: zeros(byte_len(width as int, height as int)),
        width,
        height,
        row_stale: true,
        ..scene
    }
}

/// A scene after a frame was drawn into it: the buffer holds the frame, and
/// the background row is fresh.
pub open spec fn painted(scene: SceneState, layers: Seq<LayerView>) -> SceneState {
    SceneState {
        pixels: frame(scene.background, scene.width, scene.height, scene.order, layers),
        row: filled(scene.background, scene.width as int),
        row_stale: false,
        ..scene
    }
}

/// The scenes of a world, each attribute in an array of its own. The id of
/// a scene is its index in every array.
pub struct SceneStore {
    data: Vec<Vec<u8>>,
    widths: Vec<u32>,
    heights: Vec<u32>,
    zindexes: Vec<i32>,
    background_colors: Vec<[u8; 4]>,
    sprite_ids: Vec<Vec<u32>>,
    sampling_methods: Vec<SamplingMethod>,
    active: Vec<bool>,
    sorted_sprites: Vec<Vec<u32>>,
    sort_dirty: Vec<bool>,
    bg_rows: Vec<Vec<u8>>,
    bg_dirty: Vec<bool>,
}

impl View for SceneStore {
    type V = Seq<SceneState>;

    closed spec fn view(&self) -> Seq<SceneState> {
        Seq::new(
            self.active@.len(),
            |i: int|
                SceneState {
                    pixels: self.data@[i]@,
                    width: self.widths@[i],
                    height: self.heights@[i],
                    z: self.zindexes@[i],
                    background: self.background_colors@[i]@,
                    members: self.sprite_ids@[i]@,
                    sampling: self.sampling_methods@[i],
                    active: self.active@[i],
                    order: self.sorted_sprites@[i]@,
                    order_stale: self.sort_dirty@[i],
                    row: self.bg_rows@[i]@,
                    row_stale: self.bg_dirty@[i],
                },
        )
    }
}

impl SceneStore {
    /// The arrays have one length, and the scenes are well formed.
    pub closed spec fn wf(&self) -> bool {
        &&& self.data@.len() == self.active@.len()
        &&& self.widths@.len() == self.active@.len()
        &&& self.heights@.len() == self.active@.len()
        &&& self.zindexes@.len() == self.active@.len()
        &&& self.background_colors@.len() == self.active@.len()
        &&& self.sprite_ids@.len() == self.active@.len()
        &&& self.sampling_methods@.len() == self.active@.len()
        &&& self.sorted_sprites@.len() == self.active@.len()
        &&& self.sort_dirty@.len() == self.active@.len()
        &&& self.bg_rows@.len() == self.active@.len()
        &&& self.bg_dirty@.len() == self.active@.len()
        &&& scenes_wf(self@)
    }

    /// A well-formed store holds well-formed scenes.
    pub proof fn lemma_wf(&self)
        requires
            self.wf(),
        ensures
            scenes_wf(self@),
    {
    }

    /// Makes a store without scenes.
    pub fn new() -> (store: SceneStore)
        ensures
            store.wf(),
            store@ == Seq::<SceneState>::empty(),
    {
        let store = SceneStore {
            data: Vec::new(),
            widths: Vec::new(),
            heights: Vec::new(),
            zindexes: Vec::new(),
            background_colors: Vec::new(),
            sprite_ids: Vec::new(),
            sampling_methods: Vec::new(),
            active: Vec::new(),
            sorted_sprites: Vec::new(),
            sort_dirty: Vec::new(),
            bg_rows: Vec::new(),
            bg_dirty: Vec::new(),
        };
        proof {
            assert(store@ =~= Seq::<SceneState>::empty());
        }
        store
    }

    /// The number of scenes that were ever added.
    pub fn len(&self) -> (count: usize)
        requires
            self.wf(),
        ensures
            count == self@.len(),
    {
        self.active.len()
    }

    /// Adds a scene of the given size and returns its id: the number of
    /// scenes added before it.
    pub fn add(&mut self, width: u32, height: u32) -> (id: u32)
        requires
            old(self).wf(),
            old(self)@.len() < u32::MAX,
            fits(width, height),
        ensures
            final(self).wf(),
            id == old(self)@.len(),
            final(self)@ == old(self)@.push(fresh_scene(width, height)),
    {
        let id: u32 = self.data.len() as u32;
        proof {
            assert(width * height <= width * height * 4) by (nonlinear_arith)
                requires
                    0 <= width,
                    0 <= height,
            ;
        }
        let size: u32 = width * height * 4;
        self.data.push(zeroed(size as usize));
        self.widths.push(width);
        self.heights.push(height);
        self.zindexes.push(0);
        let black: [u8; 4] = [0, 0, 0, 255];
        self.background_colors.push(black);
        self.sprite_ids.push(Vec::new());
        self.sampling_methods.push(SamplingMethod::Nearest);
        self.active.push(true);
        self.sorted_sprites.push(Vec::new());
        self.sort_dirty.push(true);
        self.bg_rows.push(Vec::new());
        self.bg_dirty.push(true);
        proof {
            assert(black@ =~= opaque_black());
            let added = self@[id as int];
            assert(added.members =~= Seq::<u32>::empty());
            assert(added.order =~= Seq::<u32>::empty());
            assert(added.row =~= Seq::<u8>::empty());
            assert(self@ =~= old(self)@.push(fresh_scene(width, height)));
        }
        id
    }

    /// Whether `id` names a scene that exists and is in use.
    pub fn is_active(&self, id: u32) -> (live: bool)
        requires
            self.wf(),
        ensures
            live == (id < self@.len() && self@[id as int].active),
    {
        let idx: usize = id as usize;
        idx < self.active.len() && self.active[idx]
    }

    /// The z-index of a scene.
    pub fn zindex(&self, id: u32) -> (z: i32)
        requires
            self.wf(),
            id < self@.len(),
        ensures
            z == self@[id as int].z,
    {
        self.zindexes[id as usize]
    }

    /// Gives a scene a new z-index.
    pub fn set_zindex(&mut self, id: u32, z: i32)
        requires
            old(self).wf(),
            id < old(self)@.len(),
        ensures
            final(self).wf(),
            final(self)@ == old(self)@.update(id as int, SceneState { z, ..old(self)@[id as int] }),
    {
        self.zindexes[id as usize] = z;
        proof {
            assert(self@ =~= old(self)@.update(
                id as int,
                SceneState { z, ..old(self)@[id as int] },
            ));
        }
    }

    /// The width of a scene in pixels.
    pub fn width(&self, id: u32) -> (width: u32)
        requires
            self.wf(),
            id < self@.len(),
        ensures
            width == self@[id as int].width,
    {
        self.widths[id as usize]
    }

    /// The height of a scene in pixels.
    pub fn height(&self, id: u32) -> (height: u32)
        requires
            self.wf(),
            id < self@.len(),
        ensures
            height == self@[id as int].height,
    {
        self.heights[id as usize]
    }

    /// The pixel buffer of a scene.
    pub fn data(&self, id: u32) -> (bytes: &[u8])
        requires
            self.wf(),
            id < self@.len(),
        ensures
            bytes@ == self@[id as int].pixels,
    {
        self.data[id as usize].as_slice()
    }

    /// The sprites of a scene, in the order in which they were added.
    pub fn members(&self, id: u32) -> (ids: &Vec<u32>)
        requires
            self.wf(),
            id < self@.len(),
        ensures
            ids@ == self@[id as int].members,
    {
        &self.sprite_ids[id as usize]
    }

    /// The sampling method of a scene.
    pub fn sampling(&self, id: u32) -> (method: SamplingMethod)
        requires
            self.wf(),
            id < self@.len(),
        ensures
            method == self@[id as int].sampling,
    {
        self.sampling_methods[id as usize]
    }

    /// Selects the sampling method of a scene.
    pub fn set_sampling(&mut self, id: u32, method: SamplingMethod)
        requires
            old(self).wf(),
            id < old(self)@.len(),
        ensures
            final(self).wf(),
            final(self)@ == old(self)@.update(
                id as int,
                SceneState { sampling: method, ..old(self)@[id as int] },
            ),
    {
        self.sampling_methods[id as usize] = method;
        proof {
            assert(self@ =~= old(self)@.update(
                id as int,
                SceneState { sampling: method, ..old(self)@[id as int] },
            ));
        }
    }

    /// Whether the draw order of a scene has to be computed again.
    pub fn order_stale(&self, id: u32) -> (stale: bool)
        requires
            self.wf(),
            id < self@.len(),
        ensures
            stale == self@[id as int].order_stale,
    {
        self.sort_dirty[id as usize]
    }

    /// Stores a draw order that was computed for a scene and marks it fresh.
    pub fn set_order(&mut self, id: u32, order: Vec<u32>)
        requires
            old(self).wf(),
            id < old(self)@.len(),
        ensures
            final(self).wf(),
            final(self)@ == old(self)@.update(
                id as int,
                SceneState { order: order@, order_stale: false, ..old(self)@[id as int] },
            ),
    {
        let idx: usize = id as usize;
        self.sorted_sprites[idx] = order;
        self.sort_dirty[idx] = false;
        proof {
            assert(self@ =~= old(self)@.update(
                id as int,
                SceneState { order: order@, order_stale: false, ..old(self)@[id as int] },
            ));
        }
    }

    /// Adds a sprite to a scene, unless it is a member already.
    pub fn add_member(&mut self, id: u32, sprite: u32)
        requires
            old(self).wf(),
            id < old(self)@.len(),
        ensures
            final(self).wf(),
            final(self)@ == old(self)@.update(id as int, with_member(old(self)@[id as int], sprite)),
    {
        let idx: usize = id as usize;
        let added = members::insert(&mut self.sprite_ids[idx], sprite);
        if added {
            self.sort_dirty[idx] = true;
        }
        proof {
            let was = old(self)@[id as int];
            assert(scene_wf(was));
            if added {
                assert forall|a: int, b: int|
                    0 <= a < was.members.len() + 1 && 0 <= b < was.members.len() + 1 && a
                        != b implies was.members.push(sprite)[a] != was.members.push(
                    sprite,
                )[b] by {
                    if a < was.members.len() {
                        assert(was.members.contains(was.members[a]));
                    }
                    if b < was.members.len() {
                        assert(was.members.contains(was.members[b]));
                    }
                }
            }
            assert(self@ =~= old(self)@.update(id as int, with_member(was, sprite)));
        }
    }

    /// Takes a sprite out of a scene, if it is a member.
    pub fn remove_member(&mut self, id: u32, sprite: u32)
        requires
            old(self).wf(),
            id < old(self)@.len(),
        ensures
            final(self).wf(),
            final(self)@ == old(self)@.update(
                id as int,
                without_member(old(self)@[id as int], sprite),
            ),
    {
        let idx: usize = id as usize;
        let removed = members::remove(&mut self.sprite_ids[idx], sprite);
        if removed {
            self.sort_dirty[idx] = true;
        }
        proof {
            let was = old(self)@[id as int];
            assert(scene_wf(was));
            members::lemma_without_no_duplicates(was.members, sprite);
            if !was.members.contains(sprite) {
                members::lemma_without_absent(was.members, sprite);
            }
            assert(self@ =~= old(self)@.update(id as int, without_member(was, sprite)));
        }
    }

    /// Sets the background colour of a scene. The background row is marked
    /// stale if the colour changed.
    pub fn set_background(&mut self, id: u32, color: [u8; 4])
        requires
            old(self).wf(),
            id < old(self)@.len(),
        ensures
            final(self).wf(),
            final(self)@ == old(self)@.update(
                id as int,
                with_background(old(self)@[id as int], color@),
            ),
    {
        let idx: usize = id as usize;
        let was: [u8; 4] = self.background_colors[idx];
        let same = was[0] == color[0] && was[1] == color[1] && was[2] == color[2] && was[3]
            == color[3];
        proof {
            assert(scene_wf(old(self)@[id as int]));
            if same {
                assert(was@ =~= color@);
            } else {
                assert(was@[0] != color@[0] || was@[1] != color@[1] || was@[2] != color@[2]
                    || was@[3] != color@[3]);
            }
        }
        if !same {
            self.background_colors[idx] = color;
            self.bg_dirty[idx] = true;
        }
        proof {
            assert(self@ =~= old(self)@.update(
                id as int,
                with_background(old(self)@[id as int], color@),
            ));
        }
    }

    /// Gives a scene a new size with a zeroed buffer, and marks the
    /// background row stale.
    pub fn resize(&mut self, id: u32, width: u32, height: u32)
        requires
            old(self).wf(),
            id < old(self)@.len(),
            fits(width, height),
        ensures
            final(self).wf(),
            final(self)@ == old(self)@.update(
                id as int,
                resized(old(self)@[id as int], width, height),
            ),
    {
        let idx: usize = id as usize;
        proof {
            assert(scene_wf(old(self)@[id as int]));
            assert(width * height <= width * height * 4) by (nonlinear_arith)
                requires
                    0 <= width,
                    0 <= height,
            ;
        }
        let size: u32 = width * height * 4;
        self.widths[idx] = width;
        self.heights[idx] = height;
        self.data[idx] = zeroed(size as usize);
        self.bg_dirty[idx] = true;
        proof {
            assert(self@ =~= old(self)@.update(
                id as int,
                resized(old(self)@[id as int], width, height),
            ));
        }
    }

    /// Takes a sprite out of every scene.
    pub fn remove_everywhere(&mut self, sprite: u32)
        requires
            old(self).wf(),
        ensures
            final(self).wf(),
            final(self)@.len() == old(self)@.len(),
            forall|i: int|
                0 <= i < old(self)@.len() ==> #[trigger] final(self)@[i] == without_member(
                    old(self)@[i],
                    sprite,
                ),
    {
        let count: usize = self.active.len();
        let mut i: usize = 0;
        while i < count
            invariant
                i <= count,
                count == old(self)@.len(),
                self.wf(),
                self@.len() == old(self)@.len(),
                forall|j: int| 0 <= j < i ==> #[trigger] self@[j] == without_member(
                    old(self)@[j],
                    sprite,
                ),
                forall|j: int| i <= j < count ==> #[trigger] self@[j] == old(self)@[j],
            decreases count - i,
        {
            self.remove_member(i as u32, sprite);
            i += 1;
        }
    }

    /// Marks the draw order stale in every scene that holds the sprite.
    pub fn mark_moved(&mut self, sprite: u32)
        requires
            old(self).wf(),
        ensures
            final(self).wf(),
            final(self)@.len() == old(self)@.len(),
            forall|i: int|
                0 <= i < old(self)@.len() ==> #[trigger] final(self)@[i] == with_moved_member(
                    old(self)@[i],
                    sprite,
                ),
    {
        let count: usize = self.active.len();
        let mut i: usize = 0;
        while i < count
            invariant
                i <= count,
                count == old(self)@.len(),
                self.wf(),
                self@.len() == old(self)@.len(),
                forall|j: int| 0 <= j < i ==> #[trigger] self@[j] == with_moved_member(
                    old(self)@[j],
                    sprite,
                ),
                forall|j: int| i <= j < count ==> #[trigger] self@[j] == old(self)@[j],
            decreases count - i,
        {
            let ghost before = self@;
            if members::contains(&self.sprite_ids[i], sprite) {
                self.sort_dirty[i] = true;
            }
            proof {
                assert(scene_wf(before[i as int]));
                assert(self@ =~= before.update(
                    i as int,
                    with_moved_member(before[i as int], sprite),
                ));
            }
            i += 1;
        }
    }

    /// Draws a frame into a scene: fills the buffer with the background,
    /// row by row from the background row, which is computed again where it
    /// is not usable, and lays the layers of the sprites over it in the
    /// stored draw order.
    pub fn paint(&mut self, id: u32, layers: &Vec<Layer>)
        requires
            old(self).wf(),
            id < old(self)@.len(),
        ensures
            final(self).wf(),
            final(self)@ == old(self)@.update(id as int, painted(old(self)@[id as int], views_of(layers@))),
    {
        let idx: usize = id as usize;
        let width: u32 = self.widths[idx];
        let height: u32 = self.heights[idx];
        let color: [u8; 4] = self.background_colors[idx];
        let ghost was = old(self)@[id as int];
        proof {
            assert(scene_wf(was));
        }
        let row_len: usize = 4 * (width as usize);
        if self.bg_dirty[idx] || self.bg_rows[idx].len() != row_len {
            self.bg_rows[idx] = solid(width as usize, color);
            self.bg_dirty[idx] = false;
        }
        proof {
            assert(self.bg_rows@[idx as int]@ == filled(was.background, width as int));
            assert(height as int * (4 * width as int) == byte_len(width as int, height as int))
                by (nonlinear_arith);
        }
        fill_rows(&mut self.data[idx], &self.bg_rows[idx], height);
        proof {
            lemma_tiled_is_filled(
                self.data@[idx as int]@,
                was.background,
                width as int,
                height as int,
            );
        }
        draw_layers(&mut self.data[idx], width, height, &self.sorted_sprites[idx], layers);
        proof {
            lemma_composed_is_frame(
                self.data@[idx as int]@,
                was.background,
                width,
                height,
                was.order,
                views_of(layers@),
            );
            assert(self@ =~= old(self)@.update(id as int, painted(was, views_of(layers@))));
        }
    }
}

} // verus!
