use vstd::prelude::*;
use crate::order::{
    ascending,
    keeps_ties,
    lemma_filter_agrees,
    lemma_insert_at,
    lemma_sorted_agrees,
    lemma_sorted_ascending,
    lemma_sorted_from_source,
    lemma_sorted_same_ids,
    lemma_sorted_stable,
    sorted_by_key,
};
use crate::pixels::{byte_len, copy_of, Bitmap};

verus! {

/// One sprite, as plain values.
pub struct SpriteState {
    /// The bitmap the sprite was made from; it never changes.
    pub original: Bitmap,
    /// The bitmap that is drawn.
    pub display: Bitmap,
    /// The two coordinates of the centre, each carried as the bit pattern
    /// of a single-precision number.
    pub x: u32,
    pub y: u32,
    /// The stacking order: lower values are drawn first.
    pub z: i32,
    /// Cleared when the sprite is removed.
    pub active: bool,
}

/// A sprite as it is right after its creation from a bitmap.
pub open spec fn fresh_sprite(pixels: Seq<u8>, width: u32, height: u32) -> SpriteState {
    SpriteState {
        original: Bitmap { pixels, width, height },
        display: Bitmap { pixels, width, height },
        x: 0,
        y: 0,
        z: 0,
        active: true,
    }
}

/// Whether `id` names a sprite that exists and was not removed.
pub open spec fn is_live(sprites: Seq<SpriteState>, id: u32) -> bool {
    id < sprites.len() && sprites[id as int].active
}

/// The test that the ids of live sprites pass.
pub open spec fn live_in(sprites: Seq<SpriteState>) -> spec_fn(u32) -> bool {
    |id: u32| is_live(sprites, id)
}

/// The key by which sprites are ordered for drawing: the z-index.
pub open spec fn z_in(sprites: Seq<SpriteState>) -> spec_fn(u32) -> int {
    |id: u32|
        if id < sprites.len() {
            sprites[id as int].z as int
        } else {
            0
        }
}

/// The order in which the sprites of a member list are drawn: the live ones,
/// by ascending z-index, those with equal z-index in the order of the list.
pub open spec fn draw_order(members: Seq<u32>, sprites: Seq<SpriteState>) -> Seq<u32> {
    sorted_by_key(members.filter(live_in(sprites)), z_in(sprites))
}

/// The draw order of a member list is the same under two sets of sprites
/// that agree, for every member, on whether it is live and on its z-index.
pub proof fn lemma_draw_order_agrees(
    members: Seq<u32>,
    first: Seq<SpriteState>,
    second: Seq<SpriteState>,
)
    requires
        forall|k: int|
            0 <= k < members.len() ==> {
                &&& is_live(first, #[trigger] members[k]) == is_live(second, members[k])
                &&& is_live(first, members[k]) ==> first[members[k] as int].z
                    == second[members[k] as int].z
            },
    ensures
        draw_order(members, first) == draw_order(members, second),
{
    lemma_filter_agrees(members, live_in(first), live_in(second));
    let drawn = members.filter(live_in(first));
    assert forall|i: int| 0 <= i < drawn.len() implies z_in(first)(drawn[i]) == z_in(second)(
        drawn[i],
    ) by {
        members.lemma_filter_pred(live_in(first), i);
        assert(drawn.contains(drawn[i]));
        members.lemma_filter_contains_rev(live_in(first), drawn[i]);
        let k = choose|k: int| 0 <= k < members.len() && members[k] == drawn[i];
        assert(is_live(first, members[k]));
    }
    lemma_sorted_agrees(drawn, z_in(first), z_in(second));
}

/// The draw order holds the live members and no other id, and their
/// z-indexes never fall from one to the next.
pub proof fn lemma_draw_order_ascending(members: Seq<u32>, sprites: Seq<SpriteState>)
    ensures
        forall|i: int|
            0 <= i < draw_order(members, sprites).len() ==> {
                &&& is_live(sprites, #[trigger] draw_order(members, sprites)[i])
                &&& members.contains(draw_order(members, sprites)[i])
            },
        forall|k: int|
            0 <= k < members.len() && is_live(sprites, #[trigger] members[k]) ==> draw_order(
                members,
                sprites,
            ).contains(members[k]),
        forall|a: int, b: int|
            0 <= a < b < draw_order(members, sprites).len() ==> sprites[draw_order(
                members,
                sprites,
            )[a] as int].z <= sprites[draw_order(members, sprites)[b] as int].z,
{
    let drawn = members.filter(live_in(sprites));
    let order = draw_order(members, sprites);
    assert forall|i: int| 0 <= i < order.len() implies is_live(sprites, #[trigger] order[i])
        && members.contains(order[i]) by {
        lemma_sorted_from_source(drawn, z_in(sprites), i);
        let j = choose|j: int| 0 <= j < drawn.len() && drawn[j] == order[i];
        members.lemma_filter_pred(live_in(sprites), j);
        members.lemma_filter_contains_rev(live_in(sprites), order[i]);
    }
    assert forall|k: int| 0 <= k < members.len() && is_live(
        sprites,
        #[trigger] members[k],
    ) implies order.contains(members[k]) by {
        broadcast use vstd::seq_lib::group_to_multiset_ensures;

        members.lemma_filter_contains(live_in(sprites), k);
        lemma_sorted_same_ids(drawn, z_in(sprites));
        assert(drawn.to_multiset().count(members[k]) > 0);
        assert(order.to_multiset().count(members[k]) > 0);
    }
    lemma_sorted_ascending(drawn, z_in(sprites));
    assert forall|a: int, b: int| 0 <= a < b < order.len() implies sprites[order[a] as int].z
        <= sprites[order[b] as int].z by {
        assert(ascending(order, z_in(sprites)));
        assert(z_in(sprites)(order[a]) <= z_in(sprites)(order[b]));
        assert(is_live(sprites, order[a]) && is_live(sprites, order[b]));
    }
}

/// The test that every id passes.
pub open spec fn any_id() -> spec_fn(u32) -> bool {
    |id: u32| true
}

/// A filter that every id passes leaves a list as it is.
pub proof fn lemma_filter_all(list: Seq<u32>)
    ensures
        list.filter(any_id()) == list,
    decreases list.len(),
{
    if list.len() > 0 {
        let front = list.drop_last();
        lemma_filter_all(front);
        assert(list =~= front.push(list.last()));
        front.lemma_filter_push(list.last(), any_id());
    } else {
        assert(list.filter(any_id()) =~= list);
    }
}

/// Where every member is live and none is listed twice, the draw order has
/// as many ids as there are members, none twice, and members with equal
/// z-index stand in it in the order in which they were added.
pub proof fn lemma_draw_order_stable(members: Seq<u32>, sprites: Seq<SpriteState>)
    requires
        members.no_duplicates(),
        forall|k: int| 0 <= k < members.len() ==> is_live(sprites, #[trigger] members[k]),
    ensures
        draw_order(members, sprites) == sorted_by_key(members, z_in(sprites)),
        draw_order(members, sprites).len() == members.len(),
        draw_order(members, sprites).no_duplicates(),
        keeps_ties(draw_order(members, sprites), members, z_in(sprites)),
{
    lemma_filter_agrees(members, live_in(sprites), any_id());
    lemma_filter_all(members);
    lemma_sorted_same_ids(members, z_in(sprites));
    lemma_sorted_stable(members, z_in(sprites));
}

/// Every sprite has bitmaps of the right length, and there are no more
/// sprites than ids.
pub open spec fn sprites_wf(sprites: Seq<SpriteState>) -> bool {
    &&& sprites.len() <= u32::MAX
    &&& forall|i: int|
        0 <= i < sprites.len() ==> (#[trigger] sprites[i]).original.wf() && sprites[i].display.wf()
}

/// The sprites of a world, each attribute in an array of its own. The id of
/// a sprite is its index in every array; a removed sprite keeps its index.
pub struct SpriteStore {
    original_data: Vec<Vec<u8>>,
    display_data: Vec<Vec<u8>>,
    original_widths: Vec<u32>,
    original_heights: Vec<u32>,
    display_widths: Vec<u32>,
    display_heights: Vec<u32>,
    positions_x: Vec<u32>,
    positions_y: Vec<u32>,
    zindexes: Vec<i32>,
    active: Vec<bool>,
}

impl View for SpriteStore {
    type V = Seq<SpriteState>;

    closed spec fn view(&self) -> Seq<SpriteState> {
        Seq::new(
            self.active@.len(),
            |i: int|
                SpriteState {
                    original: Bitmap {
                        pixels: self.original_data@[i]@,
                        width: self.original_widths@[i],
                        height: self.original_heights@[i],
                    },
                    display: Bitmap {
                        pixels: self.display_data@[i]@,
                        width: self.display_widths@[i],
                        height: self.display_heights@[i],
                    },
                    x: self.positions_x@[i],
                    y: self.positions_y@[i],
                    z: self.zindexes@[i],
                    active: self.active@[i],
                },
        )
    }
}

impl SpriteStore {
    /// The arrays have one length, and the sprites are well formed.
    pub closed spec fn wf(&self) -> bool {
        &&& self.original_data@.len() == self.active@.len()
        &&& self.display_data@.len() == self.active@.len()
        &&& self.original_widths@.len() == self.active@.len()
        &&& self.original_heights@.len() == self.active@.len()
        &&& self.display_widths@.len() == self.active@.len()
        &&& self.display_heights@.len() == self.active@.len()
        &&& self.positions_x@.len() == self.active@.len()
        &&& self.positions_y@.len() == self.active@.len()
        &&& self.zindexes@.len() == self.active@.len()
        &&& sprites_wf(self@)
    }

    /// A well-formed store holds well-formed sprites.
    pub proof fn lemma_wf(&self)
        requires
            self.wf(),
        ensures
            sprites_wf(self@),
    {
    }

    /// Makes a store without sprites.
    pub fn new() -> (store: SpriteStore)
        ensures
            store.wf(),
            store@ == Seq::<SpriteState>::empty(),
    {
        let store = SpriteStore {
            original_data: Vec::new(),
            display_data: Vec::new(),
            original_widths: Vec::new(),
            original_heights: Vec::new(),
            display_widths: Vec::new(),
            display_heights: Vec::new(),
            positions_x: Vec::new(),
            positions_y: Vec::new(),
            zindexes: Vec::new(),
            active: Vec::new(),
        };
        proof {
            assert(store@ =~= Seq::<SpriteState>::empty());
        }
        store
    }

    /// The number of sprites that were ever added.
    pub fn len(&self) -> (count: usize)
        requires
            self.wf(),
        ensures
            count == self@.len(),
    {
        self.active.len()
    }

    /// Adds a sprite with the given bitmap, at the origin, with z-index 0,
    /// and returns its id: the number of sprites added before it.
    pub fn add(&mut self, data: Vec<u8>, width: u32, height: u32) -> (id: u32)
        requires
            old(self).wf(),
            old(self)@.len() < u32::MAX,
            data@.len() == byte_len(width as int, height as int),
        ensures
            final(self).wf(),
            id == old(self)@.len(),
            final(self)@ == old(self)@.push(fresh_sprite(data@, width, height)),
    {
        let id: u32 = self.original_data.len() as u32;
        let copy = copy_of(data.as_slice());
        self.original_data.push(copy);
        self.display_data.push(data);
        self.original_widths.push(width);
        self.original_heights.push(height);
        self.display_widths.push(width);
        self.display_heights.push(height);
        self.positions_x.push(0);
        self.positions_y.push(0);
        self.zindexes.push(0);
        self.active.push(true);
        proof {
            assert(self@ =~= old(self)@.push(fresh_sprite(data@, width, height)));
        }
        id
    }

    /// Marks a sprite as removed. Its id stays taken.
    pub fn remove(&mut self, id: u32)
        requires
            old(self).wf(),
        ensures
            final(self).wf(),
            final(self)@ == if id < old(self)@.len() {
                old(self)@.update(
                    id as int,
                    SpriteState { active: false, ..old(self)@[id as int] },
                )
            } else {
                old(self)@
            },
    {
        let idx: usize = id as usize;
        if idx < self.active.len() {
            self.active[idx] = false;
            proof {
                assert(self@ =~= old(self)@.update(
                    id as int,
                    SpriteState { active: false, ..old(self)@[id as int] },
                ));
            }
        }
    }

    /// Whether `id` names a sprite that exists and was not removed.
    pub fn is_active(&self, id: u32) -> (live: bool)
        requires
            self.wf(),
        ensures
            live == is_live(self@, id),
    {
        let idx: usize = id as usize;
        idx < self.active.len() && self.active[idx]
    }

    /// The two coordinates of a live sprite.
    pub fn position(&self, id: u32) -> (at: Option<(u32, u32)>)
        requires
            self.wf(),
        ensures
            at == if is_live(self@, id) {
                Some((self@[id as int].x, self@[id as int].y))
            } else {
                None
            },
    {
        if self.is_active(id) {
            let idx: usize = id as usize;
            Some((self.positions_x[idx], self.positions_y[idx]))
        } else {
            None
        }
    }

    /// Moves a live sprite; any other id changes nothing.
    pub fn set_position(&mut self, id: u32, x: u32, y: u32)
        requires
            old(self).wf(),
        ensures
            final(self).wf(),
            final(self)@ == if is_live(old(self)@, id) {
                old(self)@.update(id as int, SpriteState { x, y, ..old(self)@[id as int] })
            } else {
                old(self)@
            },
    {
        if self.is_active(id) {
            let idx: usize = id as usize;
            self.positions_x[idx] = x;
            self.positions_y[idx] = y;
            proof {
                assert(self@ =~= old(self)@.update(
                    id as int,
                    SpriteState { x, y, ..old(self)@[id as int] },
                ));
            }
        }
    }

    /// The z-index of a live sprite.
    pub fn zindex(&self, id: u32) -> (z: Option<i32>)
        requires
            self.wf(),
        ensures
            z == if is_live(self@, id) {
                Some(self@[id as int].z)
            } else {
                None
            },
    {
        if self.is_active(id) {
            Some(self.zindexes[id as usize])
        } else {
            None
        }
    }

    /// Gives a live sprite a new z-index; any other id changes nothing.
    pub fn set_zindex(&mut self, id: u32, z: i32)
        requires
            old(self).wf(),
        ensures
            final(self).wf(),
            final(self)@ == if is_live(old(self)@, id) {
                old(self)@.update(id as int, SpriteState { z, ..old(self)@[id as int] })
            } else {
                old(self)@
            },
    {
        if self.is_active(id) {
            let idx: usize = id as usize;
            self.zindexes[idx] = z;
            proof {
                assert(self@ =~= old(self)@.update(
                    id as int,
                    SpriteState { z, ..old(self)@[id as int] },
                ));
            }
        }
    }

    /// The bytes of the bitmap that a sprite was made from.
    pub fn original_data(&self, id: u32) -> (bytes: &[u8])
        requires
            self.wf(),
            id < self@.len(),
        ensures
            bytes@ == self@[id as int].original.pixels,
    {
        self.original_data[id as usize].as_slice()
    }

    /// The width and height of the bitmap that a sprite was made from.
    pub fn original_size(&self, id: u32) -> (size: (u32, u32))
        requires
            self.wf(),
            id < self@.len(),
        ensures
            size == (self@[id as int].original.width, self@[id as int].original.height),
    {
        (self.original_widths[id as usize], self.original_heights[id as usize])
    }

    /// The bytes of the bitmap that is drawn for a sprite.
    pub fn display_data(&self, id: u32) -> (bytes: &[u8])
        requires
            self.wf(),
            id < self@.len(),
        ensures
            bytes@ == self@[id as int].display.pixels,
    {
        self.display_data[id as usize].as_slice()
    }

    /// The width and height of the bitmap that is drawn for a sprite.
    pub fn display_size(&self, id: u32) -> (size: (u32, u32))
        requires
            self.wf(),
            id < self@.len(),
        ensures
            size == (self@[id as int].display.width, self@[id as int].display.height),
    {
        (self.display_widths[id as usize], self.display_heights[id as usize])
    }

    /// Replaces the bitmap that is drawn for a sprite.
    pub fn set_display(&mut self, id: u32, data: Vec<u8>, width: u32, height: u32)
        requires
            old(self).wf(),
            id < old(self)@.len(),
            data@.len() == byte_len(width as int, height as int),
        ensures
            final(self).wf(),
            final(self)@ == old(self)@.update(
                id as int,
                SpriteState {
                    display: Bitmap { pixels: data@, width, height },
                    ..old(self)@[id as int]
                },
            ),
    {
        let idx: usize = id as usize;
        self.display_data[idx] = data;
        self.display_widths[idx] = width;
        self.display_heights[idx] = height;
        proof {
            assert(self@ =~= old(self)@.update(
                id as int,
                SpriteState {
                    display: Bitmap { pixels: data@, width, height },
                    ..old(self)@[id as int]
                },
            ));
        }
    }

    /// Draws a sprite from the bitmap it was made from again.
    pub fn reset_display(&mut self, id: u32)
        requires
            old(self).wf(),
            id < old(self)@.len(),
        ensures
            final(self).wf(),
            final(self)@ == old(self)@.update(
                id as int,
                SpriteState { display: old(self)@[id as int].original, ..old(self)@[id as int] },
            ),
    {
        let idx: usize = id as usize;
        let copy = copy_of(self.original_data[idx].as_slice());
        let width = self.original_widths[idx];
        let height = self.original_heights[idx];
        assert(self@[id as int].original.wf());
        self.set_display(id, copy, width, height);
    }

    /// The live sprites of a member list in the order in which they are
    /// drawn.
    pub fn draw_order(&self, members: &Vec<u32>) -> (order: Vec<u32>)
        requires
            self.wf(),
        ensures
            order@ == draw_order(members@, self@),
    {
        let ghost live = live_in(self@);
        let ghost key = z_in(self@);
        let mut order: Vec<u32> = Vec::new();
        let mut i: usize = 0;
        while i < members.len()
            invariant
                i <= members.len(),
                self.wf(),
                live == live_in(self@),
                key == z_in(self@),
                order@ == sorted_by_key(members@.take(i as int).filter(live), key),
                forall|k: int| 0 <= k < order@.len() ==> is_live(self@, #[trigger] order@[k]),
            decreases members.len() - i,
        {
            let id: u32 = members[i];
            proof {
                assert(members@.take(i + 1) =~= members@.take(i as int).push(id));
                members@.take(i as int).lemma_filter_push(id, live);
            }
            if self.is_active(id) {
                let z: i32 = self.zindexes[id as usize];
                let mut at: usize = order.len();
                while at > 0 && self.zindexes[order[at - 1] as usize] > z
                    invariant
                        at <= order@.len(),
                        self.wf(),
                        key == z_in(self@),
                        z == key(id),
                        forall|k: int| 0 <= k < order@.len() ==> is_live(
                            self@,
                            #[trigger] order@[k],
                        ),
                        forall|k: int| at <= k < order@.len() ==> key(order@[k]) > key(id),
                    decreases at,
                {
                    at -= 1;
                }
                proof {
                    lemma_insert_at(order@, key, id, at as int);
                    assert(members@.take(i + 1).filter(live) == members@.take(i as int).filter(
                        live,
                    ).push(id));
                    assert(members@.take(i as int).filter(live).push(id).drop_last()
                        =~= members@.take(i as int).filter(live));
                }
                order.insert(at, id);
            }
            i += 1;
        }
        proof {
            assert(members@.take(members@.len() as int) =~= members@);
        }
        order
    }
}

} // verus!
