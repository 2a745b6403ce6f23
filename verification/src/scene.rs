use vstd::prelude::*;
use crate::members;
use crate::pixels::{byte_len, fill, filled, opaque_black};
use crate::sampling::SamplingMethod;

verus! {

/// What a scene holds, as plain values.
pub struct SceneView {
    /// The pixel buffer, row by row, four bytes for each pixel.
    pub pixels: Seq<u8>,
    pub width: u32,
    pub height: u32,
    /// The sprites of the scene, in the order in which they were added.
    pub sprite_ids: Seq<u32>,
    /// The four bytes of the background colour.
    pub background: Seq<u8>,
    pub sampling: SamplingMethod,
}

/// A render target: a pixel buffer of fixed size, a background colour and
/// the list of sprites that are drawn into it.
#[derive(Debug)]
pub struct Scene {
    data: Vec<u8>,
    width: u32,
    height: u32,
    sprite_ids: Vec<u32>,
    background_color: [u8; 4],
    sampling_method: SamplingMethod,
}

impl View for Scene {
    type V = SceneView;

    closed spec fn view(&self) -> SceneView {
        SceneView {
            pixels: self.data@,
            width: self.width,
            height: self.height,
            sprite_ids: self.sprite_ids@,
            background: self.background_color@,
            sampling: self.sampling_method,
        }
    }
}

impl SceneView {
    /// The buffer has four bytes for each pixel, the background has four
    /// bytes, and no sprite is listed twice.
    pub open spec fn wf(self) -> bool {
        &&& self.pixels.len() == byte_len(self.width as int, self.height as int)
        &&& self.background.len() == 4
        &&& self.sprite_ids.no_duplicates()
    }
}

impl Scene {
    /// Makes a scene of the given size with a zeroed buffer, an opaque black
    /// background, no sprites and nearest sampling.
    pub fn new(width: u32, height: u32) -> (scene: Scene)
        requires
            byte_len(width as int, height as int) <= u32::MAX,
        ensures
            scene@.wf(),
            scene@ == (SceneView {
                pixels: Seq::new(byte_len(width as int, height as int) as nat, |i: int| 0u8),
                width,
                height,
                sprite_ids: Seq::empty(),
                background: opaque_black(),
                sampling: SamplingMethod::Nearest,
            }),
    {
        proof {
            assert(width * height <= width * height * 4) by (nonlinear_arith)
                requires
                    0 <= width,
                    0 <= height,
            ;
        }
        let size: u32 = width * height * 4;
        let data: Vec<u8> = vec![0u8; size as usize];
        let scene = Scene {
            data,
            width,
            height,
            sprite_ids: Vec::new(),
            background_color: [0, 0, 0, 255],
            sampling_method: SamplingMethod::Nearest,
        };
        proof {
            assert(scene@.pixels =~= Seq::new(
                byte_len(width as int, height as int) as nat,
                |i: int| 0u8,
            ));
            assert(scene@.background =~= opaque_black());
            assert(scene@.sprite_ids =~= Seq::empty());
        }
        scene
    }

    /// The sampling method of the scene.
    pub fn sampling_method(&self) -> (method: SamplingMethod)
        ensures
            method == self@.sampling,
    {
        self.sampling_method
    }

    /// Selects the sampling method; nothing else changes.
    pub fn set_sampling_method(&mut self, method: SamplingMethod)
        ensures
            final(self)@ == (SceneView { sampling: method, ..old(self)@ }),
    {
        self.sampling_method = method;
    }

    /// The width of the scene in pixels.
    pub fn width(&self) -> (width: u32)
        ensures
            width == self@.width,
    {
        self.width
    }

    /// The height of the scene in pixels.
    pub fn height(&self) -> (height: u32)
        ensures
            height == self@.height,
    {
        self.height
    }

    /// Sets the background colour. The buffer keeps its pixels until the
    /// scene is next cleared.
    pub fn set_background_color(&mut self, r: u8, g: u8, b: u8, a: u8)
        ensures
            final(self)@ == (SceneView { background: seq![r, g, b, a], ..old(self)@ }),
    {
        self.background_color = [r, g, b, a];
        proof {
            assert(self.background_color@ =~= seq![r, g, b, a]);
        }
    }

    /// Adds a sprite to the end of the scene's list, unless the list holds it
    /// already.
    pub fn add_sprite(&mut self, sprite_id: u32)
        ensures
            final(self)@ == (SceneView {
                sprite_ids: members::with(old(self)@.sprite_ids, sprite_id),
                ..old(self)@
            }),
            old(self)@.wf() ==> final(self)@.wf(),
    {
        members::insert(&mut self.sprite_ids, sprite_id);
    }

    /// Takes a sprite out of the scene's list; the others keep their order.
    pub fn remove_sprite(&mut self, sprite_id: u32)
        ensures
            final(self)@ == (SceneView {
                sprite_ids: members::without(old(self)@.sprite_ids, sprite_id),
                ..old(self)@
            }),
            old(self)@.wf() ==> final(self)@.wf(),
    {
        proof {
            if self@.wf() {
                members::lemma_without_no_duplicates(self.sprite_ids@, sprite_id);
            }
        }
        members::remove(&mut self.sprite_ids, sprite_id);
    }

    /// The sprites of the scene, in the order in which they were added.
    pub fn sprite_ids(&self) -> (ids: &[u32])
        ensures
            ids@ == self@.sprite_ids,
    {
        self.sprite_ids.as_slice()
    }

    /// Fills the whole buffer with the background colour.
    pub fn clear(&mut self)
        requires
            old(self)@.wf(),
        ensures
            final(self)@ == (SceneView {
                pixels: filled(
                    old(self)@.background,
                    old(self)@.width as int * old(self)@.height as int,
                ),
                ..old(self)@
            }),
            final(self)@.wf(),
    {
        let ghost count = self.width as int * self.height as int;
        proof {
            assert(self.data@.len() == 4 * count) by (nonlinear_arith)
                requires
                    self.data@.len() == self.width as int * self.height as int * 4,
                    count == self.width as int * self.height as int,
            ;
        }
        fill(&mut self.data, self.background_color);
        proof {
            assert(self.data@ =~= self.data@.subrange(0, 4 * count));
        }
    }

    /// The pixel buffer, to be written in place.
    pub fn data_mut(&mut self) -> (bytes: &mut [u8])
        ensures
            bytes@ == old(self)@.pixels,
            final(self)@ == (SceneView { pixels: final(bytes)@, ..old(self)@ }),
    {
        self.data.as_mut_slice()
    }

    /// The pixel buffer.
    pub fn data(&self) -> (bytes: &[u8])
        ensures
            bytes@ == self@.pixels,
    {
        self.data.as_slice()
    }

    /// The number of bytes of the pixel buffer.
    pub fn data_len(&self) -> (len: usize)
        ensures
            len == self@.pixels.len(),
    {
        self.data.len()
    }

    /// Gives the scene a new size and fills the new buffer with the
    /// background colour.
    pub fn resize(&mut self, width: u32, height: u32)
        requires
            old(self)@.wf(),
            byte_len(width as int, height as int) <= u32::MAX,
        ensures
            final(self)@ == (SceneView {
                pixels: filled(old(self)@.background, width as int * height as int),
                width,
                height,
                ..old(self)@
            }),
            final(self)@.wf(),
    {
        proof {
            assert(width * height <= width * height * 4) by (nonlinear_arith)
                requires
                    0 <= width,
                    0 <= height,
            ;
        }
        self.width = width;
        self.height = height;
        let new_size: u32 = width * height * 4;
        self.data.resize(new_size as usize, 0);
        self.clear();
    }
}

} // verus!
