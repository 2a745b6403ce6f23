use vstd::prelude::*;
use crate::pixels::{
    byte_len,
    fill,
    filled,
    lemma_pixel_index_bound,
    lemma_pixel_index_injective,
    pixel_index,
    pixel_of,
    zeroed,
    zeros,
    Bitmap,
};

verus! {

/// A flat buffer of four-byte pixels with a width and a height.
pub struct PixelBuffer {
    width: u32,
    height: u32,
    data: Vec<u8>,
}

impl View for PixelBuffer {
    type V = Bitmap;

    closed spec fn view(&self) -> Bitmap {
        Bitmap { pixels: self.data@, width: self.width, height: self.height }
    }
}

/// Whether `now` is the bitmap `before` with the colour `color` written to
/// the pixels of the rectangle that is `w` wide and `h` high and has its
/// upper left corner at `(x, y)`, as far as the rectangle lies in the
/// bitmap.
pub open spec fn rect_filled(
    before: Bitmap,
    now: Bitmap,
    x: int,
    y: int,
    w: int,
    h: int,
    color: Seq<u8>,
) -> bool {
    &&& now.width == before.width
    &&& now.height == before.height
    &&& now.pixels.len() == before.pixels.len()
    &&& forall|px: int, py: int|
        0 <= px < before.width && 0 <= py < before.height ==> #[trigger] pixel_of(
            now.pixels,
            pixel_index(before.width as int, px, py),
        ) == (if x <= px < x + w && y <= py < y + h {
            color
        } else {
            pixel_of(before.pixels, pixel_index(before.width as int, px, py))
        })
}

/// What resizing to `len` bytes makes of a run of bytes: its start, or the
/// whole run with zero bytes after it.
pub open spec fn resized_bytes(bytes: Seq<u8>, len: int) -> Seq<u8> {
    if len <= bytes.len() {
        bytes.subrange(0, len)
    } else {
        bytes + zeros(len - bytes.len())
    }
}

impl PixelBuffer {
    /// Makes a zeroed buffer of the given size.
    pub fn new(width: u32, height: u32) -> (buffer: PixelBuffer)
        requires
            byte_len(width as int, height as int) <= u32::MAX,
        ensures
            buffer@.wf(),
            buffer@ == (Bitmap {
                pixels: zeros(byte_len(width as int, height as int)),
                width,
                height,
            }),
    {
        proof {
            assert(width * height <= width * height * 4) by (nonlinear_arith)
                requires
                    0 <= width,
                    0 <= height,
            ;
        }
        let size: u32 = width * height * 4;
        PixelBuffer { width, height, data: zeroed(size as usize) }
    }

    /// The width in pixels.
    pub fn width(&self) -> (width: u32)
        ensures
            width == self@.width,
    {
        self.width
    }

    /// The height in pixels.
    pub fn height(&self) -> (height: u32)
        ensures
            height == self@.height,
    {
        self.height
    }

    /// The bytes of the buffer.
    pub fn data(&self) -> (bytes: &[u8])
        ensures
            bytes@ == self@.pixels,
    {
        self.data.as_slice()
    }

    /// The number of bytes of the buffer.
    pub fn data_len(&self) -> (len: usize)
        ensures
            len == self@.pixels.len(),
    {
        self.data.len()
    }

    /// Gives the buffer a new size. The bytes that fit stay where they are
    /// in the byte sequence; new bytes are zero.
    pub fn resize(&mut self, width: u32, height: u32)
        requires
            byte_len(width as int, height as int) <= u32::MAX,
        ensures
            final(self)@.wf(),
            final(self)@ == (Bitmap {
                pixels: resized_bytes(old(self)@.pixels, byte_len(width as int, height as int)),
                width,
                height,
            }),
    {
        proof {
            assert(width * height <= width * height * 4) by (nonlinear_arith)
                requires
                    0 <= width,
                    0 <= height,
            ;
        }
        self.width = width;
        self.height = height;
        let new_size: usize = (width * height * 4) as usize;
        let ghost before = self.data@;
        if new_size <= self.data.len() {
            self.data.truncate(new_size);
        } else {
            while self.data.len() < new_size
                invariant
                    before.len() <= self.data@.len() <= new_size,
                    self.data@ == before + zeros(self.data@.len() - before.len()),
                    self.width == width,
                    self.height == height,
                decreases new_size - self.data@.len(),
            {
                self.data.push(0);
                assert(self.data@ =~= before + zeros(self.data@.len() - before.len()));
            }
        }
        proof {
            assert(self.data@ =~= resized_bytes(before, new_size as int));
        }
    }

    /// Writes one colour to every pixel.
    pub fn clear(&mut self, r: u8, g: u8, b: u8, a: u8)
        requires
            old(self)@.wf(),
        ensures
            final(self)@.wf(),
            final(self)@ == (Bitmap {
                pixels: filled(seq![r, g, b, a], old(self)@.width as int * old(self)@.height as int),
                ..old(self)@
            }),
    {
        let color: [u8; 4] = [r, g, b, a];
        let ghost count = self.width as int * self.height as int;
        proof {
            assert(color@ =~= seq![r, g, b, a]);
            assert(self.data@.len() == 4 * count) by (nonlinear_arith)
                requires
                    self.data@.len() == self.width as int * self.height as int * 4,
                    count == self.width as int * self.height as int,
            ;
        }
        fill(&mut self.data, color);
        proof {
            assert(self.data@ =~= self.data@.subrange(0, 4 * count));
        }
    }

    /// Writes a colour to the pixel `(x, y)`; does nothing where that lies
    /// outside the buffer.
    pub fn set_pixel(&mut self, x: u32, y: u32, r: u8, g: u8, b: u8, a: u8)
        requires
            old(self)@.wf(),
        ensures
            final(self)@.wf(),
            rect_filled(old(self)@, final(self)@, x as int, y as int, 1, 1, seq![r, g, b, a]),
    {
        if x < self.width && y < self.height {
            proof {
                lemma_pixel_index_bound(
                    self.width as int,
                    self.height as int,
                    x as int,
                    y as int,
                );
            }
            assert(byte_len(self.width as int, self.height as int) == self.data.len());
            let index: usize = y as usize * self.width as usize + x as usize;
            let at: usize = 4 * index;
            self.data[at] = r;
            self.data[at + 1] = g;
            self.data[at + 2] = b;
            self.data[at + 3] = a;
            proof {
                let w = self.width as int;
                assert forall|px: int, py: int|
                    0 <= px < self.width && 0 <= py < self.height implies #[trigger] pixel_of(
                    self.data@,
                    pixel_index(w, px, py),
                ) == (if x <= px < x + 1 && y <= py < y + 1 {
                    seq![r, g, b, a]
                } else {
                    pixel_of(old(self).data@, pixel_index(w, px, py))
                }) by {
                    let other = pixel_index(w, px, py);
                    lemma_pixel_index_bound(w, self.height as int, px, py);
                    if px == x && py == y {
                        assert(pixel_of(self.data@, other) =~= seq![r, g, b, a]);
                    } else {
                        if other == index {
                            lemma_pixel_index_injective(w, px, py, x as int, y as int);
                        }
                        assert(pixel_of(self.data@, other) =~= pixel_of(old(self).data@, other));
                    }
                }
            }
        }
    }

    /// Writes a colour to every pixel of a rectangle, as far as the
    /// rectangle lies in the buffer.
    pub fn fill_rect(&mut self, x: u32, y: u32, w: u32, h: u32, r: u8, g: u8, b: u8, a: u8)
        requires
            old(self)@.wf(),
        ensures
            final(self)@.wf(),
            rect_filled(
                old(self)@,
                final(self)@,
                x as int,
                y as int,
                w as int,
                h as int,
                seq![r, g, b, a],
            ),
    {
        let right: u64 = x as u64 + w as u64;
        let bottom: u64 = y as u64 + h as u64;
        let x_end: u32 = if right < self.width as u64 {
            right as u32
        } else {
            self.width
        };
        let y_end: u32 = if bottom < self.height as u64 {
            bottom as u32
        } else {
            self.height
        };
        let ghost color = seq![r, g, b, a];
        let ghost start = self@;
        let mut py: u32 = y;
        while py < y_end
            invariant
                y <= py,
                y_end <= start.height,
                x_end <= start.width,
                y_end <= y + h,
                x_end <= x + w,
                x_end == start.width || x_end == x + w,
                self@.wf(),
                start.wf(),
                y_end == start.height || y_end == y + h,
                py <= y_end || py == y,
                color == seq![r, g, b, a],
                rect_filled(start, self@, x as int, y as int, w as int, py - y, color),
            decreases y_end - py,
        {
            let mut px: u32 = x;
            let ghost row_start = self@;
            while px < x_end
                invariant
                    x <= px,
                    y <= py < y_end,
                    y_end <= start.height,
                    x_end <= start.width,
                    x_end <= x + w,
                    x_end == start.width || x_end == x + w,
                    px <= x_end || px == x,
                    y_end <= y + h,
                    rect_filled(start, row_start, x as int, y as int, w as int, py - y, color),
                    color == seq![r, g, b, a],
                    self@.wf(),
                    start.wf(),
                    row_start.wf(),
                    row_start.width == start.width,
                    row_start.height == start.height,
                    rect_filled(row_start, self@, x as int, py as int, px - x, 1, color),
                decreases x_end - px,
            {
                let ghost before = self@;
                self.set_pixel(px, py, r, g, b, a);
                proof {
                    let wd = start.width as int;
                    assert forall|qx: int, qy: int|
                        0 <= qx < start.width && 0 <= qy < start.height implies #[trigger] pixel_of(
                        self@.pixels,
                        pixel_index(wd, qx, qy),
                    ) == (if x <= qx < x + (px + 1 - x) && py <= qy < py + 1 {
                        color
                    } else {
                        pixel_of(row_start.pixels, pixel_index(wd, qx, qy))
                    }) by {
                        assert(pixel_of(before.pixels, pixel_index(wd, qx, qy)) == (if x <= qx < x
                            + (px - x) && py <= qy < py + 1 {
                            color
                        } else {
                            pixel_of(row_start.pixels, pixel_index(wd, qx, qy))
                        }));
                        assert(pixel_of(self@.pixels, pixel_index(wd, qx, qy)) == (if px <= qx < px
                            + 1 && py <= qy < py + 1 {
                            color
                        } else {
                            pixel_of(before.pixels, pixel_index(wd, qx, qy))
                        }));
                    }
                }
                px += 1;
            }
            proof {
                let wd = start.width as int;
                assert forall|qx: int, qy: int|
                    0 <= qx < start.width && 0 <= qy < start.height implies #[trigger] pixel_of(
                    self@.pixels,
                    pixel_index(wd, qx, qy),
                ) == (if x <= qx < x + w && y <= qy < y + (py + 1 - y) {
                    color
                } else {
                    pixel_of(start.pixels, pixel_index(wd, qx, qy))
                }) by {
                    assert(pixel_of(row_start.pixels, pixel_index(wd, qx, qy)) == (if x <= qx < x
                        + w && y <= qy < y + (py - y) {
                        color
                    } else {
                        pixel_of(start.pixels, pixel_index(wd, qx, qy))
                    }));
                    assert(pixel_of(self@.pixels, pixel_index(wd, qx, qy)) == (if x <= qx < x + (px
                        - x) && py <= qy < py + 1 {
                        color
                    } else {
                        pixel_of(row_start.pixels, pixel_index(wd, qx, qy))
                    }));
                }
            }
            py += 1;
        }
        proof {
            let wd = start.width as int;
            assert forall|qx: int, qy: int|
                0 <= qx < start.width && 0 <= qy < start.height implies #[trigger] pixel_of(
                self@.pixels,
                pixel_index(wd, qx, qy),
            ) == (if x <= qx < x + w && y <= qy < y + h {
                color
            } else {
                pixel_of(start.pixels, pixel_index(wd, qx, qy))
            }) by {
                assert(pixel_of(self@.pixels, pixel_index(wd, qx, qy)) == (if x <= qx < x + w && y
                    <= qy < y + (py - y) {
                    color
                } else {
                    pixel_of(start.pixels, pixel_index(wd, qx, qy))
                }));
            }
        }
    }
}

/// A block of bytes of fixed size.
pub struct MemoryBlock {
    data: Vec<u8>,
}

impl View for MemoryBlock {
    type V = Seq<u8>;

    closed spec fn view(&self) -> Seq<u8> {
        self.data@
    }
}

/// Overwrites every byte of a run with `value`.
fn set_all(data: &mut Vec<u8>, value: u8)
    ensures
        final(data)@ == Seq::new(old(data)@.len(), |i: int| value),
{
    let mut i: usize = 0;
    while i < data.len()
        invariant
            i <= data@.len(),
            data@.len() == old(data)@.len(),
            forall|k: int| 0 <= k < i ==> data@[k] == value,
        decreases data@.len() - i,
    {
        data[i] = value;
        i += 1;
    }
    assert(data@ =~= Seq::new(old(data)@.len(), |i: int| value));
}

impl MemoryBlock {
    /// Makes a block of `size` zero bytes.
    pub fn new(size: usize) -> (block: MemoryBlock)
        ensures
            block@ == zeros(size as int),
    {
        MemoryBlock { data: zeroed(size) }
    }

    /// The number of bytes of the block.
    pub fn size(&self) -> (size: usize)
        ensures
            size == self@.len(),
    {
        self.data.len()
    }

    /// The bytes of the block.
    pub fn data(&self) -> (bytes: &[u8])
        ensures
            bytes@ == self@,
    {
        self.data.as_slice()
    }

    /// Sets every byte to 0.
    pub fn fill_zeros(&mut self)
        ensures
            final(self)@ == zeros(old(self)@.len() as int),
    {
        set_all(&mut self.data, 0);
        proof {
            assert(self@ =~= zeros(old(self)@.len() as int));
        }
    }

    /// Sets every byte to 255.
    pub fn fill_ones(&mut self)
        ensures
            final(self)@ == Seq::new(old(self)@.len(), |i: int| 255u8),
    {
        set_all(&mut self.data, 0xFF);
    }
}

} // verus!
