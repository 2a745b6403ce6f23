use vstd::prelude::*;
use crate::blend::{blend_into, over};
use crate::pixels::{
    byte_len,
    lemma_pixel_index_bound,
    lemma_pixel_index_injective,
    lemma_pixel_position,
    pixel_index,
    pixel_of,
    Bitmap,
};
use crate::sampling::{
    bytes_of,
    nearest,
    sample_nearest,
    sample_supersampling,
    supersampled,
    transparent,
    SamplingMethod,
};

verus! {

/// What a layer holds, as plain values.
pub struct LayerView {
    /// The scene column of the layer's left edge.
    pub left: u32,
    /// The scene row of the layer's upper edge.
    pub top: u32,
    pub width: u32,
    pub height: u32,
    /// The sampled colours, row by row, four bytes for each pixel.
    pub pixels: Seq<u8>,
}

impl LayerView {
    /// The layer has four bytes for each of its pixels.
    pub open spec fn wf(self) -> bool {
        self.pixels.len() == byte_len(self.width as int, self.height as int)
    }

    /// Whether the scene pixel `(x, y)` lies under the layer.
    pub open spec fn covers(self, x: int, y: int) -> bool {
        self.left <= x < self.left + self.width && self.top <= y < self.top + self.height
    }

    /// The colour that the layer has for the scene pixel `(x, y)`.
    pub open spec fn color_at(self, x: int, y: int) -> Seq<u8> {
        pixel_of(self.pixels, pixel_index(self.width as int, x - self.left, y - self.top))
    }
}

/// What a sample shows: its colour, or transparent black where there is
/// none.
pub open spec fn shown(color: Option<Seq<u8>>) -> Seq<u8> {
    match color {
        Some(c) => c,
        None => transparent(),
    }
}

/// The bitmap of `n` columns and `m` rows whose pixel in column `i` of row
/// `j` has the colour `color(i, j)`.
pub open spec fn grid_pixels(n: int, m: int, color: spec_fn(int, int) -> Seq<u8>) -> Seq<u8> {
    Seq::new((4 * (n * m)) as nat, |b: int| color((b / 4) % n, (b / 4) / n)[b % 4])
}

/// The pixel in column `i` of row `j` of such a bitmap has the colour
/// `color(i, j)`, where that has four bytes.
pub proof fn lemma_grid_pixel(n: int, m: int, color: spec_fn(int, int) -> Seq<u8>, i: int, j: int)
    requires
        0 <= i < n,
        0 <= j < m,
        color(i, j).len() == 4,
    ensures
        grid_pixels(n, m, color).len() == byte_len(n, m),
        pixel_of(grid_pixels(n, m, color), pixel_index(n, i, j)) == color(i, j),
{
    let k = pixel_index(n, i, j);
    lemma_pixel_index_bound(n, m, i, j);
    assert(0 <= n * m) by (nonlinear_arith)
        requires
            0 <= n,
            0 <= m,
    ;
    assert(byte_len(n, m) == 4 * (n * m)) by (nonlinear_arith);
    vstd::arithmetic::div_mod::lemma_fundamental_div_mod_converse(k, n, j, i);
    let grid = grid_pixels(n, m, color);
    assert forall|c: int| 0 <= c < 4 implies pixel_of(grid, k)[c] == color(i, j)[c] by {
        assert((4 * k + c) / 4 == k && (4 * k + c) % 4 == c);
        assert(pixel_of(grid, k)[c] == grid[4 * k + c]);
    }
    assert(pixel_of(grid, k) =~= color(i, j));
}

/// The colour that nearest sampling gives for each column and row of a
/// layer, where `cols` and `rows` hold the bitmap column and row of each.
pub open spec fn nearest_colors(
    data: Seq<u8>,
    width: u32,
    height: u32,
    cols: Seq<i32>,
    rows: Seq<i32>,
) -> spec_fn(int, int) -> Seq<u8> {
    |i: int, j: int| shown(nearest(data, width, height, cols[i] as int, rows[j] as int))
}

/// The colour that supersampling gives for each column and row of a layer,
/// where the four sequences hold the two bitmap columns and the two bitmap
/// rows of the sub-samples of each.
pub open spec fn supersampled_colors(
    data: Seq<u8>,
    width: u32,
    height: u32,
    cols_lo: Seq<i32>,
    cols_hi: Seq<i32>,
    rows_lo: Seq<i32>,
    rows_hi: Seq<i32>,
) -> spec_fn(int, int) -> Seq<u8> {
    |i: int, j: int|
        shown(
            supersampled(
                data,
                width,
                height,
                cols_lo[i] as int,
                cols_hi[i] as int,
                rows_lo[j] as int,
                rows_hi[j] as int,
            ),
        )
}

/// The colour that a list of samples gives for each column and row of a
/// grid that is `n` columns wide. The list holds the samples row by row. A
/// sample that missed shows transparent black, and so does a pixel for
/// which the list holds no sample.
pub open spec fn sample_colors(n: int, samples: Seq<Option<[u8; 4]>>) -> spec_fn(int, int) -> Seq<
    u8,
> {
    |i: int, j: int|
        if 0 <= j * n + i < samples.len() {
            shown(bytes_of(samples[j * n + i]))
        } else {
            transparent()
        }
}

/// Whether a layer of `n` columns and `m` rows can be addressed.
pub open spec fn grid_fits(n: int, m: int) -> bool {
    n <= u32::MAX && m <= u32::MAX && byte_len(n, m) <= usize::MAX
}

/// A value held between 0 and `limit`.
pub open spec fn clamped(value: int, limit: int) -> int {
    if value < 0 {
        0
    } else if value > limit {
        limit
    } else {
        value
    }
}

/// Clips the span from `lo` up to, not including, `hi` to a scene that is
/// `limit` pixels wide or high. The clipped span is empty where its end does
/// not lie after its start.
pub fn clip_span(lo: i32, hi: i32, limit: u32) -> (span: (u32, u32))
    ensures
        span.0 == clamped(lo as int, limit as int),
        span.1 == clamped(hi as int, limit as int),
{
    let start: u32 = if lo < 0 {
        0
    } else if lo as u32 > limit {
        limit
    } else {
        lo as u32
    };
    let end: u32 = if hi < 0 {
        0
    } else if hi as u32 > limit {
        limit
    } else {
        hi as u32
    };
    (start, end)
}

/// Makes the bitmap of `width` by `height` pixels that a list of samples
/// shows. The list holds the samples row by row; a pixel whose sample
/// missed, or for which the list holds no sample, is left transparent
/// black.
pub fn assemble(width: u32, height: u32, samples: &[Option<[u8; 4]>]) -> (pixels: Vec<u8>)
    requires
        byte_len(width as int, height as int) <= usize::MAX,
    ensures
        pixels@ == grid_pixels(width as int, height as int, sample_colors(width as int, samples@)),
{
    let ghost n = width as int;
    let ghost m = height as int;
    let ghost goal = grid_pixels(n, m, sample_colors(n, samples@));
    proof {
        assert(0 <= n * m <= n * m * 4) by (nonlinear_arith)
            requires
                0 <= n,
                0 <= m,
        ;
        assert(byte_len(n, m) == 4 * (n * m)) by (nonlinear_arith);
    }
    let count: usize = width as usize * height as usize;
    let mut pixels: Vec<u8> = Vec::new();
    let mut k: usize = 0;
    while k < count
        invariant
            k <= count,
            count == n * m,
            n == width,
            m == height,
            goal == grid_pixels(n, m, sample_colors(n, samples@)),
            pixels@.len() == 4 * k,
            forall|b: int| 0 <= b < pixels@.len() ==> pixels@[b] == goal[b],
        decreases count - k,
    {
        let texel: [u8; 4] = if k < samples.len() {
            match samples[k] {
                Some(c) => c,
                None => [0, 0, 0, 0],
            }
        } else {
            [0, 0, 0, 0]
        };
        proof {
            assert(n > 0) by (nonlinear_arith)
                requires
                    0 <= k < n * m,
                    0 <= n,
            ;
            lemma_pixel_position(n, k as int);
            let i = k as int % n;
            let j = k as int / n;
            assert(j * n + i == k);
            assert(texel@ =~= sample_colors(n, samples@)(i, j));
            assert forall|c: int| 0 <= c < 4 implies texel@[c] == #[trigger] goal[4 * k + c] by {
                assert((4 * k + c) / 4 == k && (4 * k + c) % 4 == c);
            }
        }
        let ghost before = pixels@;
        pixels.push(texel[0]);
        pixels.push(texel[1]);
        pixels.push(texel[2]);
        pixels.push(texel[3]);
        proof {
            assert forall|b: int| 0 <= b < pixels@.len() implies pixels@[b] == goal[b] by {
                if b < 4 * k {
                    assert(pixels@[b] == before[b]);
                } else {
                    assert(pixels@[b] == texel@[b - 4 * k]);
                    assert(goal[4 * k + (b - 4 * k)] == texel@[b - 4 * k]);
                }
            }
        }
        k += 1;
    }
    proof {
        assert(pixels@ =~= goal);
    }
    pixels
}

/// The bitmap columns or rows that the sample point of one layer column or
/// row rounds to: the point itself, and the two sub-sample points a quarter
/// of a pixel before and after it.
#[derive(Debug, Clone, Copy)]
pub struct AxisTap {
    /// Where the sample point rounds to.
    pub near: i32,
    /// Where the sub-sample point before it rounds to.
    pub lo: i32,
    /// Where the sub-sample point after it rounds to.
    pub hi: i32,
}

/// Where the sample points of a run of layer columns or rows round to.
pub open spec fn nears(taps: Seq<AxisTap>) -> Seq<i32> {
    Seq::new(taps.len(), |i: int| taps[i].near)
}

/// Where the sub-sample points before the sample points round to.
pub open spec fn los(taps: Seq<AxisTap>) -> Seq<i32> {
    Seq::new(taps.len(), |i: int| taps[i].lo)
}

/// Where the sub-sample points after the sample points round to.
pub open spec fn his(taps: Seq<AxisTap>) -> Seq<i32> {
    Seq::new(taps.len(), |i: int| taps[i].hi)
}

/// Splits a run of taps into its three parts.
fn split_taps(taps: &Vec<AxisTap>) -> (parts: (Vec<i32>, Vec<i32>, Vec<i32>))
    ensures
        parts.0@ == nears(taps@),
        parts.1@ == los(taps@),
        parts.2@ == his(taps@),
{
    let mut near: Vec<i32> = Vec::new();
    let mut lo: Vec<i32> = Vec::new();
    let mut hi: Vec<i32> = Vec::new();
    let mut i: usize = 0;
    while i < taps.len()
        invariant
            i <= taps.len(),
            near@ == nears(taps@.take(i as int)),
            lo@ == los(taps@.take(i as int)),
            hi@ == his(taps@.take(i as int)),
        decreases taps.len() - i,
    {
        near.push(taps[i].near);
        lo.push(taps[i].lo);
        hi.push(taps[i].hi);
        i += 1;
        proof {
            assert(near@ =~= nears(taps@.take(i as int)));
            assert(lo@ =~= los(taps@.take(i as int)));
            assert(hi@ =~= his(taps@.take(i as int)));
        }
    }
    proof {
        assert(taps@.take(taps@.len() as int) =~= taps@);
    }
    (near, lo, hi)
}

/// Where one sprite lands in a scene for one frame: the scene pixel of the
/// upper left corner of the rectangle that it covers and, for each column
/// and row of that rectangle, where the sample point falls in the bitmap of
/// the sprite.
#[derive(Debug)]
pub struct Placement {
    /// The scene column of the left edge.
    pub left: u32,
    /// The scene row of the upper edge.
    pub top: u32,
    /// One entry for each column of the rectangle.
    pub cols: Vec<AxisTap>,
    /// One entry for each row of the rectangle.
    pub rows: Vec<AxisTap>,
    /// The colours that bilinear sampling gave for the pixels of the
    /// rectangle, row by row, `None` where it missed. Read under bilinear
    /// sampling only, whose weights are not whole numbers.
    pub weighted: Vec<Option<[u8; 4]>>,
}

impl Placement {
    /// Whether the rectangle can be addressed.
    pub open spec fn fits(self) -> bool {
        grid_fits(self.cols@.len() as int, self.rows@.len() as int)
    }

    /// The colours of the rectangle under a sampling method: what the
    /// bitmap holds at the nearest pixels, the mean over its sub-samples,
    /// or the colours that came with the placement.
    pub open spec fn colors(self, bitmap: Bitmap, method: SamplingMethod) -> spec_fn(int, int) -> Seq<
        u8,
    > {
        match method {
            SamplingMethod::Nearest => nearest_colors(
                bitmap.pixels,
                bitmap.width,
                bitmap.height,
                nears(self.cols@),
                nears(self.rows@),
            ),
            SamplingMethod::Supersampling => supersampled_colors(
                bitmap.pixels,
                bitmap.width,
                bitmap.height,
                los(self.cols@),
                his(self.cols@),
                los(self.rows@),
                his(self.rows@),
            ),
            SamplingMethod::Bilinear => sample_colors(self.cols@.len() as int, self.weighted@),
        }
    }

    /// The layer that a bitmap shows at this placement under a sampling
    /// method.
    pub open spec fn sampled(self, bitmap: Bitmap, method: SamplingMethod) -> LayerView {
        LayerView {
            left: self.left,
            top: self.top,
            width: self.cols@.len() as u32,
            height: self.rows@.len() as u32,
            pixels: grid_pixels(
                self.cols@.len() as int,
                self.rows@.len() as int,
                self.colors(bitmap, method),
            ),
        }
    }

    /// Samples a bitmap at this placement by the given method.
    pub fn sample(&self, data: &[u8], width: u32, height: u32, method: SamplingMethod) -> (layer:
        Layer)
        requires
            data@.len() == byte_len(width as int, height as int),
            self.fits(),
        ensures
            layer@ == self.sampled(Bitmap { pixels: data@, width, height }, method),
    {
        match method {
            SamplingMethod::Nearest => {
                let cols = split_taps(&self.cols);
                let rows = split_taps(&self.rows);
                Layer::nearest(
                    data,
                    width,
                    height,
                    self.left,
                    self.top,
                    cols.0.as_slice(),
                    rows.0.as_slice(),
                )
            },
            SamplingMethod::Supersampling => {
                let cols = split_taps(&self.cols);
                let rows = split_taps(&self.rows);
                Layer::supersampled(
                    data,
                    width,
                    height,
                    self.left,
                    self.top,
                    cols.1.as_slice(),
                    cols.2.as_slice(),
                    rows.1.as_slice(),
                    rows.2.as_slice(),
                )
            },
            SamplingMethod::Bilinear => Layer::from_samples(
                self.left,
                self.top,
                self.cols.len() as u32,
                self.rows.len() as u32,
                self.weighted.as_slice(),
            ),
        }
    }
}

/// Under nearest sampling, a placed bitmap shows at each scene pixel of its
/// rectangle the bitmap pixel that the sample point of that column and row
/// rounds to, and nothing where that lies outside the bitmap.
pub proof fn lemma_placed_nearest_pixel(placement: Placement, bitmap: Bitmap, i: int, j: int)
    requires
        bitmap.wf(),
        placement.fits(),
        0 <= i < placement.cols@.len(),
        0 <= j < placement.rows@.len(),
    ensures
        placement.sampled(bitmap, SamplingMethod::Nearest).covers(
            placement.left + i,
            placement.top + j,
        ),
        placement.sampled(bitmap, SamplingMethod::Nearest).color_at(
            placement.left + i,
            placement.top + j,
        ) == shown(
            nearest(
                bitmap.pixels,
                bitmap.width,
                bitmap.height,
                placement.cols@[i].near as int,
                placement.rows@[j].near as int,
            ),
        ),
{
    let n = placement.cols@.len() as int;
    let m = placement.rows@.len() as int;
    let x = placement.cols@[i].near as int;
    let y = placement.rows@[j].near as int;
    let colors = placement.colors(bitmap, SamplingMethod::Nearest);
    assert(colors(i, j) == shown(nearest(bitmap.pixels, bitmap.width, bitmap.height, x, y)));
    if 0 <= x < bitmap.width && 0 <= y < bitmap.height {
        lemma_pixel_index_bound(bitmap.width as int, bitmap.height as int, x, y);
    }
    assert(colors(i, j).len() == 4);
    lemma_grid_pixel(n, m, colors, i, j);
}

/// The colours that one sprite shows over a rectangle of a scene, as they
/// were sampled for one frame. A pixel with alpha 0 shows nothing.
#[derive(Debug)]
pub struct Layer {
    left: u32,
    top: u32,
    width: u32,
    height: u32,
    pixels: Vec<u8>,
}

impl View for Layer {
    type V = LayerView;

    closed spec fn view(&self) -> LayerView {
        LayerView {
            left: self.left,
            top: self.top,
            width: self.width,
            height: self.height,
            pixels: self.pixels@,
        }
    }
}

/// What a list of layers holds, as plain values.
pub open spec fn views_of(layers: Seq<Layer>) -> Seq<LayerView> {
    Seq::new(layers.len(), |i: int| layers[i]@)
}

impl Layer {
    #[verifier::type_invariant]
    spec fn well_sized(self) -> bool {
        self.pixels@.len() == byte_len(self.width as int, self.height as int)
    }

    /// A layer that covers no pixel.
    pub fn empty() -> (layer: Layer)
        ensures
            layer@ == (LayerView { left: 0, top: 0, width: 0, height: 0, pixels: Seq::empty() }),
    {
        let layer = Layer { left: 0, top: 0, width: 0, height: 0, pixels: Vec::new() };
        proof {
            assert(layer@.pixels =~= Seq::empty());
        }
        layer
    }

    /// Makes a layer from sampled colours, where there are four bytes for
    /// each pixel of the rectangle; `None` for any other number of bytes.
    pub fn new(left: u32, top: u32, width: u32, height: u32, pixels: Vec<u8>) -> (layer: Option<
        Layer,
    >)
        ensures
            layer.is_some() == (pixels@.len() == byte_len(width as int, height as int)),
            layer.is_some() ==> layer.unwrap()@ == (LayerView {
                left,
                top,
                width,
                height,
                pixels: pixels@,
            }),
    {
        proof {
            assert(width as int * height as int <= 0xffff_ffff * 0xffff_ffff) by (nonlinear_arith)
                requires
                    0 <= width <= 0xffff_ffff,
                    0 <= height <= 0xffff_ffff,
            ;
        }
        let expected: u128 = width as u128 * height as u128 * 4;
        if pixels.len() as u128 == expected {
            Some(Layer { left, top, width, height, pixels })
        } else {
            None
        }
    }

    /// Makes a layer of `width` by `height` pixels from a list of samples,
    /// row by row. A pixel whose sample missed, or for which the list holds
    /// no sample, shows nothing.
    pub fn from_samples(
        left: u32,
        top: u32,
        width: u32,
        height: u32,
        samples: &[Option<[u8; 4]>],
    ) -> (layer: Layer)
        requires
            byte_len(width as int, height as int) <= usize::MAX,
        ensures
            layer@ == (LayerView {
                left,
                top,
                width,
                height,
                pixels: grid_pixels(
                    width as int,
                    height as int,
                    sample_colors(width as int, samples@),
                ),
            }),
    {
        let pixels = assemble(width, height, samples);
        proof {
            assert(0 <= width as int * height as int) by (nonlinear_arith)
                requires
                    0 <= width,
                    0 <= height,
            ;
            assert(byte_len(width as int, height as int) == 4 * (width as int * height as int))
                by (nonlinear_arith);
        }
        Layer { left, top, width, height, pixels }
    }

    /// Samples a bitmap for every pixel of a layer, by nearest sampling or
    /// by supersampling.
    fn sample_grid(
        data: &[u8],
        width: u32,
        height: u32,
        left: u32,
        top: u32,
        cols_lo: &[i32],
        cols_hi: &[i32],
        rows_lo: &[i32],
        rows_hi: &[i32],
        supersample: bool,
    ) -> (layer: Layer)
        requires
            data@.len() == byte_len(width as int, height as int),
            cols_hi@.len() == cols_lo@.len(),
            rows_hi@.len() == rows_lo@.len(),
            grid_fits(cols_lo@.len() as int, rows_lo@.len() as int),
        ensures
            layer@ == (LayerView {
                left,
                top,
                width: cols_lo@.len() as u32,
                height: rows_lo@.len() as u32,
                pixels: grid_pixels(
                    cols_lo@.len() as int,
                    rows_lo@.len() as int,
                    if supersample {
                        supersampled_colors(data@, width, height, cols_lo@, cols_hi@, rows_lo@, rows_hi@)
                    } else {
                        nearest_colors(data@, width, height, cols_lo@, rows_lo@)
                    },
                ),
            }),
    {
        let n: usize = cols_lo.len();
        let m: usize = rows_lo.len();
        let ghost color = if supersample {
            supersampled_colors(data@, width, height, cols_lo@, cols_hi@, rows_lo@, rows_hi@)
        } else {
            nearest_colors(data@, width, height, cols_lo@, rows_lo@)
        };
        let ghost goal = grid_pixels(n as int, m as int, color);
        let mut pixels: Vec<u8> = Vec::new();
        let mut j: usize = 0;
        while j < m
            invariant
                j <= m,
                n == cols_lo@.len(),
                m == rows_lo@.len(),
                cols_hi@.len() == n,
                rows_hi@.len() == m,
                data@.len() == byte_len(width as int, height as int),
                goal == grid_pixels(n as int, m as int, color),
                color == (if supersample {
                    supersampled_colors(data@, width, height, cols_lo@, cols_hi@, rows_lo@, rows_hi@)
                } else {
                    nearest_colors(data@, width, height, cols_lo@, rows_lo@)
                }),
                pixels@.len() == 4 * (j * n),
                forall|b: int| 0 <= b < pixels@.len() ==> pixels@[b] == goal[b],
            decreases m - j,
        {
            let mut i: usize = 0;
            while i < n
                invariant
                    i <= n,
                    j < m,
                    n == cols_lo@.len(),
                    m == rows_lo@.len(),
                    cols_hi@.len() == n,
                    rows_hi@.len() == m,
                    data@.len() == byte_len(width as int, height as int),
                    goal == grid_pixels(n as int, m as int, color),
                    color == (if supersample {
                        supersampled_colors(
                            data@,
                            width,
                            height,
                            cols_lo@,
                            cols_hi@,
                            rows_lo@,
                            rows_hi@,
                        )
                    } else {
                        nearest_colors(data@, width, height, cols_lo@, rows_lo@)
                    }),
                    pixels@.len() == 4 * (j * n + i),
                    forall|b: int| 0 <= b < pixels@.len() ==> pixels@[b] == goal[b],
                decreases n - i,
            {
                let sample = if supersample {
                    sample_supersampling(
                        data,
                        width,
                        height,
                        cols_lo[i],
                        cols_hi[i],
                        rows_lo[j],
                        rows_hi[j],
                    )
                } else {
                    sample_nearest(data, width, height, cols_lo[i], rows_lo[j])
                };
                let texel: [u8; 4] = match sample {
                    Some(c) => c,
                    None => [0, 0, 0, 0],
                };
                proof {
                    let k = j * n + i;
                    assert(texel@ =~= shown(bytes_of(sample)));
                    assert(texel@ == color(i as int, j as int));
                    assert(0 <= k) by (nonlinear_arith)
                        requires
                            k == j * n + i,
                            0 <= j,
                            0 <= n,
                            0 <= i,
                    ;
                    assert(k < n * m) by (nonlinear_arith)
                        requires
                            k == j * n + i,
                            0 <= i < n,
                            0 <= j < m,
                    ;
                    vstd::arithmetic::div_mod::lemma_fundamental_div_mod_converse(
                        k,
                        n as int,
                        j as int,
                        i as int,
                    );
                    assert forall|c: int| 0 <= c < 4 implies texel@[c] == #[trigger] goal[4 * k
                        + c] by {
                        assert((4 * k + c) / 4 == k && (4 * k + c) % 4 == c);
                    }
                }
                let ghost before = pixels@;
                pixels.push(texel[0]);
                pixels.push(texel[1]);
                pixels.push(texel[2]);
                pixels.push(texel[3]);
                proof {
                    let k = j * n + i;
                    assert forall|b: int| 0 <= b < pixels@.len() implies pixels@[b] == goal[b] by {
                        if b < 4 * k {
                            assert(pixels@[b] == before[b]);
                        } else {
                            assert(pixels@[b] == texel@[b - 4 * k]);
                            assert(goal[4 * k + (b - 4 * k)] == texel@[b - 4 * k]);
                        }
                    }
                }
                i += 1;
            }
            proof {
                assert(j * n + n == (j + 1) * n) by (nonlinear_arith);
            }
            j += 1;
        }
        proof {
            assert(m * n == n * m) by (nonlinear_arith);
            assert(byte_len(n as int, m as int) == 4 * (n * m)) by (nonlinear_arith);
            assert(pixels@ =~= goal);
        }
        Layer { left, top, width: n as u32, height: m as u32, pixels }
    }

    /// Makes the layer that a bitmap shows under nearest sampling. The
    /// layer has a column for each entry of `cols` and a row for each entry
    /// of `rows`; an entry is the bitmap column or row that the sample point
    /// of that layer column or row rounds to.
    pub fn nearest(
        data: &[u8],
        width: u32,
        height: u32,
        left: u32,
        top: u32,
        cols: &[i32],
        rows: &[i32],
    ) -> (layer: Layer)
        requires
            data@.len() == byte_len(width as int, height as int),
            grid_fits(cols@.len() as int, rows@.len() as int),
        ensures
            layer@ == (LayerView {
                left,
                top,
                width: cols@.len() as u32,
                height: rows@.len() as u32,
                pixels: grid_pixels(
                    cols@.len() as int,
                    rows@.len() as int,
                    nearest_colors(data@, width, height, cols@, rows@),
                ),
            }),
    {
        Layer::sample_grid(data, width, height, left, top, cols, cols, rows, rows, false)
    }

    /// Makes the layer that a bitmap shows under supersampling. The layer
    /// has a column for each entry of `cols_lo` and a row for each entry of
    /// `rows_lo`. The sub-sample points of a layer pixel lie a quarter of a
    /// pixel to either side of its sample point; the entries are the bitmap
    /// columns and rows that they round to.
    pub fn supersampled(
        data: &[u8],
        width: u32,
        height: u32,
        left: u32,
        top: u32,
        cols_lo: &[i32],
        cols_hi: &[i32],
        rows_lo: &[i32],
        rows_hi: &[i32],
    ) -> (layer: Layer)
        requires
            data@.len() == byte_len(width as int, height as int),
            cols_hi@.len() == cols_lo@.len(),
            rows_hi@.len() == rows_lo@.len(),
            grid_fits(cols_lo@.len() as int, rows_lo@.len() as int),
        ensures
            layer@ == (LayerView {
                left,
                top,
                width: cols_lo@.len() as u32,
                height: rows_lo@.len() as u32,
                pixels: grid_pixels(
                    cols_lo@.len() as int,
                    rows_lo@.len() as int,
                    supersampled_colors(data@, width, height, cols_lo@, cols_hi@, rows_lo@, rows_hi@),
                ),
            }),
    {
        Layer::sample_grid(
            data,
            width,
            height,
            left,
            top,
            cols_lo,
            cols_hi,
            rows_lo,
            rows_hi,
            true,
        )
    }

    /// The scene column of the left edge.
    pub fn left(&self) -> (left: u32)
        ensures
            left == self@.left,
    {
        self.left
    }

    /// The scene row of the upper edge.
    pub fn top(&self) -> (top: u32)
        ensures
            top == self@.top,
    {
        self.top
    }

    /// The width in pixels.
    pub fn width(&self) -> (width: u32)
        ensures
            width == self@.width,
    {
        self.width
    }

    /// The height in pixels.
    pub fn height(&self) -> (height: u32)
        ensures
            height == self@.height,
    {
        self.height
    }

    /// The sampled colours.
    pub fn pixels(&self) -> (bytes: &[u8])
        ensures
            bytes@ == self@.pixels,
            self@.wf(),
    {
        proof {
            use_type_invariant(self);
        }
        self.pixels.as_slice()
    }
}

/// The scene pixel `(x, y)` after a layer was laid over it: blended where
/// the layer covers it, unchanged elsewhere.
pub open spec fn layer_over(below: Seq<u8>, layer: LayerView, x: int, y: int) -> Seq<u8> {
    if layer.covers(x, y) {
        over(below, layer.color_at(x, y))
    } else {
        below
    }
}

/// Whether `now` is the bitmap `before` with the layer laid over the rows
/// above `row` and over the pixels of row `row` left of `col`.
pub open spec fn laid_until(
    before: Seq<u8>,
    now: Seq<u8>,
    width: u32,
    height: u32,
    layer: LayerView,
    row: int,
    col: int,
) -> bool {
    &&& now.len() == before.len()
    &&& forall|x: int, y: int|
        0 <= x < width && 0 <= y < height ==> #[trigger] pixel_of(
            now,
            pixel_index(width as int, x, y),
        ) == (if y < row || (y == row && x < col) {
            layer_over(pixel_of(before, pixel_index(width as int, x, y)), layer, x, y)
        } else {
            pixel_of(before, pixel_index(width as int, x, y))
        })
}

/// Whether `now` is the bitmap `before` with the layer laid over it.
pub open spec fn laid_over(
    before: Seq<u8>,
    now: Seq<u8>,
    width: u32,
    height: u32,
    layer: LayerView,
) -> bool {
    &&& now.len() == before.len()
    &&& forall|x: int, y: int|
        0 <= x < width && 0 <= y < height ==> #[trigger] pixel_of(
            now,
            pixel_index(width as int, x, y),
        ) == layer_over(pixel_of(before, pixel_index(width as int, x, y)), layer, x, y)
}

/// Lays a layer over a `width` by `height` bitmap. The part of the layer
/// that lies outside the bitmap is left out.
pub fn draw_layer(buf: &mut Vec<u8>, width: u32, height: u32, layer: &Layer)
    requires
        old(buf)@.len() == byte_len(width as int, height as int),
    ensures
        laid_over(old(buf)@, final(buf)@, width, height, layer@),
{
    proof {
        use_type_invariant(layer);
    }
    let right: u64 = layer.left as u64 + layer.width as u64;
    let bottom: u64 = layer.top as u64 + layer.height as u64;
    let x_end: u64 = if right < width as u64 {
        right
    } else {
        width as u64
    };
    let y_end: u64 = if bottom < height as u64 {
        bottom
    } else {
        height as u64
    };
    let mut y: u64 = layer.top as u64;
    while y < y_end
        invariant
            layer.top <= y,
            y_end <= height,
            y_end <= layer.top + layer.height,
            x_end <= width,
            x_end <= layer.left + layer.width,
            x_end == width || x_end == layer.left + layer.width,
            layer@.wf(),
            buf@.len() == byte_len(width as int, height as int),
            laid_until(old(buf)@, buf@, width, height, layer@, y as int, 0),
        decreases y_end - y,
    {
        let mut x: u64 = layer.left as u64;
        proof {
            assert(laid_until(old(buf)@, buf@, width, height, layer@, y as int, x as int));
        }
        while x < x_end
            invariant
                layer.top <= y < y_end,
                layer.left <= x,
                y_end <= height,
                y_end <= layer.top + layer.height,
                x_end <= width,
                x_end <= layer.left + layer.width,
                layer@.wf(),
                buf@.len() == byte_len(width as int, height as int),
                laid_until(old(buf)@, buf@, width, height, layer@, y as int, x as int),
            decreases x_end - x,
        {
            let ghost before = buf@;
            let lx: u64 = x - layer.left as u64;
            let ly: u64 = y - layer.top as u64;
            proof {
                lemma_pixel_index_bound(
                    layer.width as int,
                    layer.height as int,
                    lx as int,
                    ly as int,
                );
                lemma_pixel_index_bound(width as int, height as int, x as int, y as int);
            }
            assert(byte_len(layer.width as int, layer.height as int) == layer.pixels.len());
            assert(byte_len(width as int, height as int) == buf.len());
            let from: usize = 4 * (ly as usize * layer.width as usize + lx as usize);
            let src: [u8; 4] = [
                layer.pixels[from],
                layer.pixels[from + 1],
                layer.pixels[from + 2],
                layer.pixels[from + 3],
            ];
            let index: usize = y as usize * width as usize + x as usize;
            proof {
                assert(src@ =~= layer@.color_at(x as int, y as int));
                assert(layer@.covers(x as int, y as int));
            }
            blend_into(buf, index, src);
            proof {
                assert forall|px: int, py: int| 0 <= px < width && 0 <= py < height implies (
                #[trigger] pixel_of(buf@, pixel_index(width as int, px, py))) == (if py < y || (py
                    == y && px < x + 1) {
                    layer_over(
                        pixel_of(old(buf)@, pixel_index(width as int, px, py)),
                        layer@,
                        px,
                        py,
                    )
                } else {
                    pixel_of(old(buf)@, pixel_index(width as int, px, py))
                }) by {
                    let other = pixel_index(width as int, px, py);
                    if px == x && py == y {
                        assert(pixel_of(before, other) == pixel_of(old(buf)@, other));
                    } else {
                        if other == index {
                            lemma_pixel_index_injective(width as int, px, py, x as int, y as int);
                        }
                        lemma_pixel_index_bound(width as int, height as int, px, py);
                        assert(pixel_of(buf@, other) =~= pixel_of(before, other));
                    }
                }
            }
            x += 1;
        }
        proof {
            assert forall|px: int, py: int| 0 <= px < width && 0 <= py < height implies (
            #[trigger] pixel_of(buf@, pixel_index(width as int, px, py))) == (if py < y + 1 {
                layer_over(pixel_of(old(buf)@, pixel_index(width as int, px, py)), layer@, px, py)
            } else {
                pixel_of(old(buf)@, pixel_index(width as int, px, py))
            }) by {
                if py == y && px >= x {
                    assert(!layer@.covers(px, py));
                }
            }
        }
        y += 1;
    }
    proof {
        assert forall|px: int, py: int| 0 <= px < width && 0 <= py < height implies (
        #[trigger] pixel_of(buf@, pixel_index(width as int, px, py))) == layer_over(
            pixel_of(old(buf)@, pixel_index(width as int, px, py)),
            layer@,
            px,
            py,
        ) by {
            if py >= y {
                assert(!layer@.covers(px, py));
            }
        }
    }
}

} // verus!
