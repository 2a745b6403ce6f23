use vstd::prelude::*;
use crate::pixels::{byte_len, lemma_pixel_index_bound, pixel_index, pixel_of};

verus! {

/// How a scene reconstructs a colour from a sprite bitmap at a sample point.
#[derive(Debug, Clone, Copy, PartialEq, Eq, Structural)]
pub enum SamplingMethod {
    /// The pixel nearest to the sample point.
    Nearest,
    /// A weighted mean of the four surrounding pixels.
    Bilinear,
    /// The mean of four nearest-pixel sub-samples.
    Supersampling,
}

impl SamplingMethod {
    /// The method that a numeric code selects: 1 and 2 select `Bilinear` and
    /// `Supersampling`, every other code selects `Nearest`.
    pub open spec fn spec_from_u8(value: u8) -> SamplingMethod {
        if value == 1 {
            SamplingMethod::Bilinear
        } else if value == 2 {
            SamplingMethod::Supersampling
        } else {
            SamplingMethod::Nearest
        }
    }

    /// The numeric code of a method.
    pub open spec fn spec_to_u8(self) -> u8 {
        match self {
            SamplingMethod::Nearest => 0u8,
            SamplingMethod::Bilinear => 1u8,
            SamplingMethod::Supersampling => 2u8,
        }
    }

    /// Decodes a numeric code; unknown codes fall back to `Nearest`.
    pub fn from_u8(value: u8) -> (method: SamplingMethod)
        ensures
            method == Self::spec_from_u8(value),
    {
        match value {
            0 => SamplingMethod::Nearest,
            1 => SamplingMethod::Bilinear,
            2 => SamplingMethod::Supersampling,
            _ => SamplingMethod::Nearest,
        }
    }

    /// Encodes a method as its numeric code.
    pub fn to_u8(self) -> (code: u8)
        ensures
            code == self.spec_to_u8(),
    {
        match self {
            SamplingMethod::Nearest => 0,
            SamplingMethod::Bilinear => 1,
            SamplingMethod::Supersampling => 2,
        }
    }
}

impl Default for SamplingMethod {
    fn default() -> (method: SamplingMethod)
        ensures
            method == SamplingMethod::Nearest,
    {
        SamplingMethod::Nearest
    }
}

/// Decoding the code of a method gives the method back.
pub proof fn lemma_code_round_trip(method: SamplingMethod)
    ensures
        SamplingMethod::spec_from_u8(method.spec_to_u8()) == method,
{
}

/// Whether `(x, y)` is a pixel of a `width` by `height` bitmap.
pub open spec fn inside(width: u32, height: u32, x: int, y: int) -> bool {
    0 <= x < width && 0 <= y < height
}

/// The four bytes of pixel `(x, y)` of a bitmap that is `width` pixels wide.
pub open spec fn texel(data: Seq<u8>, width: u32, x: int, y: int) -> Seq<u8> {
    pixel_of(data, pixel_index(width as int, x, y))
}

/// The bytes of a sampled colour, if there is one.
pub open spec fn bytes_of(color: Option<[u8; 4]>) -> Option<Seq<u8>> {
    match color {
        Some(c) => Some(c@),
        None => None,
    }
}

/// What nearest sampling gives at the whole-pixel position `(x, y)`: the
/// pixel there, or nothing outside the bitmap.
pub open spec fn nearest(data: Seq<u8>, width: u32, height: u32, x: int, y: int) -> Option<
    Seq<u8>,
> {
    if inside(width, height, x, y) {
        Some(texel(data, width, x, y))
    } else {
        None
    }
}

/// Reads pixel `(x, y)` of a bitmap.
fn read_pixel(data: &[u8], width: u32, height: u32, x: u32, y: u32) -> (color: [u8; 4])
    requires
        data@.len() == byte_len(width as int, height as int),
        x < width,
        y < height,
    ensures
        color@ == texel(data@, width, x as int, y as int),
{
    proof {
        lemma_pixel_index_bound(width as int, height as int, x as int, y as int);
        assert(width as int * height as int <= byte_len(width as int, height as int));
    }
    assert(byte_len(width as int, height as int) == data.len());
    let index: usize = y as usize * width as usize + x as usize;
    let at: usize = 4 * index;
    let color: [u8; 4] = [data[at], data[at + 1], data[at + 2], data[at + 3]];
    proof {
        assert(color@ =~= texel(data@, width, x as int, y as int));
    }
    color
}

/// Nearest sampling: the colour of the pixel at `(x, y)`, the sample point
/// rounded to whole pixels, or `None` where that lies outside the bitmap.
pub fn sample_nearest(data: &[u8], width: u32, height: u32, x: i32, y: i32) -> (color: Option<
    [u8; 4],
>)
    requires
        data@.len() == byte_len(width as int, height as int),
    ensures
        bytes_of(color) == nearest(data@, width, height, x as int, y as int),
{
    if x >= 0 && y >= 0 && (x as u32) < width && (y as u32) < height {
        Some(read_pixel(data, width, height, x as u32, y as u32))
    } else {
        None
    }
}

/// How many of the sub-samples at the columns `x_lo`, `x_hi` and the rows
/// `y_lo`, `y_hi` fall inside the bitmap.
pub open spec fn hit_count(width: u32, height: u32, x_lo: int, x_hi: int, y_lo: int, y_hi: int)
    -> int {
    (if inside(width, height, x_lo, y_lo) {
        1int
    } else {
        0int
    }) + (if inside(width, height, x_hi, y_lo) {
        1int
    } else {
        0int
    }) + (if inside(width, height, x_lo, y_hi) {
        1int
    } else {
        0int
    }) + (if inside(width, height, x_hi, y_hi) {
        1int
    } else {
        0int
    })
}

/// What the sub-sample at `(x, y)` adds to the sum of channel `c`.
pub open spec fn hit_value(data: Seq<u8>, width: u32, height: u32, x: int, y: int, c: int) -> int {
    if inside(width, height, x, y) {
        texel(data, width, x, y)[c] as int
    } else {
        0
    }
}

/// The sum of channel `c` over the sub-samples that fall inside the bitmap.
pub open spec fn hit_sum(
    data: Seq<u8>,
    width: u32,
    height: u32,
    x_lo: int,
    x_hi: int,
    y_lo: int,
    y_hi: int,
    c: int,
) -> int {
    hit_value(data, width, height, x_lo, y_lo, c) + hit_value(data, width, height, x_hi, y_lo, c)
        + hit_value(data, width, height, x_lo, y_hi, c) + hit_value(
        data,
        width,
        height,
        x_hi,
        y_hi,
        c,
    )
}

/// What supersampling gives: for each channel the truncated mean over the
/// sub-samples that fall inside the bitmap, or nothing where none does.
pub open spec fn supersampled(
    data: Seq<u8>,
    width: u32,
    height: u32,
    x_lo: int,
    x_hi: int,
    y_lo: int,
    y_hi: int,
) -> Option<Seq<u8>> {
    let count = hit_count(width, height, x_lo, x_hi, y_lo, y_hi);
    if count == 0 {
        None
    } else {
        Some(
            seq![
                (hit_sum(data, width, height, x_lo, x_hi, y_lo, y_hi, 0) / count) as u8,
                (hit_sum(data, width, height, x_lo, x_hi, y_lo, y_hi, 1) / count) as u8,
                (hit_sum(data, width, height, x_lo, x_hi, y_lo, y_hi, 2) / count) as u8,
                (hit_sum(data, width, height, x_lo, x_hi, y_lo, y_hi, 3) / count) as u8,
            ],
        )
    }
}

/// Where the four sub-samples round to one pixel, supersampling gives what
/// nearest sampling gives there.
pub proof fn lemma_supersampled_one_pixel(data: Seq<u8>, width: u32, height: u32, x: int, y: int)
    requires
        data.len() == byte_len(width as int, height as int),
    ensures
        supersampled(data, width, height, x, x, y, y) == nearest(data, width, height, x, y),
{
    if inside(width, height, x, y) {
        lemma_pixel_index_bound(width as int, height as int, x, y);
        let color = texel(data, width, x, y);
        assert(supersampled(data, width, height, x, x, y, y).unwrap() =~= color);
    }
}

/// The sums of the four channels and the number of hits so far.
struct Tally {
    r: u32,
    g: u32,
    b: u32,
    a: u32,
    count: u32,
}

/// Adds the sub-sample at `(x, y)` to a tally, if it falls inside the bitmap.
fn tally_hit(tally: Tally, data: &[u8], width: u32, height: u32, x: i32, y: i32) -> (out: Tally)
    requires
        data@.len() == byte_len(width as int, height as int),
        tally.count < 4,
        tally.r <= 255 * tally.count,
        tally.g <= 255 * tally.count,
        tally.b <= 255 * tally.count,
        tally.a <= 255 * tally.count,
    ensures
        out.count == tally.count + (if inside(width, height, x as int, y as int) {
            1int
        } else {
            0int
        }),
        out.r == tally.r + hit_value(data@, width, height, x as int, y as int, 0),
        out.g == tally.g + hit_value(data@, width, height, x as int, y as int, 1),
        out.b == tally.b + hit_value(data@, width, height, x as int, y as int, 2),
        out.a == tally.a + hit_value(data@, width, height, x as int, y as int, 3),
        out.r <= 255 * out.count,
        out.g <= 255 * out.count,
        out.b <= 255 * out.count,
        out.a <= 255 * out.count,
{
    match sample_nearest(data, width, height, x, y) {
        Some(color) => Tally {
            r: tally.r + color[0] as u32,
            g: tally.g + color[1] as u32,
            b: tally.b + color[2] as u32,
            a: tally.a + color[3] as u32,
            count: tally.count + 1,
        },
        None => tally,
    }
}

/// Supersampling: the mean of the nearest samples at four sub-sample points,
/// taken over those that fall inside the bitmap; `None` where none does.
///
/// The sub-sample points lie a quarter of a pixel to either side of the
/// sample point in both directions. `x_lo` and `x_hi` are their two columns
/// and `y_lo` and `y_hi` their two rows, each rounded to whole pixels.
pub fn sample_supersampling(
    data: &[u8],
    width: u32,
    height: u32,
    x_lo: i32,
    x_hi: i32,
    y_lo: i32,
    y_hi: i32,
) -> (color: Option<[u8; 4]>)
    requires
        data@.len() == byte_len(width as int, height as int),
    ensures
        bytes_of(color) == supersampled(
            data@,
            width,
            height,
            x_lo as int,
            x_hi as int,
            y_lo as int,
            y_hi as int,
        ),
{
    let tally = Tally { r: 0, g: 0, b: 0, a: 0, count: 0 };
    let tally = tally_hit(tally, data, width, height, x_lo, y_lo);
    let tally = tally_hit(tally, data, width, height, x_hi, y_lo);
    let tally = tally_hit(tally, data, width, height, x_lo, y_hi);
    let tally = tally_hit(tally, data, width, height, x_hi, y_hi);
    if tally.count == 0 {
        return None;
    }
    proof {
        assert(tally.r / tally.count <= 255 && tally.g / tally.count <= 255 && tally.b
            / tally.count <= 255 && tally.a / tally.count <= 255) by (nonlinear_arith)
            requires
                tally.count > 0,
                tally.r <= 255 * tally.count,
                tally.g <= 255 * tally.count,
                tally.b <= 255 * tally.count,
                tally.a <= 255 * tally.count,
        ;
    }
    let color: [u8; 4] = [
        (tally.r / tally.count) as u8,
        (tally.g / tally.count) as u8,
        (tally.b / tally.count) as u8,
        (tally.a / tally.count) as u8,
    ];
    proof {
        assert(color@ =~= supersampled(
            data@,
            width,
            height,
            x_lo as int,
            x_hi as int,
            y_lo as int,
            y_hi as int,
        ).unwrap());
    }
    Some(color)
}

/// A fully transparent black pixel.
pub open spec fn transparent() -> Seq<u8> {
    seq![0u8, 0u8, 0u8, 0u8]
}

/// One tap of the bilinear kernel: the pixel at `(x, y)`, or transparent
/// black outside the bitmap.
pub open spec fn tap(data: Seq<u8>, width: u32, height: u32, x: int, y: int) -> Seq<u8> {
    if inside(width, height, x, y) {
        texel(data, width, x, y)
    } else {
        transparent()
    }
}

/// What the bilinear kernel has to work with at one sample point.
#[derive(Debug, Clone, Copy)]
pub enum BilinearTaps {
    /// No tap has coverage and the nearest pixel lies outside the bitmap.
    Miss,
    /// No tap has coverage; the colour is that of the nearest pixel.
    Nearest([u8; 4]),
    /// The four taps to be weighted: upper left, upper right, lower left,
    /// lower right.
    Weighted { c00: [u8; 4], c10: [u8; 4], c01: [u8; 4], c11: [u8; 4] },
}

/// The taps of the bilinear kernel, as plain values.
pub enum BilinearTapsView {
    Miss,
    Nearest(Seq<u8>),
    Weighted { c00: Seq<u8>, c10: Seq<u8>, c01: Seq<u8>, c11: Seq<u8> },
}

impl View for BilinearTaps {
    type V = BilinearTapsView;

    open spec fn view(&self) -> BilinearTapsView {
        match *self {
            BilinearTaps::Miss => BilinearTapsView::Miss,
            BilinearTaps::Nearest(c) => BilinearTapsView::Nearest(c@),
            BilinearTaps::Weighted { c00, c10, c01, c11 } => BilinearTapsView::Weighted {
                c00: c00@,
                c10: c10@,
                c01: c01@,
                c11: c11@,
            },
        }
    }
}

/// The taps of the bilinear kernel whose upper left tap is `(x0, y0)` and
/// whose nearest pixel is `(nx, ny)`: the four taps where one of them has
/// coverage, else the nearest pixel where the bitmap has one.
pub open spec fn bilinear(
    data: Seq<u8>,
    width: u32,
    height: u32,
    x0: int,
    y0: int,
    nx: int,
    ny: int,
) -> BilinearTapsView {
    let c00 = tap(data, width, height, x0, y0);
    let c10 = tap(data, width, height, x0 + 1, y0);
    let c01 = tap(data, width, height, x0, y0 + 1);
    let c11 = tap(data, width, height, x0 + 1, y0 + 1);
    if c00[3] == 0 && c10[3] == 0 && c01[3] == 0 && c11[3] == 0 {
        if inside(width, height, nx, ny) {
            BilinearTapsView::Nearest(texel(data, width, nx, ny))
        } else {
            BilinearTapsView::Miss
        }
    } else {
        BilinearTapsView::Weighted { c00, c10, c01, c11 }
    }
}

/// Reads one tap of the bilinear kernel.
fn read_tap(data: &[u8], width: u32, height: u32, x: i64, y: i64) -> (color: [u8; 4])
    requires
        data@.len() == byte_len(width as int, height as int),
    ensures
        color@ == tap(data@, width, height, x as int, y as int),
{
    if x >= 0 && y >= 0 && x < width as i64 && y < height as i64 {
        read_pixel(data, width, height, x as u32, y as u32)
    } else {
        let color: [u8; 4] = [0, 0, 0, 0];
        proof {
            assert(color@ =~= transparent());
        }
        color
    }
}

/// Gathers what the bilinear kernel weights at one sample point.
///
/// `(x0, y0)` is the sample point, moved up and left by half a pixel and
/// rounded down; `(nx, ny)` is the moved point rounded to the nearest pixel.
/// Taps outside the bitmap count as transparent black. Where no tap has
/// coverage, the nearest pixel stands in for them.
pub fn bilinear_taps(
    data: &[u8],
    width: u32,
    height: u32,
    x0: i32,
    y0: i32,
    nx: i32,
    ny: i32,
) -> (taps: BilinearTaps)
    requires
        data@.len() == byte_len(width as int, height as int),
    ensures
        taps@ == bilinear(data@, width, height, x0 as int, y0 as int, nx as int, ny as int),
{
    let x1: i64 = x0 as i64 + 1;
    let y1: i64 = y0 as i64 + 1;
    let c00 = read_tap(data, width, height, x0 as i64, y0 as i64);
    let c10 = read_tap(data, width, height, x1, y0 as i64);
    let c01 = read_tap(data, width, height, x0 as i64, y1);
    let c11 = read_tap(data, width, height, x1, y1);
    if c00[3] == 0 && c10[3] == 0 && c01[3] == 0 && c11[3] == 0 {
        match sample_nearest(data, width, height, nx, ny) {
            Some(color) => BilinearTaps::Nearest(color),
            None => BilinearTaps::Miss,
        }
    } else {
        BilinearTaps::Weighted { c00, c10, c01, c11 }
    }
}

} // verus!
