use vstd::prelude::*;

verus! {

/// The number of bytes of a `width` by `height` bitmap of four-byte pixels.
pub open spec fn byte_len(width: int, height: int) -> int {
    width * height * 4
}

/// A bitmap, as plain values.
pub struct Bitmap {
    /// The pixels, row by row, four bytes each.
    pub pixels: Seq<u8>,
    pub width: u32,
    pub height: u32,
}

impl Bitmap {
    /// The bitmap has four bytes for each of its pixels.
    pub open spec fn wf(self) -> bool {
        self.pixels.len() == byte_len(self.width as int, self.height as int)
    }
}

/// The bitmap of `count` pixels that all have the colour `color`.
pub open spec fn filled(color: Seq<u8>, count: int) -> Seq<u8> {
    Seq::new((4 * count) as nat, |j: int| color[j % 4])
}

/// Opaque black, the background of a new scene.
pub open spec fn opaque_black() -> Seq<u8> {
    seq![0u8, 0u8, 0u8, 255u8]
}

/// A run of `len` zero bytes.
pub open spec fn zeros(len: int) -> Seq<u8> {
    Seq::new(len as nat, |j: int| 0u8)
}

/// The four bytes of pixel number `i` of a bitmap, counted row by row.
pub open spec fn pixel_of(buf: Seq<u8>, i: int) -> Seq<u8> {
    buf.subrange(4 * i, 4 * i + 4)
}

/// The number of pixel `(x, y)` in a bitmap that is `width` pixels wide.
pub open spec fn pixel_index(width: int, x: int, y: int) -> int {
    y * width + x
}

/// A pixel inside a `width` by `height` bitmap has a number below
/// `width * height`, and its four bytes lie inside the bitmap.
pub proof fn lemma_pixel_index_bound(width: int, height: int, x: int, y: int)
    requires
        0 <= x < width,
        0 <= y < height,
    ensures
        0 <= pixel_index(width, x, y) < width * height,
        4 * pixel_index(width, x, y) + 4 <= byte_len(width, height),
{
    assert(y * width + x < width * height) by (nonlinear_arith)
        requires
            0 <= x < width,
            0 <= y < height,
    ;
    assert(0 <= y * width + x) by (nonlinear_arith)
        requires
            0 <= x < width,
            0 <= y < height,
    ;
}

/// Two different pixels of a bitmap have different numbers.
pub proof fn lemma_pixel_index_injective(width: int, x1: int, y1: int, x2: int, y2: int)
    requires
        0 <= x1 < width,
        0 <= x2 < width,
        0 <= y1,
        0 <= y2,
        pixel_index(width, x1, y1) == pixel_index(width, x2, y2),
    ensures
        x1 == x2,
        y1 == y2,
{
    if y1 < y2 {
        assert(y1 * width + x1 < y2 * width + x2) by (nonlinear_arith)
            requires
                0 <= x1 < width,
                0 <= x2 < width,
                0 <= y1 < y2,
        ;
    } else if y2 < y1 {
        assert(y2 * width + x2 < y1 * width + x1) by (nonlinear_arith)
            requires
                0 <= x1 < width,
                0 <= x2 < width,
                0 <= y2 < y1,
        ;
    }
}

/// Pixel number `i` of a bitmap that is `width` wide stands in column
/// `i % width` of row `i / width`.
pub proof fn lemma_pixel_position(width: int, i: int)
    requires
        0 < width,
        0 <= i,
    ensures
        0 <= i % width < width,
        0 <= i / width,
        pixel_index(width, i % width, i / width) == i,
{
    vstd::arithmetic::div_mod::lemma_fundamental_div_mod(i, width);
    vstd::arithmetic::div_mod::lemma_mod_bound(i, width);
    vstd::arithmetic::div_mod::lemma_div_pos_is_pos(i, width);
    assert((i / width) * width == width * (i / width)) by (nonlinear_arith);
}

/// Makes a bitmap of `count` pixels of one colour.
pub fn solid(count: usize, color: [u8; 4]) -> (buf: Vec<u8>)
    ensures
        buf@ == filled(color@, count as int),
{
    let mut buf: Vec<u8> = Vec::new();
    let mut i: usize = 0;
    while i < count
        invariant
            i <= count,
            buf@ == filled(color@, i as int),
        decreases count - i,
    {
        buf.push(color[0]);
        buf.push(color[1]);
        buf.push(color[2]);
        buf.push(color[3]);
        i += 1;
        assert(buf@ =~= filled(color@, i as int));
    }
    buf
}

/// Overwrites every whole pixel of a bitmap with one colour; bytes after the
/// last whole pixel keep their value.
pub fn fill(buf: &mut Vec<u8>, color: [u8; 4])
    ensures
        final(buf)@.len() == old(buf)@.len(),
        final(buf)@.subrange(0, 4 * (old(buf)@.len() as int / 4)) == filled(
            color@,
            old(buf)@.len() as int / 4,
        ),
        final(buf)@.subrange(4 * (old(buf)@.len() as int / 4), old(buf)@.len() as int)
            == old(buf)@.subrange(4 * (old(buf)@.len() as int / 4), old(buf)@.len() as int),
{
    let count: usize = buf.len() / 4;
    let mut i: usize = 0;
    while i < count
        invariant
            i <= count,
            count == old(buf)@.len() / 4,
            buf@.len() == old(buf)@.len(),
            buf@.subrange(0, 4 * i as int) == filled(color@, i as int),
            buf@.subrange(4 * i as int, buf@.len() as int) == old(buf)@.subrange(
                4 * i as int,
                buf@.len() as int,
            ),
        decreases count - i,
    {
        let ghost before = buf@;
        assert(4 * i + 4 <= buf.len());
        buf[4 * i] = color[0];
        buf[4 * i + 1] = color[1];
        buf[4 * i + 2] = color[2];
        buf[4 * i + 3] = color[3];
        i += 1;
        assert(buf@.subrange(0, 4 * i as int) =~= filled(color@, i as int)) by {
            assert forall|j: int| 0 <= j < 4 * (i - 1) implies buf@[j] == color@[j % 4] by {
                assert(buf@[j] == before.subrange(0, 4 * (i - 1) as int)[j]);
            }
        }
        assert(buf@.subrange(4 * i as int, buf@.len() as int) =~= old(buf)@.subrange(
            4 * i as int,
            buf@.len() as int,
        )) by {
            assert forall|j: int| 4 * i <= j < buf@.len() implies buf@[j] == old(buf)@[j] by {
                assert(buf@[j] == before.subrange(4 * (i - 1) as int, buf@.len() as int)[j - 4 * (
                i - 1)]);
            }
        }
    }
}

/// Makes a copy of a run of bytes.
pub fn copy_of(src: &[u8]) -> (copy: Vec<u8>)
    ensures
        copy@ == src@,
{
    let mut copy: Vec<u8> = Vec::new();
    let mut i: usize = 0;
    while i < src.len()
        invariant
            i <= src.len(),
            copy@ == src@.take(i as int),
        decreases src.len() - i,
    {
        copy.push(src[i]);
        i += 1;
        assert(copy@ =~= src@.take(i as int));
    }
    assert(src@.take(src@.len() as int) =~= src@);
    copy
}

/// Makes a bitmap of `len` zero bytes.
pub fn zeroed(len: usize) -> (buf: Vec<u8>)
    ensures
        buf@ == zeros(len as int),
{
    let buf: Vec<u8> = vec![0u8; len];
    assert(buf@ =~= zeros(len as int));
    buf
}

/// Whether a bitmap consists of `rows` copies of `row`, one after another.
pub open spec fn tiled(buf: Seq<u8>, row: Seq<u8>, rows: int) -> bool {
    &&& buf.len() == rows * row.len()
    &&& forall|y: int, k: int|
        0 <= y < rows && 0 <= k < row.len() ==> #[trigger] buf[y * row.len() + k] == row[k]
}

/// Copies `row` into each of the `rows` rows of a bitmap.
pub fn fill_rows(buf: &mut Vec<u8>, row: &Vec<u8>, rows: u32)
    requires
        old(buf)@.len() == rows * row@.len(),
    ensures
        tiled(final(buf)@, row@, rows as int),
{
    let n: usize = row.len();
    let mut y: usize = 0;
    while y < rows as usize
        invariant
            y <= rows,
            n == row@.len(),
            buf@.len() == rows * n,
            forall|yy: int, k: int|
                0 <= yy < y && 0 <= k < n ==> #[trigger] buf@[yy * n + k] == row@[k],
        decreases rows - y,
    {
        let mut k: usize = 0;
        proof {
            assert(y * n + n <= rows * n) by (nonlinear_arith)
                requires
                    y < rows,
                    0 <= n,
            ;
        }
        assert(rows * n == buf.len());
        let start: usize = y * n;
        while k < n
            invariant
                k <= n,
                y < rows,
                n == row@.len(),
                start == y * n,
                start + n <= buf@.len(),
                start + n <= usize::MAX,
                buf@.len() == rows * n,
                forall|yy: int, kk: int|
                    0 <= yy < y && 0 <= kk < n ==> #[trigger] buf@[yy * n + kk] == row@[kk],
                forall|kk: int| 0 <= kk < k ==> buf@[start + kk] == row@[kk],
            decreases n - k,
        {
            let ghost before = buf@;
            buf[start + k] = row[k];
            proof {
                assert forall|yy: int, kk: int| 0 <= yy < y && 0 <= kk < n implies #[trigger] buf@[yy
                    * n + kk] == row@[kk] by {
                    assert(yy * n + kk < y * n) by (nonlinear_arith)
                        requires
                            0 <= yy < y,
                            0 <= kk < n,
                    ;
                    assert(before[yy * n + kk] == row@[kk]);
                }
            }
            k += 1;
        }
        proof {
            assert forall|yy: int, kk: int| 0 <= yy < y + 1 && 0 <= kk < n implies #[trigger] buf@[yy
                * n + kk] == row@[kk] by {
                if yy == y {
                    assert(buf@[start + kk] == row@[kk]);
                }
            }
        }
        y += 1;
    }
}

/// A bitmap that consists of rows of `width` background pixels is filled
/// with the background.
pub proof fn lemma_tiled_is_filled(buf: Seq<u8>, color: Seq<u8>, width: int, rows: int)
    requires
        0 <= width,
        0 <= rows,
        tiled(buf, filled(color, width), rows),
    ensures
        buf == filled(color, width * rows),
{
    let row = filled(color, width);
    let n = 4 * width;
    assert(row.len() == n);
    assert(rows * n == 4 * (width * rows)) by (nonlinear_arith)
        requires
            n == 4 * width,
    ;
    assert forall|j: int| 0 <= j < buf.len() implies buf[j] == color[j % 4] by {
        assert(n > 0) by (nonlinear_arith)
            requires
                0 <= j < rows * n,
                0 <= rows,
                n >= 0,
        ;
        let y = j / n;
        let k = j % n;
        vstd::arithmetic::div_mod::lemma_fundamental_div_mod(j, n);
        vstd::arithmetic::div_mod::lemma_mod_bound(j, n);
        vstd::arithmetic::div_mod::lemma_div_pos_is_pos(j, n);
        assert(y < rows) by (nonlinear_arith)
            requires
                j == n * y + k,
                0 <= k,
                j < rows * n,
                n > 0,
        ;
        assert(y * n + k == j) by (nonlinear_arith)
            requires
                j == n * y + k,
        ;
        assert(buf[y * row.len() + k] == row[k]);
        assert(row[k] == color[k % 4]);
        assert(k % 4 == j % 4) by {
            assert(j == 4 * (width * y) + k) by (nonlinear_arith)
                requires
                    j == n * y + k,
                    n == 4 * width,
            ;
            vstd::arithmetic::div_mod::lemma_mod_multiples_vanish(width * y, k, 4);
        }
    }
    assert(buf =~= filled(color, width * rows));
}

} // verus!
