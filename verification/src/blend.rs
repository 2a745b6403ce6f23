use vstd::prelude::*;
use crate::pixels::pixel_of;

verus! {

/// One colour channel of a source laid over a destination, the source
/// weighted by its alpha out of 255 and the quotient truncated.
pub open spec fn blend_channel(src: u8, dst: u8, alpha: u8) -> u8 {
    ((src as int * alpha as int + dst as int * (255 - alpha as int)) / 255) as u8
}

/// The alpha of a source with alpha `alpha` laid over a destination with
/// alpha `dst`.
pub open spec fn blend_alpha(dst: u8, alpha: u8) -> u8 {
    ((alpha as int * 255 + dst as int * (255 - alpha as int)) / 255) as u8
}

/// The pixel that results from laying the pixel `src` over the pixel `dst`.
pub open spec fn over(dst: Seq<u8>, src: Seq<u8>) -> Seq<u8> {
    seq![
        blend_channel(src[0], dst[0], src[3]),
        blend_channel(src[1], dst[1], src[3]),
        blend_channel(src[2], dst[2], src[3]),
        blend_alpha(dst[3], src[3]),
    ]
}

/// The two products of a blended channel and their sum stay below
/// `255 * 255`, and the blended channel lies between 0 and 255, so the
/// truncation to a byte loses nothing.
pub proof fn lemma_blend_in_range(src: u8, dst: u8, alpha: u8)
    ensures
        0 <= src as int * alpha as int <= 255 * 255,
        0 <= dst as int * (255 - alpha as int) <= 255 * 255,
        src as int * alpha as int + dst as int * (255 - alpha as int) <= 255 * 255,
        0 <= (src as int * alpha as int + dst as int * (255 - alpha as int)) / 255 <= 255,
        blend_channel(src, dst, alpha) == (src as int * alpha as int + dst as int * (255
            - alpha as int)) / 255,
{
    assert(0 <= src as int * alpha as int <= 255 * 255 && 0 <= dst as int * (255 - alpha as int)
        <= 255 * 255 && src as int * alpha as int + dst as int * (255 - alpha as int) <= 255 * 255)
        by (nonlinear_arith)
        requires
            0 <= src <= 255,
            0 <= dst <= 255,
            0 <= alpha <= 255,
    ;
}

/// A fully transparent source leaves the destination as it is.
pub proof fn lemma_over_transparent(dst: Seq<u8>, src: Seq<u8>)
    requires
        dst.len() == 4,
        src[3] == 0,
    ensures
        over(dst, src) == dst,
{
    assert(over(dst, src) =~= dst);
}

/// A fully opaque source replaces the destination.
pub proof fn lemma_over_opaque(dst: Seq<u8>, src: Seq<u8>)
    requires
        dst.len() == 4,
        src.len() == 4,
        src[3] == 255,
    ensures
        over(dst, src) == src,
{
    assert(over(dst, src) =~= src);
}

/// Lays the pixel `src` over the pixel `dst`.
pub fn blend_pixel(dst: [u8; 4], src: [u8; 4]) -> (out: [u8; 4])
    ensures
        out@ == over(dst@, src@),
{
    let alpha: u32 = src[3] as u32;
    if alpha == 0 {
        proof {
            lemma_over_transparent(dst@, src@);
        }
        return dst;
    }
    if alpha == 255 {
        let out: [u8; 4] = [src[0], src[1], src[2], 255];
        proof {
            lemma_over_opaque(dst@, src@);
            assert(out@ =~= src@);
        }
        return out;
    }
    let rest: u32 = 255 - alpha;
    proof {
        lemma_blend_in_range(src[0], dst[0], src[3]);
        lemma_blend_in_range(src[1], dst[1], src[3]);
        lemma_blend_in_range(src[2], dst[2], src[3]);
        lemma_blend_in_range(255u8, dst[3], src[3]);
    }
    let r: u32 = (src[0] as u32 * alpha + dst[0] as u32 * rest) / 255;
    let g: u32 = (src[1] as u32 * alpha + dst[1] as u32 * rest) / 255;
    let b: u32 = (src[2] as u32 * alpha + dst[2] as u32 * rest) / 255;
    let a: u32 = (alpha * 255 + dst[3] as u32 * rest) / 255;
    let out: [u8; 4] = [r as u8, g as u8, b as u8, a as u8];
    proof {
        assert(out@ =~= over(dst@, src@));
    }
    out
}

/// Lays the pixel `src` over pixel number `index` of a bitmap. The other
/// pixels keep their bytes.
pub fn blend_into(buf: &mut Vec<u8>, index: usize, src: [u8; 4])
    requires
        4 * index + 4 <= old(buf)@.len(),
    ensures
        final(buf)@.len() == old(buf)@.len(),
        pixel_of(final(buf)@, index as int) == over(pixel_of(old(buf)@, index as int), src@),
        forall|j: int|
            0 <= j < old(buf)@.len() && !(4 * index <= j < 4 * index + 4) ==> final(buf)@[j]
                == old(buf)@[j],
{
    assert(4 * index + 4 <= buf.len());
    let at: usize = 4 * index;
    let dst: [u8; 4] = [buf[at], buf[at + 1], buf[at + 2], buf[at + 3]];
    proof {
        assert(dst@ =~= pixel_of(buf@, index as int));
    }
    let out = blend_pixel(dst, src);
    buf[at] = out[0];
    buf[at + 1] = out[1];
    buf[at + 2] = out[2];
    buf[at + 3] = out[3];
    proof {
        assert(pixel_of(buf@, index as int) =~= out@);
    }
}

} // verus!
