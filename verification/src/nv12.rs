//! The NV12 canvas that a video encoder reads: converting BGRA pixels to studio-range
//! luma and chroma, and repainting only what the dirty regions of a frame cover.
use crate::grid::{lemma_place, lemma_row_in_grid};
use vstd::arithmetic::mul::{lemma_mul_inequality, lemma_mul_is_commutative};
use vstd::prelude::*;

verus! {

/// A dirty region of a frame: left edge, top edge, width and height in pixels.
pub type DirtyRect = (u32, u32, u32, u32);

// ---- Colour conversion -----------------------------------------------------

/// `v` held to the range of a byte.
pub open spec fn clamped(v: int) -> u8 {
    if v < 0 {
        0
    } else if v > 255 {
        255
    } else {
        v as u8
    }
}

/// Luma of an RGB colour, BT.601 studio range.
pub open spec fn luma(r: u8, g: u8, b: u8) -> u8 {
    clamped((66 * r + 129 * g + 25 * b + 128) / 256 + 16)
}

/// Blue-difference chroma of an RGB colour, BT.601 studio range.
pub open spec fn chroma_u(r: u8, g: u8, b: u8) -> u8 {
    clamped((112 * b - 38 * r - 74 * g + 128) / 256 + 128)
}

/// Red-difference chroma of an RGB colour, BT.601 studio range.
pub open spec fn chroma_v(r: u8, g: u8, b: u8) -> u8 {
    clamped((112 * r - 94 * g - 18 * b + 128) / 256 + 128)
}

/// Holds `v` to the range of a byte.
pub fn clamp_u8(v: i32) -> (out: u8)
    ensures
        out == clamped(v as int),
{
    if v < 0 {
        0
    } else if v > 255 {
        255
    } else {
        v as u8
    }
}

/// An arithmetic shift by eight places divides by 256, rounding down.
proof fn lemma_shift_by_eight(v: i32)
    requires
        -100_000 <= v <= 100_000,
    ensures
        (v >> 8) as int == v as int / 256,
        -400 <= v as int / 256 <= 400,
{
    assert(v >> 8 == (v + 256_000) / 256 - 1000) by (bit_vector)
        requires
            -100_000 <= v <= 100_000,
    ;
}

/// Luma of an RGB colour with integer BT.601 coefficients.
pub fn rgb_to_y(r: u8, g: u8, b: u8) -> (out: u8)
    ensures
        out == luma(r, g, b),
{
    let sum: i32 = 66 * (r as i32) + 129 * (g as i32) + 25 * (b as i32) + 128;
    proof {
        lemma_shift_by_eight(sum);
    }
    clamp_u8((sum >> 8) + 16)
}

/// Blue-difference chroma of an RGB colour with integer BT.601 coefficients.
pub fn rgb_to_u(r: u8, g: u8, b: u8) -> (out: u8)
    ensures
        out == chroma_u(r, g, b),
{
    let sum: i32 = 112 * (b as i32) - 38 * (r as i32) - 74 * (g as i32) + 128;
    proof {
        lemma_shift_by_eight(sum);
    }
    clamp_u8((sum >> 8) + 128)
}

/// Red-difference chroma of an RGB colour with integer BT.601 coefficients.
pub fn rgb_to_v(r: u8, g: u8, b: u8) -> (out: u8)
    ensures
        out == chroma_v(r, g, b),
{
    let sum: i32 = 112 * (r as i32) - 94 * (g as i32) - 18 * (b as i32) + 128;
    proof {
        lemma_shift_by_eight(sum);
    }
    clamp_u8((sum >> 8) + 128)
}

/// Every colour converts into the studio range: luma from 16 to 235, both chroma
/// components from 16 to 240. The clamp never takes effect.
pub proof fn law_studio_range(r: u8, g: u8, b: u8)
    ensures
        16 <= luma(r, g, b) <= 235,
        16 <= chroma_u(r, g, b) <= 240,
        16 <= chroma_v(r, g, b) <= 240,
        luma(r, g, b) == (66 * r + 129 * g + 25 * b + 128) / 256 + 16,
        chroma_u(r, g, b) == (112 * b - 38 * r - 74 * g + 128) / 256 + 128,
        chroma_v(r, g, b) == (112 * r - 94 * g - 18 * b + 128) / 256 + 128,
{
}

/// A grey pixel carries no colour: both chroma components are the neutral 128.
pub proof fn law_grey_is_neutral(v: u8)
    ensures
        chroma_u(v, v, v) == 128,
        chroma_v(v, v, v) == 128,
{
}

// ---- The NV12 canvas -------------------------------------------------------

/// Number of bytes of an NV12 canvas: one luma byte a pixel, then two chroma bytes
/// for each block of two by two pixels.
pub open spec fn nv12_len(w: int, h: int) -> int {
    w * h + 2 * ((w + 1) / 2) * ((h + 1) / 2)
}

/// Size in bytes of an NV12 canvas of `w` by `h` pixels.
pub fn nv12_size(w: usize, h: usize) -> (size: usize)
    requires
        w < usize::MAX,
        h < usize::MAX,
        nv12_len(w as int, h as int) <= usize::MAX,
    ensures
        size == nv12_len(w as int, h as int),
{
    proof {
        lemma_canvas_bounds(w as int, h as int);
    }
    w * h + 2 * ((w + 1) / 2) * ((h + 1) / 2)
}

/// The parts of an NV12 canvas are not negative, so none exceeds the whole.
proof fn lemma_canvas_bounds(w: int, h: int)
    requires
        0 <= w,
        0 <= h,
    ensures
        0 <= w * h <= nv12_len(w, h),
        0 <= 2 * ((w + 1) / 2) * ((h + 1) / 2) <= nv12_len(w, h),
{
    assert(0 <= w * h) by (nonlinear_arith)
        requires
            0 <= w,
            0 <= h,
    ;
    let cw = 2 * ((w + 1) / 2);
    let ch = (h + 1) / 2;
    assert(0 <= cw * ch) by (nonlinear_arith)
        requires
            0 <= cw,
            0 <= ch,
    ;
}

/// Left edge of a region, moved to the even column at or before it: a chroma block
/// covers two columns.
pub open spec fn left(r: DirtyRect) -> int {
    r.0 as int / 2 * 2
}

/// Top edge of a region, moved to the even row at or before it.
pub open spec fn top(r: DirtyRect) -> int {
    r.1 as int / 2 * 2
}

/// First column past a region, cut at the canvas.
pub open spec fn right(r: DirtyRect, w: int) -> int {
    if r.0 + r.2 < w {
        r.0 + r.2
    } else {
        w
    }
}

/// First row past a region, cut at the canvas.
pub open spec fn bottom(r: DirtyRect, h: int) -> int {
    if r.1 + r.3 < h {
        r.1 + r.3
    } else {
        h
    }
}

/// Whether the region `r` covers the pixel at column `x` of row `y`.
pub open spec fn covers(r: DirtyRect, w: int, h: int, x: int, y: int) -> bool {
    r.0 <= x < right(r, w) && r.1 <= y < bottom(r, h)
}

/// Whether any of the regions covers the pixel at column `x` of row `y`.
pub open spec fn covered(rects: Seq<DirtyRect>, w: int, h: int, x: int, y: int) -> bool {
    exists|k: int| 0 <= k < rects.len() && #[trigger] covers(rects[k], w, h, x, y)
}

/// Whether the region `r`, with its edges moved to whole blocks, repaints the block whose
/// top left pixel is at column `x` of row `y`.
pub open spec fn paints(r: DirtyRect, w: int, h: int, x: int, y: int) -> bool {
    left(r) <= x < right(r, w) && top(r) <= y < bottom(r, h)
}

/// Whether any of the regions repaints the block whose top left pixel is at column `x` of
/// row `y`.
pub open spec fn dirty(rects: Seq<DirtyRect>, w: int, h: int, x: int, y: int) -> bool {
    exists|k: int| 0 <= k < rects.len() && #[trigger] paints(rects[k], w, h, x, y)
}

/// Position of the first byte (blue) of the pixel at column `x` of row `y`.
pub open spec fn pixel_at(w: int, x: int, y: int) -> int {
    (y * w + x) * 4
}

/// Luma of the pixel at column `x` of row `y` of a BGRA image.
pub open spec fn luma_at(bgra: Seq<u8>, w: int, x: int, y: int) -> u8 {
    let p = pixel_at(w, x, y);
    luma(bgra[p + 2], bgra[p + 1], bgra[p])
}

/// Chroma byte of the pixel at column `x` of row `y` of a BGRA image: blue
/// difference for `part` 0, red difference for `part` 1.
pub open spec fn chroma_at(bgra: Seq<u8>, w: int, x: int, y: int, part: int) -> u8 {
    let p = pixel_at(w, x, y);
    if part == 0 {
        chroma_u(bgra[p + 2], bgra[p + 1], bgra[p])
    } else {
        chroma_v(bgra[p + 2], bgra[p + 1], bgra[p])
    }
}

/// Column, in luma pixels, of the block that the chroma byte `i` belongs to.
pub open spec fn block_x(w: int, h: int, i: int) -> int {
    (i - w * h) / 2 % ((w + 1) / 2) * 2
}

/// Row, in luma pixels, of the block that the chroma byte `i` belongs to.
pub open spec fn block_y(w: int, h: int, i: int) -> int {
    (i - w * h) / 2 / ((w + 1) / 2) * 2
}

/// Byte `i` of the canvas after the regions `rects` have been repainted.
///
/// A luma byte belongs to one pixel, and is repainted where a region covers that pixel. A
/// pair of chroma bytes belongs to a block of two by two pixels and takes the colour of
/// its top left pixel. What no region repaints keeps its value.
pub open spec fn repainted(
    canvas: Seq<u8>,
    w: int,
    h: int,
    bgra: Seq<u8>,
    rects: Seq<DirtyRect>,
    i: int,
) -> u8 {
    if i < w * h {
        if covered(rects, w, h, i % w, i / w) {
            luma_at(bgra, w, i % w, i / w)
        } else {
            canvas[i]
        }
    } else if i < nv12_len(w, h) {
        let x = block_x(w, h, i);
        let y = block_y(w, h, i);
        if dirty(rects, w, h, x, y) {
            chroma_at(bgra, w, x, y, (i - w * h) % 2)
        } else {
            canvas[i]
        }
    } else {
        canvas[i]
    }
}

/// The canvas after the regions `rects` have been repainted.
pub open spec fn patched(
    canvas: Seq<u8>,
    w: int,
    h: int,
    bgra: Seq<u8>,
    rects: Seq<DirtyRect>,
) -> Seq<u8> {
    Seq::new(canvas.len(), |i: int| repainted(canvas, w, h, bgra, rects, i))
}

/// Whether every pixel that is read for the region lies inside an image of `len` bytes.
pub open spec fn readable(r: DirtyRect, w: int, h: int, len: int) -> bool {
    left(r) < right(r, w) && top(r) < bottom(r, h) ==> pixel_at(
        w,
        right(r, w) - 1,
        bottom(r, h) - 1,
    ) + 3 <= len
}

/// Inside a rectangle no pixel lies past its last one.
proof fn lemma_pixel_order(w: int, x: int, y: int, x1: int, y1: int)
    requires
        0 <= x < x1 <= w,
        0 <= y < y1,
    ensures
        0 <= y * w,
        0 <= pixel_at(w, x, y) <= pixel_at(w, x1 - 1, y1 - 1),
{
    lemma_mul_inequality(0, y, w);
    lemma_mul_inequality(y, y1 - 1, w);
}

/// Repaints the luma of columns `x0..x1` of rows `y0..y1`.
fn paint_luma(
    canvas: &mut [u8],
    w: usize,
    h: usize,
    bgra: &[u8],
    x0: usize,
    x1: usize,
    y0: usize,
    y1: usize,
)
    requires
        x0 < x1 <= w,
        y0 < y1 <= h,
        w * h <= old(canvas)@.len(),
        pixel_at(w as int, x1 - 1, y1 - 1) + 3 <= bgra@.len(),
    ensures
        final(canvas)@.len() == old(canvas)@.len(),
        forall|i: int|
            #![trigger final(canvas)@[i]]
            0 <= i < final(canvas)@.len() ==> final(canvas)@[i] == if i < w * h && x0 <= i % (
            w as int) < x1 && y0 <= i / (w as int) < y1 {
                luma_at(bgra@, w as int, i % (w as int), i / (w as int))
            } else {
                old(canvas)@[i]
            },
{
    let ghost start = canvas@;
    let ghost wi = w as int;
    let canvas_len: usize = canvas.len();
    let image_len: usize = bgra.len();
    let mut y: usize = y0;
    while y < y1
        invariant
            x0 < x1 <= w,
            y0 <= y <= y1 <= h,
            wi == w,
            w * h <= start.len() == canvas_len,
            canvas@.len() == start.len(),
            bgra@.len() == image_len,
            pixel_at(wi, x1 - 1, y1 - 1) + 3 <= bgra@.len(),
            forall|i: int|
                #![trigger canvas@[i]]
                0 <= i < start.len() ==> canvas@[i] == if i < w * h && x0 <= i % wi < x1 && y0 <= i
                    / wi < y {
                    luma_at(bgra@, wi, i % wi, i / wi)
                } else {
                    start[i]
                },
        decreases y1 - y,
    {
        let mut x: usize = x0;
        while x < x1
            invariant
                x0 <= x <= x1 <= w,
                x0 < x1,
                y0 <= y < y1 <= h,
                wi == w,
                w * h <= start.len() == canvas_len,
                canvas@.len() == start.len(),
                bgra@.len() == image_len,
                pixel_at(wi, x1 - 1, y1 - 1) + 3 <= bgra@.len(),
                forall|i: int|
                    #![trigger canvas@[i]]
                    0 <= i < start.len() ==> canvas@[i] == if i < w * h && x0 <= i % wi < x1 && y0
                        <= i / wi && (i / wi < y || (i / wi == y && i % wi < x)) {
                        luma_at(bgra@, wi, i % wi, i / wi)
                    } else {
                        start[i]
                    },
            decreases x1 - x,
        {
            let ghost before = canvas@;
            let ghost k = y * wi + x;
            proof {
                lemma_pixel_order(wi, x as int, y as int, x1 as int, y1 as int);
                lemma_place(wi, x as int, y as int, k);
                assert(k < w * h) by {
                    lemma_mul_inequality(y + 1, h as int, wi);
                    lemma_mul_is_commutative(h as int, wi);
                    assert((y + 1) * wi == y * wi + wi) by (nonlinear_arith);
                }
            }
            let p = (y * w + x) * 4;
            let b = bgra[p];
            let g = bgra[p + 1];
            let r = bgra[p + 2];
            canvas[y * w + x] = rgb_to_y(r, g, b);
            assert forall|i: int| #![trigger canvas@[i]] 0 <= i < start.len() implies canvas@[i]
                == if i < w * h && x0 <= i % wi < x1 && y0 <= i / wi && (i / wi < y || (i / wi == y
                && i % wi < x + 1)) {
                luma_at(bgra@, wi, i % wi, i / wi)
            } else {
                start[i]
            } by {
                lemma_place(wi, x as int, y as int, i);
                assert(i != k ==> canvas@[i] == before[i]);
            }
            x = x + 1;
        }
        y = y + 1;
    }
}

/// The two chroma bytes of block `cx` of block row `cy` lie inside the canvas, and
/// their positions determine the block.
proof fn lemma_block_position(w: int, h: int, cx: int, cy: int, i: int)
    requires
        0 < w,
        0 < h,
        0 <= cx < (w + 1) / 2,
        0 <= cy < (h + 1) / 2,
        w * h <= i,
    ensures
        0 <= w * h <= w * h + 2 * (cy * ((w + 1) / 2) + cx),
        0 <= cy * ((w + 1) / 2),
        w * h + 2 * (cy * ((w + 1) / 2) + cx) + 1 < nv12_len(w, h),
        (i - w * h) / 2 == cy * ((w + 1) / 2) + cx <==> (block_x(w, h, i) == cx * 2 && block_y(
            w,
            h,
            i,
        ) == cy * 2),
{
    let cw = (w + 1) / 2;
    let ch = (h + 1) / 2;
    lemma_canvas_bounds(w, h);
    lemma_mul_inequality(0, cy, cw);
    lemma_mul_inequality(cy, ch - 1, cw);
    assert((ch - 1) * cw == cw * ch - cw) by (nonlinear_arith);
    assert(2 * cw * ch == 2 * (cw * ch)) by (nonlinear_arith);
    lemma_place(cw, cx, cy, (i - w * h) / 2);
}

/// Repaints the chroma of the blocks whose top left pixel lies in columns `x0..x1`
/// of rows `y0..y1`.
#[verifier::spinoff_prover]
fn paint_chroma(
    canvas: &mut [u8],
    w: usize,
    h: usize,
    bgra: &[u8],
    x0: usize,
    x1: usize,
    y0: usize,
    y1: usize,
)
    requires
        x0 < x1 <= w < usize::MAX,
        y0 < y1 <= h < usize::MAX,
        x0 % 2 == 0,
        y0 % 2 == 0,
        nv12_len(w as int, h as int) <= old(canvas)@.len(),
        pixel_at(w as int, x1 - 1, y1 - 1) + 3 <= bgra@.len(),
    ensures
        final(canvas)@.len() == old(canvas)@.len(),
        forall|i: int|
            #![trigger final(canvas)@[i]]
            0 <= i < final(canvas)@.len() ==> final(canvas)@[i] == if w * h <= i < nv12_len(
                w as int,
                h as int,
            ) && x0 <= block_x(w as int, h as int, i) < x1 && y0 <= block_y(
                w as int,
                h as int,
                i,
            ) < y1 {
                chroma_at(
                    bgra@,
                    w as int,
                    block_x(w as int, h as int, i),
                    block_y(w as int, h as int, i),
                    (i - w * h) % 2,
                )
            } else {
                old(canvas)@[i]
            },
{
    let ghost start = canvas@;
    let ghost wi = w as int;
    let ghost hi = h as int;
    let canvas_len: usize = canvas.len();
    let image_len: usize = bgra.len();
    proof {
        lemma_canvas_bounds(wi, hi);
    }
    let luma_len: usize = w * h;
    let cw: usize = (w + 1) / 2;
    let cx0: usize = x0 / 2;
    let cx1: usize = (x1 + 1) / 2;
    let cy1: usize = (y1 + 1) / 2;
    let mut cy: usize = y0 / 2;
    while cy < cy1
        invariant
            x0 < x1 <= w < usize::MAX,
            y0 < y1 <= h < usize::MAX,
            x0 % 2 == 0,
            y0 % 2 == 0,
            wi == w,
            hi == h,
            luma_len == wi * hi,
            cw == (wi + 1) / 2,
            cx0 == x0 / 2,
            cx1 == (x1 + 1) / 2,
            cy1 == (y1 + 1) / 2,
            y0 <= cy * 2,
            cy <= cy1,
            nv12_len(wi, hi) <= start.len() == canvas_len,
            canvas@.len() == start.len(),
            bgra@.len() == image_len,
            pixel_at(wi, x1 - 1, y1 - 1) + 3 <= bgra@.len(),
            forall|i: int|
                #![trigger canvas@[i]]
                0 <= i < start.len() ==> canvas@[i] == if wi * hi <= i < nv12_len(wi, hi) && x0
                    <= block_x(wi, hi, i) < x1 && y0 <= block_y(wi, hi, i) < y1 && block_y(
                    wi,
                    hi,
                    i,
                ) < cy * 2 {
                    chroma_at(bgra@, wi, block_x(wi, hi, i), block_y(wi, hi, i), (i - wi * hi) % 2)
                } else {
                    start[i]
                },
        decreases cy1 - cy,
    {
        let mut cx: usize = cx0;
        while cx < cx1
            invariant
                x0 < x1 <= w < usize::MAX,
                y0 < y1 <= h < usize::MAX,
                x0 % 2 == 0,
                y0 % 2 == 0,
                wi == w,
                hi == h,
                luma_len == wi * hi,
                cw == (wi + 1) / 2,
                cx1 == (x1 + 1) / 2,
                cy1 == (y1 + 1) / 2,
                y0 <= cy * 2,
                cy < cy1,
                x0 <= cx * 2,
                cx <= cx1,
                nv12_len(wi, hi) <= start.len() == canvas_len,
                canvas@.len() == start.len(),
                bgra@.len() == image_len,
                pixel_at(wi, x1 - 1, y1 - 1) + 3 <= bgra@.len(),
                forall|i: int|
                    #![trigger canvas@[i]]
                    0 <= i < start.len() ==> canvas@[i] == if wi * hi <= i < nv12_len(wi, hi) && x0
                        <= block_x(wi, hi, i) < x1 && y0 <= block_y(wi, hi, i) < y1 && (block_y(
                        wi,
                        hi,
                        i,
                    ) < cy * 2 || (block_y(wi, hi, i) == cy * 2 && block_x(wi, hi, i) < cx * 2)) {
                        chroma_at(
                            bgra@,
                            wi,
                            block_x(wi, hi, i),
                            block_y(wi, hi, i),
                            (i - wi * hi) % 2,
                        )
                    } else {
                        start[i]
                    },
            decreases cx1 - cx,
        {
            let ghost before = canvas@;
            proof {
                lemma_pixel_order(wi, cx * 2, cy * 2, x1 as int, y1 as int);
                lemma_block_position(wi, hi, cx as int, cy as int, wi * hi);
            }
            let p: usize = (cy * 2 * w + cx * 2) * 4;
            let b = bgra[p];
            let g = bgra[p + 1];
            let r = bgra[p + 2];
            let at: usize = luma_len + (cy * cw + cx) * 2;
            canvas[at] = rgb_to_u(r, g, b);
            canvas[at + 1] = rgb_to_v(r, g, b);
            assert forall|i: int| #![trigger canvas@[i]] 0 <= i < start.len() implies canvas@[i]
                == if wi * hi <= i < nv12_len(wi, hi) && x0 <= block_x(wi, hi, i) < x1 && y0
                <= block_y(wi, hi, i) < y1 && (block_y(wi, hi, i) < cy * 2 || (block_y(wi, hi, i)
                == cy * 2 && block_x(wi, hi, i) < (cx + 1) * 2)) {
                chroma_at(bgra@, wi, block_x(wi, hi, i), block_y(wi, hi, i), (i - wi * hi) % 2)
            } else {
                start[i]
            } by {
                if wi * hi <= i {
                    lemma_block_position(wi, hi, cx as int, cy as int, i);
                }
                assert(i != at && i != at + 1 ==> canvas@[i] == before[i]);
            }
            cx = cx + 1;
        }
        cy = cy + 1;
    }
}

/// Repaints in the NV12 canvas what the dirty regions of a BGRA image cover, and leaves
/// the rest of the canvas as it is: the luma of the covered pixels, and the chroma of
/// their blocks. With no region, or with a canvas too
/// small for its dimensions, nothing changes.
pub fn patch_nv12_from_bgra(
    nv12: &mut [u8],
    canvas_w: usize,
    canvas_h: usize,
    bgra: &[u8],
    rects: &[DirtyRect],
)
    requires
        canvas_w < usize::MAX,
        canvas_h < usize::MAX,
        nv12_len(canvas_w as int, canvas_h as int) <= usize::MAX,
        nv12_len(canvas_w as int, canvas_h as int) <= old(nv12)@.len() ==> forall|k: int|
            0 <= k < rects@.len() ==> readable(
                #[trigger] rects@[k],
                canvas_w as int,
                canvas_h as int,
                bgra@.len() as int,
            ),
    ensures
        final(nv12)@.len() == old(nv12)@.len(),
        old(nv12)@.len() < nv12_len(canvas_w as int, canvas_h as int) ==> final(nv12)@ == old(
            nv12,
        )@,
        old(nv12)@.len() >= nv12_len(canvas_w as int, canvas_h as int) ==> final(nv12)@ == patched(
            old(nv12)@,
            canvas_w as int,
            canvas_h as int,
            bgra@,
            rects@,
        ),
{
    if nv12.len() < nv12_size(canvas_w, canvas_h) {
        return ;
    }
    let ghost start = nv12@;
    let ghost w = canvas_w as int;
    let ghost h = canvas_h as int;
    let n: usize = rects.len();
    let mut k: usize = 0;
    while k < n
        invariant
            k <= n,
            n == rects@.len(),
            w == canvas_w < usize::MAX,
            h == canvas_h < usize::MAX,
            nv12_len(w, h) <= start.len(),
            nv12@.len() == start.len(),
            forall|j: int|
                0 <= j < rects@.len() ==> readable(
                    #[trigger] rects@[j],
                    w,
                    h,
                    bgra@.len() as int,
                ),
            forall|i: int|
                0 <= i < start.len() ==> #[trigger] nv12@[i] == repainted(
                    start,
                    w,
                    h,
                    bgra@,
                    rects@.take(k as int),
                    i,
                ),
        decreases n - k,
    {
        let ghost before = nv12@;
        let ghost r = rects@[k as int];
        let (rx, ry, rw, rh) = rects[k];
        assert(readable(r, w, h, bgra@.len() as int));
        let x0: usize = (rx as usize) / 2 * 2;
        let y0: usize = (ry as usize) / 2 * 2;
        let rx1: u64 = (rx as u64) + (rw as u64);
        let ry1: u64 = (ry as u64) + (rh as u64);
        let x1: usize = if rx1 < canvas_w as u64 {
            rx1 as usize
        } else {
            canvas_w
        };
        let y1: usize = if ry1 < canvas_h as u64 {
            ry1 as usize
        } else {
            canvas_h
        };
        proof {
            lemma_canvas_bounds(w, h);
        }
        if (rx as usize) < x1 && (ry as usize) < y1 {
            paint_luma(nv12, canvas_w, canvas_h, bgra, rx as usize, x1, ry as usize, y1);
        }
        if x0 < x1 && y0 < y1 {
            paint_chroma(nv12, canvas_w, canvas_h, bgra, x0, x1, y0, y1);
        }
        assert forall|i: int| 0 <= i < start.len() implies #[trigger] nv12@[i] == repainted(
            start,
            w,
            h,
            bgra@,
            rects@.take(k + 1),
            i,
        ) by {
            lemma_one_more_region(rects@, k as int, w, h, i % w, i / w);
            lemma_one_more_region(rects@, k as int, w, h, block_x(w, h, i), block_y(w, h, i));
            assert(before[i] == repainted(start, w, h, bgra@, rects@.take(k as int), i));
        }
        k = k + 1;
    }
    assert(rects@.take(n as int) =~= rects@);
    assert(nv12@ =~= patched(start, w, h, bgra@, rects@));
}

/// One region more covers what the earlier ones do and its own pixels, and repaints what
/// they do and its own blocks.
proof fn lemma_one_more_region(rects: Seq<DirtyRect>, k: int, w: int, h: int, x: int, y: int)
    requires
        0 <= k < rects.len(),
    ensures
        covered(rects.take(k + 1), w, h, x, y) == (covered(rects.take(k), w, h, x, y) || covers(
            rects[k],
            w,
            h,
            x,
            y,
        )),
        dirty(rects.take(k + 1), w, h, x, y) == (dirty(rects.take(k), w, h, x, y) || paints(
            rects[k],
            w,
            h,
            x,
            y,
        )),
{
    let a = rects.take(k);
    let b = rects.take(k + 1);
    if covered(a, w, h, x, y) {
        let j = choose|j: int| 0 <= j < a.len() && #[trigger] covers(a[j], w, h, x, y);
        assert(b[j] == a[j]);
        assert(covers(b[j], w, h, x, y));
    }
    if covers(rects[k], w, h, x, y) {
        assert(b[k] == rects[k]);
        assert(covers(b[k], w, h, x, y));
    }
    if covered(b, w, h, x, y) {
        let j = choose|j: int| 0 <= j < b.len() && #[trigger] covers(b[j], w, h, x, y);
        if j < k {
            assert(a[j] == b[j]);
            assert(covers(a[j], w, h, x, y));
        }
    }
    if dirty(a, w, h, x, y) {
        let j = choose|j: int| 0 <= j < a.len() && #[trigger] paints(a[j], w, h, x, y);
        assert(b[j] == a[j]);
        assert(paints(b[j], w, h, x, y));
    }
    if paints(rects[k], w, h, x, y) {
        assert(b[k] == rects[k]);
        assert(paints(b[k], w, h, x, y));
    }
    if dirty(b, w, h, x, y) {
        let j = choose|j: int| 0 <= j < b.len() && #[trigger] paints(b[j], w, h, x, y);
        if j < k {
            assert(a[j] == b[j]);
            assert(paints(a[j], w, h, x, y));
        }
    }
}

/// Without a dirty region nothing is repainted.
pub proof fn law_no_region_no_change(canvas: Seq<u8>, w: int, h: int, bgra: Seq<u8>)
    ensures
        patched(canvas, w, h, bgra, Seq::<DirtyRect>::empty()) == canvas,
{
    assert(patched(canvas, w, h, bgra, Seq::<DirtyRect>::empty()) =~= canvas);
}

/// A row that no region covers keeps its luma.
pub proof fn law_uncovered_rows_are_kept(
    canvas: Seq<u8>,
    w: int,
    h: int,
    bgra: Seq<u8>,
    rects: Seq<DirtyRect>,
    i: int,
)
    requires
        0 <= i < w * h <= canvas.len(),
        forall|k: int|
            0 <= k < rects.len() ==> !((#[trigger] rects[k]).1 <= i / w < rects[k].1 + rects[k].3),
    ensures
        patched(canvas, w, h, bgra, rects)[i] == canvas[i],
{
}

/// Where a pixel is covered, its block is repainted.
proof fn lemma_covered_is_dirty(rects: Seq<DirtyRect>, w: int, h: int, x: int, y: int)
    requires
        covered(rects, w, h, x, y),
    ensures
        dirty(rects, w, h, x / 2 * 2, y / 2 * 2),
        dirty(rects, w, h, x, y),
{
    let k = choose|k: int| 0 <= k < rects.len() && #[trigger] covers(rects[k], w, h, x, y);
    assert(paints(rects[k], w, h, x / 2 * 2, y / 2 * 2));
    assert(paints(rects[k], w, h, x, y));
}

/// The chroma of a block is repainted where a region covers a pixel of the block, and
/// nowhere else. This is so of regions with an area.
pub proof fn law_blocks_with_a_covered_pixel_are_repainted(
    rects: Seq<DirtyRect>,
    w: int,
    h: int,
    x: int,
    y: int,
)
    requires
        x % 2 == 0,
        y % 2 == 0,
        forall|k: int|
            0 <= k < rects.len() ==> covers(
                #[trigger] rects[k],
                w,
                h,
                rects[k].0 as int,
                rects[k].1 as int,
            ),
    ensures
        dirty(rects, w, h, x, y) == (covered(rects, w, h, x, y) || covered(rects, w, h, x + 1, y)
            || covered(rects, w, h, x, y + 1) || covered(rects, w, h, x + 1, y + 1)),
{
    if dirty(rects, w, h, x, y) {
        let k = choose|k: int| 0 <= k < rects.len() && #[trigger] paints(rects[k], w, h, x, y);
        let r = rects[k];
        let px = if x < r.0 {
            x + 1
        } else {
            x
        };
        let py = if y < r.1 {
            y + 1
        } else {
            y
        };
        assert(covers(rects[k], w, h, px, py));
        assert(covered(rects, w, h, px, py));
    }
    if covered(rects, w, h, x, y) {
        lemma_covered_is_dirty(rects, w, h, x, y);
    }
    if covered(rects, w, h, x + 1, y) {
        lemma_covered_is_dirty(rects, w, h, x + 1, y);
    }
    if covered(rects, w, h, x, y + 1) {
        lemma_covered_is_dirty(rects, w, h, x, y + 1);
    }
    if covered(rects, w, h, x + 1, y + 1) {
        lemma_covered_is_dirty(rects, w, h, x + 1, y + 1);
    }
}

/// The region that covers a whole frame.
pub open spec fn whole_frame(w: int, h: int) -> Seq<DirtyRect> {
    seq![(0u32, 0u32, w as u32, h as u32)]
}

/// A region as large as the frame covers every pixel of it and repaints every block.
proof fn lemma_whole_frame_is_dirty(w: int, h: int, x: int, y: int)
    requires
        0 <= x < w <= u32::MAX,
        0 <= y < h <= u32::MAX,
    ensures
        covered(whole_frame(w, h), w, h, x, y),
        dirty(whole_frame(w, h), w, h, x, y),
{
    assert(covers(whole_frame(w, h)[0], w, h, x, y));
    assert(paints(whole_frame(w, h)[0], w, h, x, y));
}

/// The pixel of a luma byte, and the top left pixel of a chroma byte's block, lie
/// inside the frame.
proof fn lemma_byte_inside_frame(w: int, h: int, i: int)
    requires
        0 <= w,
        0 <= h,
        0 <= i < nv12_len(w, h),
    ensures
        i < w * h ==> 0 <= i % w < w && 0 <= i / w < h,
        w * h <= i ==> 0 <= block_x(w, h, i) < w && 0 <= block_y(w, h, i) < h,
{
    lemma_canvas_bounds(w, h);
    if i < w * h {
        assert(w > 0) by (nonlinear_arith)
            requires
                0 <= i < w * h,
                0 <= w,
                0 <= h,
        ;
        lemma_row_in_grid(w, h, i);
    } else {
        let cw = (w + 1) / 2;
        let ch = (h + 1) / 2;
        let block = (i - w * h) / 2;
        assert(2 * cw * ch == 2 * (cw * ch)) by (nonlinear_arith);
        assert(block < cw * ch);
        assert(cw > 0) by (nonlinear_arith)
            requires
                0 <= block < cw * ch,
                0 <= cw,
                0 <= ch,
        ;
        lemma_row_in_grid(cw, ch, block);
    }
}

/// Repainting the whole frame leaves nothing of what the canvas held before.
pub proof fn law_whole_frame_repaints_everything(
    canvas: Seq<u8>,
    other: Seq<u8>,
    w: int,
    h: int,
    bgra: Seq<u8>,
    i: int,
)
    requires
        0 <= w <= u32::MAX,
        0 <= h <= u32::MAX,
        0 <= i < nv12_len(w, h),
    ensures
        repainted(canvas, w, h, bgra, whole_frame(w, h), i) == repainted(
            other,
            w,
            h,
            bgra,
            whole_frame(w, h),
            i,
        ),
{
    lemma_byte_inside_frame(w, h, i);
    if i < w * h {
        lemma_whole_frame_is_dirty(w, h, i % w, i / w);
    } else {
        lemma_whole_frame_is_dirty(w, h, block_x(w, h, i), block_y(w, h, i));
    }
}

/// Whether two BGRA images have the same colour at column `x` of row `y`.
pub open spec fn same_colour(a: Seq<u8>, b: Seq<u8>, w: int, x: int, y: int) -> bool {
    let p = pixel_at(w, x, y);
    a[p] == b[p] && a[p + 1] == b[p + 1] && a[p + 2] == b[p + 2]
}

/// One byte of a canvas that shows the earlier image shows the later one after patching.
proof fn lemma_patched_byte(
    canvas: Seq<u8>,
    w: int,
    h: int,
    earlier: Seq<u8>,
    later: Seq<u8>,
    rects: Seq<DirtyRect>,
    i: int,
)
    requires
        0 <= w <= u32::MAX,
        0 <= h <= u32::MAX,
        0 <= i < nv12_len(w, h),
        canvas[i] == repainted(canvas, w, h, earlier, whole_frame(w, h), i),
        forall|x: int, y: int|
            0 <= x < w && 0 <= y < h && !covered(rects, w, h, x, y) ==> #[trigger] same_colour(
                earlier,
                later,
                w,
                x,
                y,
            ),
    ensures
        repainted(canvas, w, h, later, rects, i) == repainted(
            canvas,
            w,
            h,
            later,
            whole_frame(w, h),
            i,
        ),
{
    lemma_byte_inside_frame(w, h, i);
    let (x, y) = if i < w * h {
        (i % w, i / w)
    } else {
        (block_x(w, h, i), block_y(w, h, i))
    };
    lemma_whole_frame_is_dirty(w, h, x, y);
    if covered(rects, w, h, x, y) {
        lemma_covered_is_dirty(rects, w, h, x, y);
    } else {
        assert(same_colour(earlier, later, w, x, y));
    }
}

/// Patching is as good as painting afresh. Where a canvas shows the earlier image, and
/// the later one differs from it in covered pixels alone, repainting the regions gives
/// the canvas that shows the whole later image, in luma and in chroma.
pub proof fn law_patching_equals_painting_afresh(
    canvas: Seq<u8>,
    w: int,
    h: int,
    earlier: Seq<u8>,
    later: Seq<u8>,
    rects: Seq<DirtyRect>,
)
    requires
        0 <= w <= u32::MAX,
        0 <= h <= u32::MAX,
        nv12_len(w, h) <= canvas.len(),
        forall|x: int, y: int|
            0 <= x < w && 0 <= y < h && !covered(rects, w, h, x, y) ==> #[trigger] same_colour(
                earlier,
                later,
                w,
                x,
                y,
            ),
    ensures
        patched(patched(canvas, w, h, earlier, whole_frame(w, h)), w, h, later, rects) == patched(
            canvas,
            w,
            h,
            later,
            whole_frame(w, h),
        ),
{
    let shown = patched(canvas, w, h, earlier, whole_frame(w, h));
    let all = whole_frame(w, h);
    lemma_canvas_bounds(w, h);
    assert forall|i: int| 0 <= i < canvas.len() implies repainted(shown, w, h, later, rects, i)
        == repainted(canvas, w, h, later, all, i) by {
        if i < nv12_len(w, h) {
            law_whole_frame_repaints_everything(shown, canvas, w, h, earlier, i);
            law_whole_frame_repaints_everything(shown, canvas, w, h, later, i);
            lemma_patched_byte(shown, w, h, earlier, later, rects, i);
        }
    }
    assert(patched(shown, w, h, later, rects) =~= patched(canvas, w, h, later, all));
}

// ---- What the canvas shows -------------------------------------------------

/// A number in the range of a byte is held as it is; any other is held at the end of the
/// range that it lies beyond.
pub proof fn law_clamping_holds_to_the_nearest_byte(v: int, other: u8)
    ensures
        0 <= v <= 255 ==> clamped(v) == v,
        v < 0 ==> clamped(v) == 0,
        255 < v ==> clamped(v) == 255,
        0 <= other - v ==> clamped(v) <= other,
        0 <= v - other ==> other <= clamped(v),
{
}

/// An NV12 canvas takes one byte a pixel, and two for every started block of two by two
/// pixels: three bytes for two pixels where both sides are even.
pub proof fn law_canvas_has_three_bytes_for_two_pixels(w: int, h: int)
    requires
        0 <= w,
        0 <= h,
    ensures
        w % 2 == 0 && h % 2 == 0 ==> 2 * nv12_len(w, h) == 3 * (w * h),
        nv12_len(w, h) == w * h + 2 * (((w + 1) / 2) * ((h + 1) / 2)),
{
    let cw = (w + 1) / 2;
    let ch = (h + 1) / 2;
    assert(2 * cw * ch == 2 * (cw * ch)) by (nonlinear_arith);
    if w % 2 == 0 && h % 2 == 0 {
        assert((2 * cw) * (2 * ch) == 4 * (cw * ch)) by (nonlinear_arith);
        assert(w == 2 * cw && h == 2 * ch);
    }
}

/// The bytes of the canvas that belong to the pixel at column `x` of row `y`: its luma, and
/// the two chroma bytes of its block.
proof fn lemma_bytes_of_pixel(w: int, h: int, x: int, y: int)
    requires
        0 <= x < w,
        0 <= y < h,
    ensures
        0 <= y * w + x < w * h,
        (y * w + x) / w == y,
        (y * w + x) % w == x,
        ({
            let at = w * h + 2 * ((y / 2) * ((w + 1) / 2) + x / 2);
            &&& w * h <= at
            &&& at + 1 < nv12_len(w, h)
            &&& (at - w * h) % 2 == 0
            &&& (at + 1 - w * h) % 2 == 1
            &&& block_x(w, h, at) == x / 2 * 2
            &&& block_y(w, h, at) == y / 2 * 2
            &&& block_x(w, h, at + 1) == x / 2 * 2
            &&& block_y(w, h, at + 1) == y / 2 * 2
        }),
{
    let k = y * w + x;
    lemma_mul_inequality(0, y, w);
    lemma_mul_inequality(y + 1, h, w);
    assert((y + 1) * w == y * w + w) by (nonlinear_arith);
    lemma_mul_is_commutative(h, w);
    lemma_place(w, x, y, k);
    let at = w * h + 2 * ((y / 2) * ((w + 1) / 2) + x / 2);
    lemma_block_position(w, h, x / 2, y / 2, at);
    lemma_block_position(w, h, x / 2, y / 2, at + 1);
}

/// What a region covers is repainted in the colours of the picture, by the formulas of
/// BT.601 with studio range: the luma of each covered pixel, and for its block the
/// blue difference first and the red difference behind it, both of the block's top left
/// pixel. A picture has blue, green and red at the first three bytes of each pixel.
pub proof fn law_covered_pixels_take_the_colours_of_the_picture(
    canvas: Seq<u8>,
    w: int,
    h: int,
    bgra: Seq<u8>,
    rects: Seq<DirtyRect>,
    k: int,
    x: int,
    y: int,
)
    requires
        0 <= k < rects.len(),
        rects[k].0 <= x < rects[k].0 + rects[k].2,
        rects[k].1 <= y < rects[k].1 + rects[k].3,
        0 <= x < w,
        0 <= y < h,
        w * h + 2 * (((w + 1) / 2) * ((h + 1) / 2)) <= canvas.len(),
    ensures
        ({
            let after = patched(canvas, w, h, bgra, rects);
            let p = (y * w + x) * 4;
            after[y * w + x] == (66 * bgra[p + 2] + 129 * bgra[p + 1] + 25 * bgra[p] + 128) / 256
                + 16
        }),
        ({
            let after = patched(canvas, w, h, bgra, rects);
            let q = ((y / 2 * 2) * w + x / 2 * 2) * 4;
            let at = w * h + 2 * ((y / 2) * ((w + 1) / 2) + x / 2);
            &&& after[at] == (112 * bgra[q] - 38 * bgra[q + 2] - 74 * bgra[q + 1] + 128) / 256
                + 128
            &&& after[at + 1] == (112 * bgra[q + 2] - 94 * bgra[q + 1] - 18 * bgra[q] + 128) / 256
                + 128
        }),
{
    lemma_bytes_of_pixel(w, h, x, y);
    law_canvas_has_three_bytes_for_two_pixels(w, h);
    assert(covers(rects[k], w, h, x, y));
    assert(covered(rects, w, h, x, y));
    lemma_covered_is_dirty(rects, w, h, x, y);
    let p = (y * w + x) * 4;
    let q = ((y / 2 * 2) * w + x / 2 * 2) * 4;
    law_studio_range(bgra[p + 2], bgra[p + 1], bgra[p]);
    law_studio_range(bgra[q + 2], bgra[q + 1], bgra[q]);
}

/// A canvas on which the whole frame has been painted shows the picture: the luma of every
/// pixel, and for every block of two by two pixels the blue difference of its top left
/// pixel, followed by the red difference.
pub proof fn law_whole_frame_shows_the_picture(
    canvas: Seq<u8>,
    w: u32,
    h: u32,
    bgra: Seq<u8>,
    x: int,
    y: int,
)
    requires
        0 <= x < w,
        0 <= y < h,
        w * h + 2 * (((w + 1) / 2) * ((h + 1) / 2)) <= canvas.len(),
    ensures
        ({
            let after = patched(
                canvas,
                w as int,
                h as int,
                bgra,
                seq![(0u32, 0u32, w, h)],
            );
            let p = (y * w + x) * 4;
            after[y * w + x] == (66 * bgra[p + 2] + 129 * bgra[p + 1] + 25 * bgra[p] + 128) / 256
                + 16
        }),
        x % 2 == 0 && y % 2 == 0 ==> ({
            let after = patched(
                canvas,
                w as int,
                h as int,
                bgra,
                seq![(0u32, 0u32, w, h)],
            );
            let p = (y * w + x) * 4;
            let at = w * h + 2 * ((y / 2) * ((w + 1) / 2) + x / 2);
            &&& after[at] == (112 * bgra[p] - 38 * bgra[p + 2] - 74 * bgra[p + 1] + 128) / 256
                + 128
            &&& after[at + 1] == (112 * bgra[p + 2] - 94 * bgra[p + 1] - 18 * bgra[p] + 128) / 256
                + 128
        }),
{
    law_covered_pixels_take_the_colours_of_the_picture(
        canvas,
        w as int,
        h as int,
        bgra,
        seq![(0u32, 0u32, w, h)],
        0,
        x,
        y,
    );
}

/// What no region covers is kept: the luma of a pixel that lies in none, and the chroma of
/// a block that no region has a pixel of. Regions have an area here. The canvas keeps its
/// length, and what lies behind its two planes.
pub proof fn law_what_is_not_covered_is_kept(
    canvas: Seq<u8>,
    w: int,
    h: int,
    bgra: Seq<u8>,
    rects: Seq<DirtyRect>,
    x: int,
    y: int,
)
    requires
        0 <= x < w,
        0 <= y < h,
        w * h + 2 * (((w + 1) / 2) * ((h + 1) / 2)) <= canvas.len(),
        forall|k: int| 0 <= k < rects.len() ==> (#[trigger] rects[k]).2 > 0 && rects[k].3 > 0,
    ensures
        patched(canvas, w, h, bgra, rects).len() == canvas.len(),
        (forall|k: int|
            0 <= k < rects.len() ==> !((#[trigger] rects[k]).0 <= x < rects[k].0 + rects[k].2
                && rects[k].1 <= y < rects[k].1 + rects[k].3)) ==> patched(
            canvas,
            w,
            h,
            bgra,
            rects,
        )[y * w + x] == canvas[y * w + x],
        (forall|k: int|
            0 <= k < rects.len() ==> (#[trigger] rects[k]).0 + rects[k].2 <= x / 2 * 2 || rects[k].0
                > x / 2 * 2 + 1 || rects[k].1 + rects[k].3 <= y / 2 * 2 || rects[k].1 > y / 2 * 2
                + 1) ==> ({
            let after = patched(canvas, w, h, bgra, rects);
            let at = w * h + 2 * ((y / 2) * ((w + 1) / 2) + x / 2);
            after[at] == canvas[at] && after[at + 1] == canvas[at + 1]
        }),
        forall|i: int|
            w * h + 2 * (((w + 1) / 2) * ((h + 1) / 2)) <= i < canvas.len() ==> #[trigger] patched(
                canvas,
                w,
                h,
                bgra,
                rects,
            )[i] == canvas[i],
{
    lemma_bytes_of_pixel(w, h, x, y);
    lemma_canvas_bounds(w, h);
    law_canvas_has_three_bytes_for_two_pixels(w, h);
}

} // verus!
