//! The packed BGRA buffer that captured frames are gathered in. It persists between
//! frames: of a frame, only the dirty regions are copied into it.
use crate::grid::{lemma_place, lemma_row_in_grid};
use crate::nv12::DirtyRect;
use vstd::arithmetic::mul::{lemma_mul_inequality, lemma_mul_is_commutative};
use vstd::prelude::*;

verus! {

/// A rectangle as the system reports it: edges with signs, the right and bottom ones
/// just outside.
#[derive(Clone, Copy, PartialEq, Eq, Debug, Structural)]
pub struct RawRect {
    pub left: i32,
    pub top: i32,
    pub right: i32,
    pub bottom: i32,
}

/// The part of a reported rectangle that lies on a frame of `w` by `h` pixels, if
/// there is one.
pub open spec fn cut_to_frame(r: RawRect, w: u32, h: u32) -> Option<DirtyRect> {
    let x0 = if r.left < 0 {
        0
    } else {
        r.left as int
    };
    let y0 = if r.top < 0 {
        0
    } else {
        r.top as int
    };
    let x1 = if r.right < w {
        r.right as int
    } else {
        w as int
    };
    let y1 = if r.bottom < h {
        r.bottom as int
    } else {
        h as int
    };
    if x0 < x1 && y0 < y1 {
        Some((x0 as u32, y0 as u32, (x1 - x0) as u32, (y1 - y0) as u32))
    } else {
        None
    }
}

/// Cuts a reported rectangle to the frame and drops it where nothing is left.
pub fn clamp_rect(r: &RawRect, w: u32, h: u32) -> (out: Option<DirtyRect>)
    ensures
        out == cut_to_frame(*r, w, h),
{
    let x0: u32 = if r.left < 0 {
        0
    } else {
        r.left as u32
    };
    let y0: u32 = if r.top < 0 {
        0
    } else {
        r.top as u32
    };
    let rx: u32 = if r.right < 0 {
        0
    } else {
        r.right as u32
    };
    let ry: u32 = if r.bottom < 0 {
        0
    } else {
        r.bottom as u32
    };
    let x1: u32 = if rx < w {
        rx
    } else {
        w
    };
    let y1: u32 = if ry < h {
        ry
    } else {
        h
    };
    if x1 <= x0 || y1 <= y0 {
        None
    } else {
        Some((x0, y0, x1 - x0, y1 - y0))
    }
}

/// Whether the pixel at column `x` of row `y` lies in a dirty region.
pub open spec fn inside(r: DirtyRect, x: int, y: int) -> bool {
    r.0 <= x < r.0 + r.2 && r.1 <= y < r.1 + r.3
}

/// Whether a dirty region lies on a frame of `w` by `h` pixels.
pub open spec fn on_frame(r: DirtyRect, w: int, h: int) -> bool {
    r.0 + r.2 <= w && r.1 + r.3 <= h
}

/// Cutting loses no pixel of the frame and adds none: what is left of a rectangle
/// holds the pixels of the frame that the rectangle holds, and lies on the frame.
pub proof fn law_cut_keeps_the_pixels(r: RawRect, w: u32, h: u32, x: int, y: int)
    requires
        0 <= x < w,
        0 <= y < h,
    ensures
        (r.left <= x < r.right && r.top <= y < r.bottom) <==> match cut_to_frame(r, w, h) {
            Some(d) => inside(d, x, y),
            None => false,
        },
        match cut_to_frame(r, w, h) {
            Some(d) => on_frame(d, w as int, h as int) && d.2 > 0 && d.3 > 0,
            None => true,
        },
{
}

/// The reported rectangles, each cut to the frame, without those that vanish.
pub open spec fn cut_all(rects: Seq<RawRect>, w: u32, h: u32) -> Seq<DirtyRect>
    decreases rects.len(),
{
    if rects.len() == 0 {
        Seq::empty()
    } else {
        let rest = cut_all(rects.drop_last(), w, h);
        match cut_to_frame(rects.last(), w, h) {
            Some(d) => rest.push(d),
            None => rest,
        }
    }
}

/// Largest number of rectangles that are read for one frame.
pub const MAX_RECTS: usize = 64;

/// Bytes that a reported rectangle takes.
pub const RECT_BYTES: usize = 16;

/// Number of rectangles that `needed` bytes hold, as far as they are read.
pub open spec fn rects_in(needed: u32) -> int {
    if needed as int / 16 < 64 {
        needed as int / 16
    } else {
        64
    }
}

/// Dirty regions of a frame. `reported` holds the rectangles that the system has
/// filled in, of which `needed` bytes count. Where it reports nothing the whole frame
/// is taken to be dirty, so that no old content stays.
pub fn read_dirty_rects(reported: Option<&[RawRect]>, needed: u32, width: u32, height: u32) -> (out:
    Vec<DirtyRect>)
    requires
        reported is Some ==> rects_in(needed) <= reported->0@.len(),
    ensures
        out@ == match reported {
            Some(rects) => cut_all(rects@.take(rects_in(needed)), width, height),
            None => seq![(0u32, 0u32, width, height)],
        },
{
    match reported {
        Some(rects) => {
            let held: usize = needed as usize / RECT_BYTES;
            let n: usize = if held < MAX_RECTS {
                held
            } else {
                MAX_RECTS
            };
            let mut out: Vec<DirtyRect> = Vec::new();
            for i in 0..n
                invariant
                    n == rects_in(needed) <= rects@.len(),
                    out@ == cut_all(rects@.take(i as int), width, height),
            {
                assert(rects@.take(i + 1).drop_last() =~= rects@.take(i as int));
                if let Some(d) = clamp_rect(&rects[i], width, height) {
                    out.push(d);
                }
            }
            out
        },
        None => {
            let mut out: Vec<DirtyRect> = Vec::new();
            out.push((0, 0, width, height));
            out
        },
    }
}

/// Every region that is read lies on the frame.
pub proof fn law_read_regions_lie_on_the_frame(rects: Seq<RawRect>, w: u32, h: u32)
    ensures
        forall|k: int|
            0 <= k < cut_all(rects, w, h).len() ==> on_frame(
                #[trigger] cut_all(rects, w, h)[k],
                w as int,
                h as int,
            ),
    decreases rects.len(),
{
    if rects.len() > 0 {
        let rest = cut_all(rects.drop_last(), w, h);
        law_read_regions_lie_on_the_frame(rects.drop_last(), w, h);
        assert forall|k: int| 0 <= k < cut_all(rects, w, h).len() implies on_frame(
            #[trigger] cut_all(rects, w, h)[k],
            w as int,
            h as int,
        ) by {
            if k < rest.len() {
                assert(cut_all(rects, w, h)[k] == rest[k]);
            }
        }
    }
}

/// Whether a desktop update brings new picture content. An update without a frame, or
/// one in which only the cursor has moved, does not.
pub fn has_new_content(has_frame: bool, accumulated_frames: u32) -> (out: bool)
    ensures
        out == (has_frame && accumulated_frames != 0),
{
    has_frame && accumulated_frames != 0
}

// ---- The buffer ------------------------------------------------------------

/// Bytes of a packed BGRA frame.
pub open spec fn packed_len(w: int, h: int) -> int {
    w * 4 * h
}

/// A frame has no negative number of bytes.
proof fn lemma_packed_len(w: int, h: int)
    requires
        0 <= w,
        0 <= h,
    ensures
        0 <= packed_len(w, h),
{
    assert(0 <= w * 4 * h) by (nonlinear_arith)
        requires
            0 <= w,
            0 <= h,
    ;
}

/// The regions of a frame that are copied into a buffer of the given size. A frame of
/// another size is copied whole; so is one for which the system reports nothing. Of any
/// other frame the reported rectangles are copied, of which `needed` bytes count.
pub open spec fn frame_regions(
    size: (u32, u32),
    width: u32,
    height: u32,
    reported: Option<&[RawRect]>,
    needed: u32,
) -> Seq<DirtyRect> {
    if size != (width, height) {
        seq![(0u32, 0u32, width, height)]
    } else {
        match reported {
            Some(rects) => cut_all(rects@.take(rects_in(needed)), width, height),
            None => seq![(0u32, 0u32, width, height)],
        }
    }
}

/// Whether the pixel at column `x` of row `y` lies in one of the regions.
pub open spec fn touched(rects: Seq<DirtyRect>, x: int, y: int) -> bool {
    exists|k: int| 0 <= k < rects.len() && #[trigger] inside(rects[k], x, y)
}

/// Byte `i` of a packed frame that is `w` pixels wide, after the regions `rects` have
/// been copied from an image whose rows start `pitch` bytes apart.
pub open spec fn refreshed(
    buffer: Seq<u8>,
    w: int,
    src: Seq<u8>,
    pitch: int,
    rects: Seq<DirtyRect>,
    i: int,
) -> u8 {
    let tight = w * 4;
    if touched(rects, i % tight / 4, i / tight) {
        src[i / tight * pitch + i % tight]
    } else {
        buffer[i]
    }
}

/// Byte `i` of a packed frame that is `w` pixels wide, after its whole rows have been copied
/// from an image whose rows start `pitch` bytes apart, as far as the image holds them.
pub open spec fn row_copied(buffer: Seq<u8>, w: int, src: Seq<u8>, pitch: int, i: int) -> u8 {
    let tight = w * 4;
    if i / tight * pitch + tight <= src.len() {
        src[i / tight * pitch + i % tight]
    } else {
        buffer[i]
    }
}

/// Whether the rows of a region can be read from an image of `len` bytes whose rows
/// start `pitch` bytes apart.
pub open spec fn row_readable(r: DirtyRect, w: int, h: int, pitch: int, len: int) -> bool {
    let x1 = if r.0 + r.2 < w {
        r.0 + r.2
    } else {
        w
    };
    let y1 = if r.1 + r.3 < h {
        r.1 + r.3
    } else {
        h
    };
    &&& r.0 + r.2 <= u32::MAX
    &&& r.1 + r.3 <= u32::MAX
    &&& r.0 < x1 && r.1 < y1 ==> (y1 - 1) * pitch + x1 * 4 <= len
}

/// Copies bytes `a..b` of rows `y0..y1`.
fn copy_block(
    buffer: &mut Vec<u8>,
    tight: usize,
    height: usize,
    src: &[u8],
    pitch: usize,
    a: usize,
    b: usize,
    y0: usize,
    y1: usize,
)
    requires
        a < b <= tight,
        y0 < y1 <= height,
        old(buffer)@.len() == tight * height,
        (y1 - 1) * pitch + b <= src@.len(),
    ensures
        final(buffer)@.len() == old(buffer)@.len(),
        forall|i: int|
            #![trigger final(buffer)@[i]]
            0 <= i < final(buffer)@.len() ==> final(buffer)@[i] == if a <= i % (tight as int) < b
                && y0 <= i / (tight as int) < y1 {
                src@[i / (tight as int) * pitch + i % (tight as int)]
            } else {
                old(buffer)@[i]
            },
{
    let ghost start = buffer@;
    let ghost t = tight as int;
    let buffer_len: usize = buffer.len();
    let src_len: usize = src.len();
    let mut y: usize = y0;
    while y < y1
        invariant
            a < b <= tight,
            y0 <= y <= y1 <= height,
            t == tight,
            start.len() == t * height == buffer_len,
            buffer@.len() == start.len(),
            src@.len() == src_len,
            (y1 - 1) * pitch + b <= src@.len(),
            forall|i: int|
                #![trigger buffer@[i]]
                0 <= i < start.len() ==> buffer@[i] == if a <= i % t < b && y0 <= i / t < y {
                    src@[i / t * pitch + i % t]
                } else {
                    start[i]
                },
        decreases y1 - y,
    {
        let mut x: usize = a;
        while x < b
            invariant
                a <= x <= b <= tight,
                a < b,
                y0 <= y < y1 <= height,
                t == tight,
                start.len() == t * height == buffer_len,
                buffer@.len() == start.len(),
                src@.len() == src_len,
                (y1 - 1) * pitch + b <= src@.len(),
                forall|i: int|
                    #![trigger buffer@[i]]
                    0 <= i < start.len() ==> buffer@[i] == if a <= i % t < b && y0 <= i / t && (i
                        / t < y || (i / t == y && i % t < x)) {
                        src@[i / t * pitch + i % t]
                    } else {
                        start[i]
                    },
            decreases b - x,
        {
            let ghost before = buffer@;
            proof {
                lemma_mul_inequality(0, y as int, pitch as int);
                lemma_mul_inequality(y as int, y1 - 1, pitch as int);
                lemma_mul_inequality(0, y as int, t);
                lemma_mul_inequality(y + 1, height as int, t);
                lemma_mul_is_commutative(height as int, t);
                assert((y + 1) * t == y * t + t) by (nonlinear_arith);
            }
            buffer.set(y * tight + x, src[y * pitch + x]);
            assert forall|i: int| #![trigger buffer@[i]] 0 <= i < start.len() implies buffer@[i]
                == if a <= i % t < b && y0 <= i / t && (i / t < y || (i / t == y && i % t < x
                + 1)) {
                src@[i / t * pitch + i % t]
            } else {
                start[i]
            } by {
                lemma_place(t, x as int, y as int, i);
                assert(i != y * t + x ==> buffer@[i] == before[i]);
            }
            x = x + 1;
        }
        y = y + 1;
    }
}

/// `s` made `len` bytes long: cut, or filled up with zeros.
pub open spec fn resized(s: Seq<u8>, len: int) -> Seq<u8> {
    Seq::new(
        len as nat,
        |i: int|
            if i < s.len() {
                s[i]
            } else {
                0u8
            },
    )
}

/// Makes `bytes` as long as a packed frame of the given size.
pub fn resize_to(bytes: &mut Vec<u8>, width: u32, height: u32)
    requires
        packed_len(width as int, height as int) <= usize::MAX,
    ensures
        final(bytes)@ == resized(old(bytes)@, packed_len(width as int, height as int)),
{
    let w: usize = width as usize;
    let h: usize = height as usize;
    if h == 0 {
        assert(width as int * 4 * height as int == 0) by (nonlinear_arith)
            requires
                height == 0,
        ;
    } else {
        assert(w * 4 <= w * 4 * h) by (nonlinear_arith)
            requires
                0 <= w,
                1 <= h,
        ;
    }
    let len: usize = if h == 0 {
        0
    } else {
        w * 4 * h
    };
    bytes.resize(len, 0);
    assert(bytes@ =~= resized(old(bytes)@, packed_len(width as int, height as int))) by {
        let before = old(bytes)@;
        if len > before.len() {
            assert forall|i: int| 0 <= i < before.len() implies bytes@[i] == before[i] by {
                assert(bytes@.subrange(0, before.len() as int)[i] == bytes@[i]);
            }
        }
    }
}

/// A packed BGRA frame that is kept from one captured frame to the next, with its size.
pub struct FrameBuffer {
    bytes: Vec<u8>,
    width: u32,
    height: u32,
}

impl View for FrameBuffer {
    type V = Seq<u8>;

    closed spec fn view(&self) -> Seq<u8> {
        self.bytes@
    }
}

impl FrameBuffer {
    /// Width and height of the frame.
    pub closed spec fn size(&self) -> (u32, u32) {
        (self.width, self.height)
    }

    /// Whether the buffer holds as many bytes as its frame has.
    pub open spec fn well_formed(&self) -> bool {
        self@.len() == packed_len(self.size().0 as int, self.size().1 as int)
    }

    /// An empty buffer, for a frame without pixels.
    pub fn new() -> (out: FrameBuffer)
        ensures
            out@ == Seq::<u8>::empty(),
            out.size() == (0u32, 0u32),
            out.well_formed(),
    {
        FrameBuffer { bytes: Vec::new(), width: 0, height: 0 }
    }

    /// The bytes of the last frame.
    pub fn bytes(&self) -> (out: &[u8])
        ensures
            out@ == self@,
    {
        self.bytes.as_slice()
    }

    /// Makes the buffer fit a frame of the given size. Where the size changes, which it
    /// also does on the first frame, the whole frame has to be copied, so that no content
    /// of another resolution stays: that region is the result. Otherwise the buffer stays
    /// as it is.
    pub fn fit(&mut self, width: u32, height: u32) -> (whole: Option<Vec<DirtyRect>>)
        requires
            old(self).well_formed(),
            packed_len(width as int, height as int) <= usize::MAX,
        ensures
            final(self).well_formed(),
            final(self).size() == (width, height),
            old(self).size() == (width, height) ==> whole is None && final(self)@ == old(self)@,
            old(self).size() != (width, height) ==> {
                &&& whole is Some
                &&& whole->0@ == seq![(0u32, 0u32, width, height)]
                &&& final(self)@ == resized(old(self)@, packed_len(width as int, height as int))
            },
    {
        if self.width == width && self.height == height {
            return None;
        }
        proof {
            lemma_packed_len(width as int, height as int);
        }
        resize_to(&mut self.bytes, width, height);
        self.width = width;
        self.height = height;
        let mut whole: Vec<DirtyRect> = Vec::new();
        whole.push((0, 0, width, height));
        Some(whole)
    }

    /// Copies the dirty regions of a mapped image, whose rows start `pitch` bytes
    /// apart. The rest of the buffer keeps the content of earlier frames.
    pub fn copy_dirty(
        &mut self,
        src: &[u8],
        pitch: usize,
        width: u32,
        height: u32,
        rects: &[DirtyRect],
    )
        requires
            old(self).well_formed(),
            old(self).size() == (width, height),
            forall|k: int|
                0 <= k < rects@.len() ==> row_readable(
                    #[trigger] rects@[k],
                    width as int,
                    height as int,
                    pitch as int,
                    src@.len() as int,
                ),
        ensures
            final(self).well_formed(),
            final(self).size() == old(self).size(),
            final(self)@.len() == old(self)@.len(),
            forall|i: int|
                0 <= i < old(self)@.len() ==> #[trigger] final(self)@[i] == refreshed(
                    old(self)@,
                    width as int,
                    src@,
                    pitch as int,
                    rects@,
                    i,
                ),
    {
        let ghost start = self@;
        let ghost w = width as int;
        let ghost h = height as int;
        let buffer_len: usize = self.bytes.len();
        let n: usize = rects.len();
        let mut k: usize = 0;
        while k < n
            invariant
                k <= n,
                n == rects@.len(),
                w == width,
                h == height,
                start.len() == packed_len(w, h) == buffer_len,
                self@.len() == start.len(),
                self.size() == (width, height),
                forall|j: int|
                    0 <= j < rects@.len() ==> row_readable(
                        #[trigger] rects@[j],
                        w,
                        h,
                        pitch as int,
                        src@.len() as int,
                    ),
                forall|i: int|
                    0 <= i < start.len() ==> #[trigger] self@[i] == refreshed(
                        start,
                        w,
                        src@,
                        pitch as int,
                        rects@.take(k as int),
                        i,
                    ),
            decreases n - k,
        {
            let ghost before = self@;
            let ghost r = rects@[k as int];
            let (rx, ry, rw, rh) = rects[k];
            assert(row_readable(r, w, h, pitch as int, src@.len() as int));
            let x1: u32 = if rx + rw < width {
                rx + rw
            } else {
                width
            };
            let y1: u32 = if ry + rh < height {
                ry + rh
            } else {
                height
            };
            if rx < x1 && ry < y1 {
                proof {
                    assert(w * 4 <= w * 4 * h) by (nonlinear_arith)
                        requires
                            0 <= w,
                            1 <= h,
                    ;
                }
                copy_block(
                    &mut self.bytes,
                    width as usize * 4,
                    height as usize,
                    src,
                    pitch,
                    rx as usize * 4,
                    x1 as usize * 4,
                    ry as usize,
                    y1 as usize,
                );
            }
            assert forall|i: int| 0 <= i < start.len() implies #[trigger] self@[i] == refreshed(
                start,
                w,
                src@,
                pitch as int,
                rects@.take(k + 1),
                i,
            ) by {
                let tight = w * 4;
                assert(tight > 0) by (nonlinear_arith)
                    requires
                        0 <= i < tight * h,
                        0 <= h,
                        0 <= tight,
                ;
                lemma_row_in_grid(tight, h, i);
                lemma_one_more_region(rects@, k as int, i % tight / 4, i / tight);
                assert(before[i] == refreshed(
                    start,
                    w,
                    src@,
                    pitch as int,
                    rects@.take(k as int),
                    i,
                ));
                assert(r.0 <= i % tight / 4 < x1 <==> r.0 * 4 <= i % tight < x1 * 4);
                assert(inside(r, i % tight / 4, i / tight) <==> r.0 <= i % tight / 4 < x1 && r.1
                    <= i / tight < y1);
            }
            k = k + 1;
        }
        assert(rects@.take(n as int) =~= rects@);
    }

    /// Copies the whole rows of an image whose rows start `pitch` bytes apart. A row
    /// that the image does not hold completely is left out.
    pub fn copy_rows(&mut self, src: &[u8], pitch: usize, width: u32, height: u32)
        requires
            old(self).well_formed(),
            old(self).size() == (width, height),
            width * 4 <= usize::MAX,
            height > 0 ==> (height - 1) * pitch + width * 4 <= usize::MAX,
        ensures
            final(self).well_formed(),
            final(self).size() == old(self).size(),
            final(self)@.len() == old(self)@.len(),
            forall|i: int|
                #![trigger final(self)@[i]]
                0 <= i < old(self)@.len() ==> final(self)@[i] == {
                    let tight = width as int * 4;
                    if i / tight * pitch + tight <= src@.len() {
                        src@[i / tight * pitch + i % tight]
                    } else {
                        old(self)@[i]
                    }
                },
            forall|i: int|
                0 <= i < old(self)@.len() ==> #[trigger] final(self)@[i] == row_copied(
                    old(self)@,
                    width as int,
                    src@,
                    pitch as int,
                    i,
                ),
    {
        let ghost start = self@;
        let tight: usize = width as usize * 4;
        let h: usize = height as usize;
        let buffer_len: usize = self.bytes.len();
        let ghost t = width as int * 4;
        if tight == 0 {
            assert(self@.len() == 0) by (nonlinear_arith)
                requires
                    self@.len() == width as int * 4 * height as int,
                    width == 0,
            ;
            return ;
        }
        let mut y: usize = 0;
        while y < h
            invariant
                y <= h,
                h == height,
                t == tight == width * 4,
                t > 0,
                h > 0 ==> (h - 1) * pitch + t <= usize::MAX,
                start.len() == t * h == buffer_len,
                self@.len() == start.len(),
                self.size() == (width, height),
                forall|i: int|
                    #![trigger self@[i]]
                    0 <= i < start.len() ==> self@[i] == if i / t < y && i / t * pitch + t
                        <= src@.len() {
                        src@[i / t * pitch + i % t]
                    } else {
                        start[i]
                    },
            decreases h - y,
        {
            let ghost before = self@;
            proof {
                lemma_mul_inequality(0, y as int, pitch as int);
                lemma_mul_inequality(y as int, h - 1, pitch as int);
            }
            let s: usize = y * pitch;
            if s + tight <= src.len() {
                copy_block(&mut self.bytes, tight, h, src, pitch, 0, tight, y, y + 1);
            }
            assert forall|i: int| #![trigger self@[i]] 0 <= i < start.len() implies self@[i]
                == if i / t < y + 1 && i / t * pitch + t <= src@.len() {
                src@[i / t * pitch + i % t]
            } else {
                start[i]
            } by {
                lemma_row_in_grid(t, h as int, i);
                assert(before[i] == if i / t < y && i / t * pitch + t <= src@.len() {
                    src@[i / t * pitch + i % t]
                } else {
                    start[i]
                });
            }
            y = y + 1;
        }
        assert forall|i: int| #![trigger self@[i]] 0 <= i < start.len() implies i / t < h by {
            lemma_row_in_grid(t, h as int, i);
        }
    }
}

/// One region more touches what the earlier ones do and its own pixels.
proof fn lemma_one_more_region(rects: Seq<DirtyRect>, k: int, x: int, y: int)
    requires
        0 <= k < rects.len(),
    ensures
        touched(rects.take(k + 1), x, y) == (touched(rects.take(k), x, y) || inside(
            rects[k],
            x,
            y,
        )),
{
    let a = rects.take(k);
    let b = rects.take(k + 1);
    if touched(a, x, y) {
        let j = choose|j: int| 0 <= j < a.len() && #[trigger] inside(a[j], x, y);
        assert(b[j] == a[j]);
        assert(inside(b[j], x, y));
    }
    if inside(rects[k], x, y) {
        assert(b[k] == rects[k]);
        assert(inside(b[k], x, y));
    }
    if touched(b, x, y) {
        let j = choose|j: int| 0 <= j < b.len() && #[trigger] inside(b[j], x, y);
        if j < k {
            assert(a[j] == b[j]);
            assert(inside(a[j], x, y));
        }
    }
}

/// A change of resolution leaves nothing of what the buffer held: every byte of the frame
/// is copied, also where the two resolutions have as many pixels.
pub proof fn law_new_resolution_is_copied_whole(
    buffer: Seq<u8>,
    size: (u32, u32),
    width: u32,
    height: u32,
    reported: Option<&[RawRect]>,
    needed: u32,
    src: Seq<u8>,
    pitch: int,
    i: int,
)
    requires
        size != (width, height),
        0 <= i < packed_len(width as int, height as int),
    ensures
        refreshed(
            buffer,
            width as int,
            src,
            pitch,
            frame_regions(size, width, height, reported, needed),
            i,
        ) == src[i / (width as int * 4) * pitch + i % (width as int * 4)],
{
    let tight = width as int * 4;
    let regions = frame_regions(size, width, height, reported, needed);
    assert(tight > 0) by (nonlinear_arith)
        requires
            0 <= i < tight * height as int,
            0 <= height,
            0 <= tight,
    ;
    lemma_row_in_grid(tight, height as int, i);
    assert(inside(regions[0], i % tight / 4, i / tight));
    assert(touched(regions, i % tight / 4, i / tight));
}

/// The buffer follows the screen. Where it shows the earlier image, and the later one
/// differs from it in dirty pixels alone, copying the dirty regions makes it show the
/// later image.
pub proof fn law_buffer_follows_the_screen(
    buffer: Seq<u8>,
    w: int,
    h: int,
    earlier: Seq<u8>,
    later: Seq<u8>,
    pitch: int,
    rects: Seq<DirtyRect>,
)
    requires
        0 < w,
        0 <= h,
        buffer.len() == packed_len(w, h),
        forall|i: int|
            0 <= i < buffer.len() ==> #[trigger] buffer[i] == earlier[i / (w * 4) * pitch + i % (w
                * 4)],
        forall|x: int, y: int|
            0 <= x < w * 4 && 0 <= y < h && !touched(rects, x / 4, y) ==> #[trigger] earlier[y
                * pitch + x] == later[y * pitch + x],
    ensures
        forall|i: int|
            0 <= i < buffer.len() ==> #[trigger] refreshed(buffer, w, later, pitch, rects, i)
                == later[i / (w * 4) * pitch + i % (w * 4)],
{
    let tight = w * 4;
    assert forall|i: int| 0 <= i < buffer.len() implies #[trigger] refreshed(
        buffer,
        w,
        later,
        pitch,
        rects,
        i,
    ) == later[i / tight * pitch + i % tight] by {
        lemma_row_in_grid(tight, h, i);
        if !touched(rects, i % tight / 4, i / tight) {
            assert(buffer[i] == earlier[i / tight * pitch + i % tight]);
            assert(earlier[i / tight * pitch + i % tight] == later[i / tight * pitch + i % tight]);
        }
    }
}

// ---- What is read and copied -----------------------------------------------

/// A reported rectangle on its own gives one region with its edges, cut at those of the
/// frame, or none where no pixel of the frame lies in it.
pub proof fn law_one_rectangle_gives_one_region(r: RawRect, w: u32, h: u32)
    ensures
        ({
            let out = cut_all(seq![r], w, h);
            if exists|x: int, y: int| #![trigger pixel_of(r, w, h, x, y)] pixel_of(r, w, h, x, y) {
                &&& out.len() == 1
                &&& out[0].0 == if r.left < 0 {
                    0
                } else {
                    r.left as int
                }
                &&& out[0].1 == if r.top < 0 {
                    0
                } else {
                    r.top as int
                }
                &&& out[0].0 + out[0].2 == if r.right < w {
                    r.right as int
                } else {
                    w as int
                }
                &&& out[0].1 + out[0].3 == if r.bottom < h {
                    r.bottom as int
                } else {
                    h as int
                }
            } else {
                out.len() == 0
            }
        }),
{
    let one = seq![r];
    assert(one.drop_last() =~= Seq::empty());
    assert(one.last() == r);
    reveal_with_fuel(cut_all, 2);
    match cut_to_frame(r, w, h) {
        Some(d) => {
            assert(pixel_of(r, w, h, d.0 as int, d.1 as int));
        },
        None => {
            assert forall|x: int, y: int| !#[trigger] pixel_of(r, w, h, x, y) by {
                if pixel_of(r, w, h, x, y) {
                    law_cut_keeps_the_pixels(r, w, h, x, y);
                }
            }
        },
    }
}

/// Whether a pixel of a frame of `w` by `h` pixels lies in a reported rectangle.
pub open spec fn pixel_of(r: RawRect, w: u32, h: u32, x: int, y: int) -> bool {
    0 <= x < w && 0 <= y < h && r.left <= x < r.right && r.top <= y < r.bottom
}

/// Each rectangle is read for itself, whatever was read before it: the regions of two rows
/// of rectangles are those of the one and then those of the other.
pub proof fn law_rectangles_are_read_one_by_one(a: Seq<RawRect>, b: Seq<RawRect>, w: u32, h: u32)
    ensures
        cut_all(a + b, w, h) == cut_all(a, w, h) + cut_all(b, w, h),
    decreases b.len(),
{
    if b.len() == 0 {
        assert(a + b =~= a);
        assert(cut_all(a, w, h) + cut_all(b, w, h) =~= cut_all(a, w, h));
    } else {
        law_rectangles_are_read_one_by_one(a, b.drop_last(), w, h);
        assert((a + b).drop_last() =~= a + b.drop_last());
        assert((a + b).last() == b.last());
        assert(cut_all(a + b, w, h) =~= cut_all(a, w, h) + cut_all(b, w, h));
    }
}

/// The regions that are read hold a pixel of the frame where one of the rectangles does.
proof fn lemma_same_pixels(rects: Seq<RawRect>, w: u32, h: u32, x: int, y: int)
    requires
        0 <= x < w,
        0 <= y < h,
    ensures
        touched(cut_all(rects, w, h), x, y) <==> exists|j: int|
            0 <= j < rects.len() && (#[trigger] rects[j]).left <= x < rects[j].right && rects[j].top
                <= y < rects[j].bottom,
    decreases rects.len(),
{
    let out = cut_all(rects, w, h);
    if rects.len() > 0 {
        let front = rects.drop_last();
        let rest = cut_all(front, w, h);
        lemma_same_pixels(front, w, h, x, y);
        law_cut_keeps_the_pixels(rects.last(), w, h, x, y);
        if touched(rest, x, y) {
            let k = choose|k: int| 0 <= k < rest.len() && #[trigger] inside(rest[k], x, y);
            assert(out[k] == rest[k]);
            assert(inside(out[k], x, y));
            let j = choose|j: int|
                0 <= j < front.len() && (#[trigger] front[j]).left <= x < front[j].right
                    && front[j].top <= y < front[j].bottom;
            assert(rects[j] == front[j]);
        }
        let last = rects[rects.len() - 1];
        if last.left <= x < last.right && last.top <= y < last.bottom {
            assert(inside(out[rest.len() as int], x, y));
        }
        if touched(out, x, y) && !touched(rest, x, y) {
            let k = choose|k: int| 0 <= k < out.len() && #[trigger] inside(out[k], x, y);
            if k < rest.len() {
                assert(inside(rest[k], x, y));
            }
            assert(k == rest.len());
        }
        if exists|j: int|
            0 <= j < rects.len() && (#[trigger] rects[j]).left <= x < rects[j].right && rects[j].top
                <= y < rects[j].bottom {
            let j = choose|j: int|
                0 <= j < rects.len() && (#[trigger] rects[j]).left <= x < rects[j].right
                    && rects[j].top <= y < rects[j].bottom;
            if j < front.len() {
                assert(front[j] == rects[j]);
            }
        }
    }
}

/// Nothing that the system reports as dirty is lost, and nothing is added: a pixel of the
/// frame lies in one of the regions that are read where it lies in one of the reported
/// rectangles that count. Those are as many as `needed` bytes hold at 16 bytes each, and 64
/// at most.
pub proof fn law_no_reported_pixel_is_lost(
    reported: &[RawRect],
    needed: u32,
    w: u32,
    h: u32,
    x: int,
    y: int,
)
    requires
        0 <= x < w,
        0 <= y < h,
        needed / 16 <= reported@.len() || 64 <= reported@.len(),
    ensures
        ({
            let regions = frame_regions((w, h), w, h, Some(reported), needed);
            (exists|k: int|
                0 <= k < regions.len() && (#[trigger] regions[k]).0 <= x < regions[k].0
                    + regions[k].2 && regions[k].1 <= y < regions[k].1 + regions[k].3)
                <==> (exists|j: int|
                0 <= j < reported@.len() && j < 64 && j < needed / 16 && (
                #[trigger] reported@[j]).left <= x < reported@[j].right && reported@[j].top <= y
                    < reported@[j].bottom)
        }),
        cut_all(reported@.take(rects_in(needed)), w, h) == frame_regions(
            (w, h),
            w,
            h,
            Some(reported),
            needed,
        ),
{
    let n = if needed / 16 < 64 {
        needed as int / 16
    } else {
        64
    };
    let counted = reported@.take(n);
    let regions = frame_regions((w, h), w, h, Some(reported), needed);
    assert(regions == cut_all(counted, w, h));
    lemma_same_pixels(counted, w, h, x, y);
    if exists|k: int|
        0 <= k < regions.len() && (#[trigger] regions[k]).0 <= x < regions[k].0 + regions[k].2
            && regions[k].1 <= y < regions[k].1 + regions[k].3 {
        let k = choose|k: int|
            0 <= k < regions.len() && (#[trigger] regions[k]).0 <= x < regions[k].0 + regions[k].2
                && regions[k].1 <= y < regions[k].1 + regions[k].3;
        assert(inside(regions[k], x, y));
        let j = choose|j: int|
            0 <= j < counted.len() && (#[trigger] counted[j]).left <= x < counted[j].right
                && counted[j].top <= y < counted[j].bottom;
        assert(reported@[j] == counted[j]);
    }
    if exists|j: int|
        0 <= j < reported@.len() && j < 64 && j < needed / 16 && (#[trigger] reported@[j]).left <= x
            < reported@[j].right && reported@[j].top <= y < reported@[j].bottom {
        let j = choose|j: int|
            0 <= j < reported@.len() && j < 64 && j < needed / 16 && (
            #[trigger] reported@[j]).left <= x < reported@[j].right && reported@[j].top <= y
                < reported@[j].bottom;
        assert(counted[j] == reported@[j]);
        let k = choose|k: int| 0 <= k < regions.len() && #[trigger] inside(regions[k], x, y);
        assert(regions[k].0 <= x < regions[k].0 + regions[k].2);
    }
}

/// A frame is copied whole where its size is new, and where the system reports nothing: the
/// one region is as large as the frame.
pub proof fn law_without_a_report_the_frame_is_copied_whole(
    size: (u32, u32),
    w: u32,
    h: u32,
    reported: Option<&[RawRect]>,
    needed: u32,
)
    requires
        reported is None || size.0 != w || size.1 != h,
    ensures
        frame_regions(size, w, h, reported, needed).len() == 1,
        ({
            let (left, top, width, height) = frame_regions(size, w, h, reported, needed)[0];
            left == 0 && top == 0 && width == w && height == h
        }),
{
}

/// What a frame brings to the buffer, byte by byte: a pixel in one of the regions takes the
/// four bytes that stand in its place in the image, whose rows start `pitch` bytes apart;
/// any other pixel keeps its own.
pub proof fn law_pixels_are_copied_to_their_place(
    buffer: Seq<u8>,
    w: int,
    src: Seq<u8>,
    pitch: int,
    rects: Seq<DirtyRect>,
    x: int,
    y: int,
    c: int,
)
    requires
        0 <= x < w,
        0 <= y,
        0 <= c < 4,
    ensures
        refreshed(buffer, w, src, pitch, rects, (y * w + x) * 4 + c) == if exists|k: int|
            0 <= k < rects.len() && (#[trigger] rects[k]).0 <= x < rects[k].0 + rects[k].2
                && rects[k].1 <= y < rects[k].1 + rects[k].3 {
            src[y * pitch + x * 4 + c]
        } else {
            buffer[(y * w + x) * 4 + c]
        },
{
    let tight = w * 4;
    let i = (y * w + x) * 4 + c;
    lemma_mul_inequality(0, y, tight);
    assert(i == y * tight + (x * 4 + c)) by (nonlinear_arith)
        requires
            i == (y * w + x) * 4 + c,
            tight == w * 4,
    ;
    lemma_place(tight, x * 4 + c, y, i);
    assert(i % tight / 4 == x);
    if exists|k: int|
        0 <= k < rects.len() && (#[trigger] rects[k]).0 <= x < rects[k].0 + rects[k].2 && rects[k].1
            <= y < rects[k].1 + rects[k].3 {
        let k = choose|k: int|
            0 <= k < rects.len() && (#[trigger] rects[k]).0 <= x < rects[k].0 + rects[k].2
                && rects[k].1 <= y < rects[k].1 + rects[k].3;
        assert(inside(rects[k], x, y));
    }
    if touched(rects, x, y) {
        let k = choose|k: int| 0 <= k < rects.len() && #[trigger] inside(rects[k], x, y);
        assert(rects[k].0 <= x < rects[k].0 + rects[k].2);
    }
}

/// A dirty frame of the size that the buffer has, from what the system reports to what the
/// buffer holds: a pixel that lies in one of the rectangles that count takes its bytes from
/// the image, and any other pixel stays as it was.
pub proof fn law_reported_pixels_reach_the_buffer(
    buffer: Seq<u8>,
    w: u32,
    h: u32,
    reported: &[RawRect],
    needed: u32,
    src: Seq<u8>,
    pitch: int,
    x: int,
    y: int,
    c: int,
)
    requires
        0 <= x < w,
        0 <= y < h,
        0 <= c < 4,
        needed / 16 <= reported@.len() || 64 <= reported@.len(),
    ensures
        refreshed(
            buffer,
            w as int,
            src,
            pitch,
            frame_regions((w, h), w, h, Some(reported), needed),
            (y * w + x) * 4 + c,
        ) == if exists|j: int|
            0 <= j < reported@.len() && j < 64 && j < needed / 16 && (
            #[trigger] reported@[j]).left <= x < reported@[j].right && reported@[j].top <= y
                < reported@[j].bottom {
            src[y * pitch + x * 4 + c]
        } else {
            buffer[(y * w + x) * 4 + c]
        },
{
    law_no_reported_pixel_is_lost(reported, needed, w, h, x, y);
    law_pixels_are_copied_to_their_place(
        buffer,
        w as int,
        src,
        pitch,
        frame_regions((w, h), w, h, Some(reported), needed),
        x,
        y,
        c,
    );
}

/// A frame takes four bytes a pixel, row after row without gaps: the last byte of its last
/// pixel is the last byte of the frame.
pub proof fn law_frames_are_packed(w: int, h: int)
    requires
        0 < w,
        0 < h,
    ensures
        packed_len(w, h) == ((h - 1) * w + (w - 1)) * 4 + 3 + 1,
        packed_len(w, 0) == 0,
        packed_len(0, h) == 0,
{
    assert(w * 4 * h == ((h - 1) * w + (w - 1)) * 4 + 3 + 1) by (nonlinear_arith);
    assert(w * 4 * 0 == 0) by (nonlinear_arith);
    assert(0 * 4 * h == 0) by (nonlinear_arith);
}

/// A buffer that is made longer or shorter keeps what fits, and what is new is zero.
pub proof fn law_resizing_keeps_what_fits(s: Seq<u8>, len: nat, i: int)
    requires
        0 <= i < len,
    ensures
        resized(s, len as int).len() == len,
        i < s.len() ==> resized(s, len as int)[i] == s[i],
        s.len() <= i ==> resized(s, len as int)[i] == 0,
{
}

/// A row that the image holds completely is copied pixel by pixel, each to its own place; of a
/// row that it does not hold, every pixel stays.
pub proof fn law_whole_rows_are_copied(
    buffer: Seq<u8>,
    w: int,
    src: Seq<u8>,
    pitch: int,
    x: int,
    y: int,
    c: int,
)
    requires
        0 <= x < w,
        0 <= y,
        0 <= c < 4,
    ensures
        y * pitch + w * 4 <= src.len() ==> row_copied(buffer, w, src, pitch, (y * w + x) * 4 + c)
            == src[y * pitch + x * 4 + c],
        y * pitch + w * 4 > src.len() ==> row_copied(buffer, w, src, pitch, (y * w + x) * 4 + c)
            == buffer[(y * w + x) * 4 + c],
{
    let tight = w * 4;
    let i = (y * w + x) * 4 + c;
    lemma_mul_inequality(0, y, tight);
    assert(i == y * tight + (x * 4 + c)) by (nonlinear_arith)
        requires
            i == (y * w + x) * 4 + c,
            tight == w * 4,
    ;
    lemma_place(tight, x * 4 + c, y, i);
}

} // verus!
