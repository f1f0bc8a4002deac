//! Frames on their way to a viewer: how sharp and how often they are sent, reducing
//! their size, and turning them into JPEG images.
use crate::text::same_str;
use crate::wire::{be_bytes, be_value, get_be, message, put_be, write_msg, MSG_FRAME};
use base64::Engine;
use vstd::arithmetic::div_mod::lemma_fundamental_div_mod_converse;
use vstd::arithmetic::mul::lemma_mul_inequality;
use vstd::prelude::*;

verus! {

// ---- Quality ---------------------------------------------------------------

/// How frames are encoded.
#[derive(Clone, Copy, PartialEq, Eq, Debug, Structural)]
pub struct Quality {
    /// Quality of the JPEG images, from 1 to 100.
    pub jpeg: u8,
    /// Divisor of the resolution; 1 is the native one.
    pub scale: u32,
    /// Milliseconds between two frames, at least.
    pub min_interval_ms: u64,
}

/// The quality that a profile stands for: about 30 frames a second at the native
/// resolution. Profiles that are not known count as ultralight: half the resolution, about
/// 24 frames a second.
pub open spec fn quality_of(profile: Seq<char>) -> Quality {
    if profile == "sharp"@ {
        Quality { jpeg: 85, scale: 1, min_interval_ms: 33 }
    } else if profile == "balanced"@ {
        Quality { jpeg: 70, scale: 1, min_interval_ms: 33 }
    } else {
        Quality { jpeg: 65, scale: 2, min_interval_ms: 41 }
    }
}

/// The quality for a profile.
pub fn quality_for(profile: &str) -> (out: Quality)
    ensures
        out == quality_of(profile@),
{
    if same_str(profile, "sharp") {
        Quality { jpeg: 85, scale: 1, min_interval_ms: 33 }
    } else if same_str(profile, "balanced") {
        Quality { jpeg: 70, scale: 1, min_interval_ms: 33 }
    } else {
        Quality { jpeg: 65, scale: 2, min_interval_ms: 41 }
    }
}

// ---- Reducing the resolution -----------------------------------------------

/// Length of a side that is divided by `scale`. No side vanishes.
pub open spec fn scaled_side(side: int, scale: int) -> int {
    if side / scale < 1 {
        1
    } else {
        side / scale
    }
}

/// Position in the source of byte `k` of a picture reduced to the width `sw`.
pub open spec fn sample_at(w: int, sw: int, scale: int, k: int) -> int {
    ((k / 4 / sw) * scale * w + (k / 4 % sw) * scale) * 4 + k % 4
}

/// A picture of width `w` and height `h` reduced by taking every `scale`-th pixel of
/// every `scale`-th row.
pub open spec fn downscaled(src: Seq<u8>, w: int, h: int, scale: int) -> Seq<u8> {
    let sw = scaled_side(w, scale);
    let sh = scaled_side(h, scale);
    Seq::new((sw * sh * 4) as nat, |k: int| src[sample_at(w, sw, scale, k)])
}

/// End of the last pixel that is read to reduce a picture.
pub open spec fn samples_end(w: int, h: int, scale: int) -> int {
    ((scaled_side(h, scale) - 1) * scale * w + (scaled_side(w, scale) - 1) * scale) * 4 + 4
}

/// Pixel `x`, `y` of the reduced picture is pixel `x * scale`, `y * scale` of the
/// source.
pub proof fn law_reduced_pixels_are_source_pixels(
    src: Seq<u8>,
    w: int,
    h: int,
    scale: int,
    x: int,
    y: int,
    c: int,
)
    requires
        0 < scale,
        0 <= w,
        0 <= h,
        0 <= x < scaled_side(w, scale),
        0 <= y < scaled_side(h, scale),
        0 <= c < 4,
    ensures
        0 <= (y * scaled_side(w, scale) + x) * 4 + c < downscaled(src, w, h, scale).len(),
        downscaled(src, w, h, scale)[(y * scaled_side(w, scale) + x) * 4 + c] == src[(y * scale * w
            + x * scale) * 4 + c],
{
    let sw = scaled_side(w, scale);
    let sh = scaled_side(h, scale);
    let p = y * sw + x;
    assert(0 <= p < sw * sh) by (nonlinear_arith)
        requires
            p == y * sw + x,
            0 <= x < sw,
            0 <= y < sh,
    ;
    assert(0 <= sw * sh * 4);
    let k = p * 4 + c;
    lemma_fundamental_div_mod_converse(k, 4, p, c);
    lemma_fundamental_div_mod_converse(p, sw, y, x);
}

/// Every pixel that is read lies before the end of the last one.
proof fn lemma_samples_end(w: int, h: int, scale: int, x: int, y: int)
    requires
        0 < scale,
        0 <= w,
        0 <= h,
        0 <= x < scaled_side(w, scale),
        0 <= y < scaled_side(h, scale),
    ensures
        0 <= y * scale,
        0 <= y * scale * w,
        0 <= x * scale,
        (y * scale * w + x * scale) * 4 + 4 <= samples_end(w, h, scale),
{
    let sw = scaled_side(w, scale);
    let sh = scaled_side(h, scale);
    lemma_mul_inequality(0, y, scale);
    lemma_mul_inequality(y, sh - 1, scale);
    lemma_mul_inequality(0, y * scale, w);
    lemma_mul_inequality(y * scale, (sh - 1) * scale, w);
    lemma_mul_inequality(0, x, scale);
    lemma_mul_inequality(x, sw - 1, scale);
}

/// A whole picture holds every pixel that reducing it reads.
pub proof fn law_whole_picture_can_be_reduced(w: int, h: int, scale: int)
    requires
        0 < w,
        0 < h,
        0 < scale,
    ensures
        samples_end(w, h, scale) <= w * h * 4,
{
    let sw = scaled_side(w, scale);
    let sh = scaled_side(h, scale);
    assert((sw - 1) * scale <= w - 1) by (nonlinear_arith)
        requires
            0 < w,
            0 < scale,
            sw == if w / scale < 1 {
                1
            } else {
                w / scale
            },
    ;
    assert((sh - 1) * scale <= h - 1) by (nonlinear_arith)
        requires
            0 < h,
            0 < scale,
            sh == if h / scale < 1 {
                1
            } else {
                h / scale
            },
    ;
    lemma_mul_inequality((sh - 1) * scale, h - 1, w);
    assert((h - 1) * w + (w - 1) == w * h - 1) by (nonlinear_arith);
}

/// Taking every pixel of every row leaves the picture as it is.
pub proof fn law_scale_one_changes_nothing(src: Seq<u8>, w: int, h: int)
    requires
        0 < w,
        0 < h,
        w * h * 4 <= src.len(),
    ensures
        scaled_side(w, 1) == w,
        scaled_side(h, 1) == h,
        downscaled(src, w, h, 1) == src.take(w * h * 4),
{
    assert(0 < w * h) by (nonlinear_arith)
        requires
            0 < w,
            0 < h,
    ;
    let out = downscaled(src, w, h, 1);
    assert forall|k: int| 0 <= k < out.len() implies out[k] == src[k] by {
        let p = k / 4;
        assert((p / w) * 1 * w + (p % w) * 1 == p) by (nonlinear_arith)
            requires
                0 < w,
        ;
        assert(sample_at(w, w, 1, k) == k);
    }
    assert(out =~= src.take(w * h * 4));
}

fn side(n: usize, scale: usize) -> (out: usize)
    requires
        scale > 0,
    ensures
        out == scaled_side(n as int, scale as int),
        out <= n || out == 1,
        (out - 1) * scale <= n,
{
    let d: usize = n / scale;
    assert(n as int / scale as int <= n && (n as int / scale as int) * scale <= n)
        by (nonlinear_arith)
        requires
            scale > 0,
    ;
    assert((d - 1) * scale == d * scale - scale) by (nonlinear_arith);
    if d < 1 {
        1
    } else {
        d
    }
}

/// Reduces a picture into `out` by taking every `scale`-th pixel of every `scale`-th
/// row, and gives the new width and height.
pub fn downscale_into(src: &[u8], w: u32, h: u32, scale: u32, out: &mut Vec<u8>) -> (size: (
    u32,
    u32,
))
    requires
        scale > 0,
        scaled_side(w as int, scale as int) * scaled_side(h as int, scale as int) * 4 <= usize::MAX,
        samples_end(w as int, h as int, scale as int) <= src@.len(),
    ensures
        size.0 == scaled_side(w as int, scale as int),
        size.1 == scaled_side(h as int, scale as int),
        final(out)@ == downscaled(src@, w as int, h as int, scale as int),
{
    let wide: usize = w as usize;
    let step: usize = scale as usize;
    let sw: usize = side(w as usize, step);
    let sh: usize = side(h as usize, step);
    let n: usize = src.len();
    let ghost goal = downscaled(src@, w as int, h as int, scale as int);
    out.clear();
    assert(goal.len() == sw * sh * 4) by {
        assert(0 <= sw * sh) by (nonlinear_arith);
    }
    assert(0 * sw * 4 == 0) by (nonlinear_arith);
    assert(out@ =~= goal.take(0));
    for y in 0..sh
        invariant
            (sh - 1) * step <= h,
            step == scale > 0,
            wide == w,
            n == src@.len(),
            sw == scaled_side(w as int, scale as int),
            sh == scaled_side(h as int, scale as int),
            samples_end(w as int, h as int, scale as int) <= n,
            goal == downscaled(src@, w as int, h as int, scale as int),
            goal.len() == sw * sh * 4,
            out@ == goal.take(y * sw * 4),
    {
        proof {
            lemma_samples_end(w as int, h as int, scale as int, 0, y as int);
            assert(y * sw * 4 <= sw * sh * 4) by (nonlinear_arith)
                requires
                    y <= sh,
            ;
            lemma_mul_inequality(y as int, sh - 1, step as int);
        }
        let sy: usize = y * step;
        let row: usize = sy * wide;
        for x in 0..sw
            invariant
                step == scale > 0,
                wide == w,
                n == src@.len(),
                sw == scaled_side(w as int, scale as int),
                sh == scaled_side(h as int, scale as int),
                samples_end(w as int, h as int, scale as int) <= n,
                goal == downscaled(src@, w as int, h as int, scale as int),
                y < sh,
                row == y * scale * w,
                0 <= (y * sw + x) * 4 <= goal.len(),
                out@ == goal.take((y * sw + x) * 4),
        {
            proof {
                lemma_samples_end(w as int, h as int, scale as int, x as int, y as int);
                law_reduced_pixels_are_source_pixels(src@, w as int, h as int, scale as int, x as int, y as int, 0);
                law_reduced_pixels_are_source_pixels(src@, w as int, h as int, scale as int, x as int, y as int, 1);
                law_reduced_pixels_are_source_pixels(src@, w as int, h as int, scale as int, x as int, y as int, 2);
                law_reduced_pixels_are_source_pixels(src@, w as int, h as int, scale as int, x as int, y as int, 3);
            }
            let sx: usize = x * step;
            let si: usize = (row + sx) * 4;
            out.push(src[si]);
            out.push(src[si + 1]);
            out.push(src[si + 2]);
            out.push(src[si + 3]);
            let ghost at = (y * sw + x) * 4;
            assert((y * sw + (x + 1)) * 4 == at + 4);
            assert(out@ =~= goal.take(at + 4));
        }
        assert((y + 1) * sw * 4 == (y * sw + sw) * 4) by (nonlinear_arith);
    }
    assert(sh * sw * 4 == sw * sh * 4) by (nonlinear_arith);
    assert(goal.take(goal.len() as int) =~= goal);
    (sw as u32, sh as u32)
}

// ---- JPEG ------------------------------------------------------------------

/// The JPEG image that `jpeg_encoder` makes of packed BGRA pixels at a quality.
pub uninterp spec fn jpeg_image(bgra: Seq<u8>, width: u16, height: u16, quality: u8) -> Seq<u8>;

/// `jpeg_encoder::Encoder::encode` into a `Vec`, with `ColorType::Bgra`: it refuses a
/// picture with a side of length zero and pixels that are fewer than width times
/// height; for any other it writes an image that depends on its arguments alone. What
/// the bytes of that image are is left to its name.
#[verifier::external_body]
fn encode_jpeg(bgra: &[u8], width: u16, height: u16, quality: u8) -> (out: Option<Vec<u8>>)
    requires
        1 <= quality <= 100,
        width * height * 4 <= usize::MAX,
    ensures
        (out is Some) == (width > 0 && height > 0 && bgra@.len() >= width * height * 4),
        out is Some ==> out->0@ == jpeg_image(bgra@, width, height, quality),
{
    let mut image: Vec<u8> = Vec::new();
    let encoder = jpeg_encoder::Encoder::new(&mut image, quality);
    match encoder.encode(bgra, width, height, jpeg_encoder::ColorType::Bgra) {
        Ok(()) => Some(image),
        Err(_) => None,
    }
}

// ---- Base64 ----------------------------------------------------------------

/// Digit for a value below 64.
pub open spec fn base64_digit(v: int) -> char {
    if v < 26 {
        ('A' as int + v) as char
    } else if v < 52 {
        ('a' as int + (v - 26)) as char
    } else if v < 62 {
        ('0' as int + (v - 52)) as char
    } else if v == 62 {
        '+'
    } else {
        '/'
    }
}

/// Byte `i`, or zero past the end.
pub open spec fn byte_or_zero(bytes: Seq<u8>, i: int) -> int {
    if i < bytes.len() {
        bytes[i] as int
    } else {
        0
    }
}

/// Group `g` of three bytes as one number, the first byte highest.
pub open spec fn base64_group(bytes: Seq<u8>, g: int) -> int {
    byte_or_zero(bytes, 3 * g) * 65536 + byte_or_zero(bytes, 3 * g + 1) * 256 + byte_or_zero(
        bytes,
        3 * g + 2,
    )
}

/// Six bits of a group of 24, the highest being those at 0.
pub open spec fn six_bits(group: int, j: int) -> int {
    if j == 0 {
        group / 262144
    } else if j == 1 {
        group / 4096 % 64
    } else if j == 2 {
        group / 64 % 64
    } else {
        group % 64
    }
}

/// Character `k` of a base64 text: six bits of its group, or padding where none of them
/// comes from a byte.
pub open spec fn base64_char(bytes: Seq<u8>, k: int) -> char {
    if 6 * k >= 8 * bytes.len() {
        '='
    } else {
        base64_digit(six_bits(base64_group(bytes, k / 4), k % 4))
    }
}

/// Base64 of some bytes, with the standard alphabet and padding.
pub open spec fn base64_text(bytes: Seq<u8>) -> Seq<char> {
    Seq::new((bytes.len() + 2) / 3 * 4, |k: int| base64_char(bytes, k))
}

/// `base64::engine::general_purpose::STANDARD.encode` writes groups of three bytes as
/// four characters of the standard alphabet, and pads the last group. It fails only
/// where the text would not fit into memory, which no slice is long enough for.
#[verifier::external_body]
fn to_base64(bytes: &[u8]) -> (out: String)
    ensures
        out@ == base64_text(bytes@),
{
    base64::engine::general_purpose::STANDARD.encode(bytes)
}

// ---- Encoding a frame ------------------------------------------------------

/// Whether a frame is to be encoded: the last one lies far enough back, and all of its
/// pixels are there.
pub open spec fn due(q: Quality, elapsed_ms: u64, w: u32, h: u32, len: nat) -> bool {
    elapsed_ms >= q.min_interval_ms && len >= w * h * 4
}

/// Width and height of an encoded frame.
pub open spec fn encoded_size(q: Quality, w: u32, h: u32) -> (int, int) {
    if q.scale <= 1 {
        (w as int, h as int)
    } else {
        (scaled_side(w as int, q.scale as int), scaled_side(h as int, q.scale as int))
    }
}

/// The pixels that are encoded.
pub open spec fn encoded_pixels(q: Quality, w: u32, h: u32, bgra: Seq<u8>) -> Seq<u8> {
    if q.scale <= 1 {
        bgra
    } else {
        downscaled(bgra, w as int, h as int, q.scale as int)
    }
}

/// The image of a frame. The encoder takes the lower 16 bits of the two sides.
pub open spec fn encoded_image(q: Quality, w: u32, h: u32, bgra: Seq<u8>) -> Seq<u8> {
    let (sw, sh) = encoded_size(q, w, h);
    jpeg_image(
        encoded_pixels(q, w, h, bgra),
        (sw % 0x1_0000) as u16,
        (sh % 0x1_0000) as u16,
        q.jpeg,
    )
}

/// Whether the encoder has something to encode: neither side vanishes in its lower 16
/// bits.
pub open spec fn has_image(q: Quality, w: u32, h: u32) -> bool {
    let (sw, sh) = encoded_size(q, w, h);
    sw % 0x1_0000 > 0 && sh % 0x1_0000 > 0
}

/// Whether a frame can be taken at a quality: the quality is one of the encoder's, the
/// length of a frame that is due fits a machine word, reduced or not, and all that
/// reducing it reads is there.
pub open spec fn takes_frame(q: Quality, elapsed_ms: u64, w: u32, h: u32, len: nat) -> bool {
    &&& 1 <= q.jpeg <= 100
    &&& elapsed_ms >= q.min_interval_ms ==> w * h * 4 <= usize::MAX
    &&& due(q, elapsed_ms, w, h, len) && q.scale > 1 ==> {
        &&& samples_end(w as int, h as int, q.scale as int) <= len
        &&& scaled_side(w as int, q.scale as int) * scaled_side(h as int, q.scale as int) * 4
            <= usize::MAX
    }
}

/// Whether a frame can be taken at a quality.
pub fn can_take(q: &Quality, elapsed_ms: u64, width: u32, height: u32, len: usize) -> (out: bool)
    ensures
        out == takes_frame(*q, elapsed_ms, width, height, len as nat),
{
    if q.jpeg < 1 || q.jpeg > 100 {
        return false;
    }
    if elapsed_ms < q.min_interval_ms {
        return true;
    }
    let w: u128 = width as u128;
    let h: u128 = height as u128;
    let most: u128 = usize::MAX as u128;
    assert(w * h <= 0xFFFF_FFFF * 0xFFFF_FFFF) by (nonlinear_arith)
        requires
            w <= 0xFFFF_FFFF,
            h <= 0xFFFF_FFFF,
    ;
    if w * h * 4 > most {
        return false;
    }
    if q.scale <= 1 || (len as u128) < w * h * 4 {
        return true;
    }
    let step: usize = q.scale as usize;
    let sw: usize = side(width as usize, step);
    let sh: usize = side(height as usize, step);
    let x: u128 = (sw - 1) as u128;
    let y: u128 = (sh - 1) as u128;
    let scale: u128 = q.scale as u128;
    proof {
        lemma_mul_inequality(0, y as int, scale as int);
        lemma_mul_inequality(0, x as int, scale as int);
        lemma_mul_inequality(0, y * scale, w as int);
        lemma_mul_inequality(y * scale, h as int, w as int);
        assert(h * w == w * h) by (nonlinear_arith);
        assert(0 <= sw * sh <= 0xFFFF_FFFF * 0xFFFF_FFFF) by (nonlinear_arith)
            requires
                sw <= 0xFFFF_FFFF,
                sh <= 0xFFFF_FFFF,
        ;
    }
    let end: u128 = (y * scale * w + x * scale) * 4 + 4;
    end <= len as u128 && sw as u128 * sh as u128 * 4 <= most
}

/// A frame that has pixels can be taken at the quality of any profile.
pub proof fn law_profiles_take_frames(
    profile: Seq<char>,
    elapsed_ms: u64,
    w: u32,
    h: u32,
    len: nat,
)
    requires
        w > 0,
        h > 0,
        w * h * 4 <= usize::MAX,
    ensures
        takes_frame(quality_of(profile), elapsed_ms, w, h, len),
{
    law_whole_picture_can_be_reduced(w as int, h as int, 2);
    let sw = scaled_side(w as int, 2);
    let sh = scaled_side(h as int, 2);
    assert(sw * sh <= w * h) by (nonlinear_arith)
        requires
            0 < sw <= w,
            0 < sh <= h,
    ;
}

/// A frame turned into a JPEG image.
pub struct EncodedImage {
    pub width: u32,
    pub height: u32,
    pub jpeg: Vec<u8>,
}

/// Encodes a frame that is due, reducing it first where the quality asks for that.
/// `scaled` holds the reduced picture.
fn encode_frame(
    q: &Quality,
    scaled: &mut Vec<u8>,
    elapsed_ms: u64,
    width: u32,
    height: u32,
    bgra: &[u8],
) -> (out: Option<EncodedImage>)
    requires
        takes_frame(*q, elapsed_ms, width, height, bgra@.len()),
    ensures
        out is Some <==> due(*q, elapsed_ms, width, height, bgra@.len()) && has_image(
            *q,
            width,
            height,
        ),
        out is Some ==> {
            &&& (out->0.width as int, out->0.height as int) == encoded_size(*q, width, height)
            &&& out->0.jpeg@ == encoded_image(*q, width, height, bgra@)
        },
{
    if elapsed_ms < q.min_interval_ms {
        return None;
    }
    assert(width * height <= width * height * 4) by (nonlinear_arith);
    let len: usize = bgra.len();
    if len < width as usize * height as usize * 4 {
        return None;
    }
    if q.scale <= 1 {
        proof {
            lemma_low_sides(width as int, height as int);
        }
        let image = encode_jpeg(
            bgra,
            (width % 0x1_0000) as u16,
            (height % 0x1_0000) as u16,
            q.jpeg,
        )?;
        Some(EncodedImage { width, height, jpeg: image })
    } else {
        let (sw, sh) = downscale_into(bgra, width, height, q.scale, scaled);
        proof {
            lemma_low_sides(sw as int, sh as int);
        }
        let image = encode_jpeg(
            scaled.as_slice(),
            (sw % 0x1_0000) as u16,
            (sh % 0x1_0000) as u16,
            q.jpeg,
        )?;
        Some(EncodedImage { width: sw, height: sh, jpeg: image })
    }
}

/// The lower 16 bits of two sides span no more pixels than the sides.
proof fn lemma_low_sides(w: int, h: int)
    requires
        0 <= w,
        0 <= h,
    ensures
        0 <= (w % 0x1_0000) * (h % 0x1_0000) * 4 <= w * h * 4,
        0 <= w * h,
{
    let a = w % 0x1_0000;
    let b = h % 0x1_0000;
    assert(0 <= a * b <= w * h) by (nonlinear_arith)
        requires
            0 <= a <= w,
            0 <= b <= h,
    ;
}

// ---- Frames in messages ----------------------------------------------------

/// Payload of a frame's message: width, height and the JPEG image.
pub open spec fn frame_payload_bytes(width: u32, height: u32, jpeg: Seq<u8>) -> Seq<u8> {
    be_bytes(width) + be_bytes(height) + jpeg
}

/// Payload of a frame's message.
pub fn frame_payload(image: &EncodedImage) -> (out: Vec<u8>)
    ensures
        out@ == frame_payload_bytes(image.width, image.height, image.jpeg@),
{
    let mut out: Vec<u8> = Vec::new();
    put_be(&mut out, image.width);
    put_be(&mut out, image.height);
    out.extend_from_slice(image.jpeg.as_slice());
    assert(out@ =~= frame_payload_bytes(image.width, image.height, image.jpeg@));
    out
}

/// Width, height and image in the payload of a frame's message. A payload that is too
/// short for the two sides holds no frame.
pub open spec fn frame_in(payload: Seq<u8>) -> Option<(int, int, Seq<u8>)> {
    if payload.len() < 8 {
        None
    } else {
        Some((be_value(payload), be_value(payload.skip(4)), payload.skip(8)))
    }
}

/// A frame that has been written reads as what it was written for.
pub proof fn law_frame_reads_back(width: u32, height: u32, jpeg: Seq<u8>)
    ensures
        frame_in(frame_payload_bytes(width, height, jpeg)) == Some(
            (width as int, height as int, jpeg),
        ),
{
    let p = frame_payload_bytes(width, height, jpeg);
    crate::wire::law_be_bytes_read_back(width);
    crate::wire::law_be_bytes_read_back(height);
    assert(p.take(4) =~= be_bytes(width));
    assert(be_value(p) == be_value(p.take(4)));
    assert(p.skip(4).take(4) =~= be_bytes(height));
    assert(be_value(p.skip(4)) == be_value(p.skip(4).take(4)));
    assert(p.skip(8) =~= jpeg);
}

/// What a viewer takes off the connection is the frame that the host has put there. The
/// frame has to fit a message.
pub proof fn law_viewer_gets_the_frame(width: u32, height: u32, jpeg: Seq<u8>, rest: Seq<u8>)
    requires
        jpeg.len() + 8 < 0x1_0000_0000,
    ensures
        ({
            let sent = message(MSG_FRAME, frame_payload_bytes(width, height, jpeg)) + rest;
            match crate::wire::first_message(sent) {
                Some((kind, payload, left)) => {
                    &&& kind == MSG_FRAME
                    &&& left == rest
                    &&& frame_in(payload) == Some((width as int, height as int, jpeg))
                },
                None => false,
            }
        }),
{
    crate::wire::law_message_reads_back(
        MSG_FRAME,
        frame_payload_bytes(width, height, jpeg),
        rest,
    );
    law_frame_reads_back(width, height, jpeg);
}

/// A frame for the user interface: the JPEG image as base64, and the size.
pub struct ShownFrame {
    pub jpeg: String,
    pub width: u32,
    pub height: u32,
}

/// The frame to show for the payload of a frame's message, and the length of its image.
pub fn remote_frame(payload: &[u8]) -> (out: Option<(ShownFrame, usize)>)
    ensures
        match (frame_in(payload@), out) {
            (Some((width, height, jpeg)), Some((frame, len))) => {
                &&& frame.width == width
                &&& frame.height == height
                &&& frame.jpeg@ == base64_text(jpeg)
                &&& len == jpeg.len()
            },
            (None, None) => true,
            _ => false,
        },
{
    let n: usize = payload.len();
    if n < 8 {
        return None;
    }
    let width: u32 = get_be(payload, 0);
    let height: u32 = get_be(payload, 4);
    let image: &[u8] = &payload[8..n];
    assert(payload@.skip(0) =~= payload@);
    assert(image@ =~= payload@.skip(8));
    Some((ShownFrame { jpeg: to_base64(image), width, height }, n - 8))
}

// ---- Sinks -----------------------------------------------------------------

/// Whether a connection is alive after its bytes have been written, or not.
pub open spec fn alive_after(alive: bool, ok: bool) -> bool {
    alive && ok
}

/// Sends the host's frames over a connection, as long as that is alive.
pub struct JpegSender {
    pub quality: Quality,
    pub alive: bool,
    pub scaled: Vec<u8>,
}

impl JpegSender {
    /// A sender for the quality of a profile.
    pub fn new(profile: &str) -> (out: JpegSender)
        ensures
            out.quality == quality_of(profile@),
            out.alive,
    {
        JpegSender { quality: quality_for(profile), alive: true, scaled: Vec::new() }
    }

    /// The bytes to send for a frame, where one is to be sent: `elapsed_ms` have passed
    /// since the last one was.
    pub fn on_frame(&mut self, elapsed_ms: u64, width: u32, height: u32, bgra: &[u8]) -> (out:
        Option<Vec<u8>>)
        requires
            old(self).alive ==> takes_frame(
                old(self).quality,
                elapsed_ms,
                width,
                height,
                bgra@.len(),
            ),
        ensures
            final(self).quality == old(self).quality,
            final(self).alive == old(self).alive,
            out is Some <==> {
                &&& old(self).alive
                &&& due(old(self).quality, elapsed_ms, width, height, bgra@.len())
                &&& has_image(old(self).quality, width, height)
            },
            out is Some ==> ({
                let (sw, sh) = encoded_size(old(self).quality, width, height);
                let image = encoded_image(old(self).quality, width, height, bgra@);
                out->0@ == message(MSG_FRAME, frame_payload_bytes(sw as u32, sh as u32, image))
            }),
            out is Some && 0 < width < 65536 && 0 < height < 65536 ==> ({
                let sent = out->0@;
                let pixels = encoded_pixels(old(self).quality, width, height, bgra@);
                let announced_width = sent[5] * 16777216 + sent[6] * 65536 + sent[7] * 256
                    + sent[8];
                let announced_height = sent[9] * 16777216 + sent[10] * 65536 + sent[11] * 256
                    + sent[12];
                &&& 4 * (announced_width * announced_height) <= pixels.len()
                &&& sent.skip(13) == jpeg_image(
                    pixels,
                    announced_width as u16,
                    announced_height as u16,
                    old(self).quality.jpeg,
                )
            }),
    {
        if !self.alive {
            return None;
        }
        proof {
            if 0 < width < 65536 && 0 < height < 65536 {
                law_sent_frame_announces_its_image(self.quality, width, height, bgra@);
                lemma_sides_below(self.quality, width, height);
                if bgra@.len() >= 4 * (width * height) {
                    law_encoded_pixels_stand_in_rows(
                        self.quality,
                        width,
                        height,
                        bgra@,
                        0,
                        0,
                        0,
                    );
                }
            }
        }
        let image = encode_frame(
            &self.quality,
            &mut self.scaled,
            elapsed_ms,
            width,
            height,
            bgra,
        )?;
        let payload = frame_payload(&image);
        Some(write_msg(MSG_FRAME, payload.as_slice()))
    }

    /// Takes whether the bytes could be written. A connection that failed once is not
    /// written to again. The result says whether a frame has been sent just now.
    pub fn written(&mut self, ok: bool) -> (sent: bool)
        ensures
            sent == ok,
            final(self).alive == (old(self).alive && ok),
            final(self).alive == alive_after(old(self).alive, ok),
            final(self).quality == old(self).quality,
            final(self).scaled == old(self).scaled,
    {
        if !ok {
            self.alive = false;
        }
        ok
    }
}

/// Hands the host's frames to its own user interface, which sends them on.
pub struct LocalFrameSink {
    pub quality: Quality,
    pub scaled: Vec<u8>,
}

/// A sink for the host's own user interface, with the quality of a profile.
pub fn make_local_sink(profile: &str) -> (out: LocalFrameSink)
    ensures
        out.quality == quality_of(profile@),
{
    LocalFrameSink { quality: quality_for(profile), scaled: Vec::new() }
}

impl LocalFrameSink {
    /// The frame to hand over, where one is due: `elapsed_ms` have passed since the last
    /// one was.
    pub fn on_frame(&mut self, elapsed_ms: u64, width: u32, height: u32, bgra: &[u8]) -> (out:
        Option<ShownFrame>)
        requires
            takes_frame(old(self).quality, elapsed_ms, width, height, bgra@.len()),
        ensures
            final(self).quality == old(self).quality,
            out is Some <==> {
                &&& due(old(self).quality, elapsed_ms, width, height, bgra@.len())
                &&& has_image(old(self).quality, width, height)
            },
            out is Some ==> {
                &&& (out->0.width as int, out->0.height as int) == encoded_size(
                    old(self).quality,
                    width,
                    height,
                )
                &&& out->0.jpeg@ == base64_text(
                    encoded_image(old(self).quality, width, height, bgra@),
                )
            },
            out is Some && 0 < width < 65536 && 0 < height < 65536 ==> out->0.jpeg@ == base64_text(
                jpeg_image(
                    encoded_pixels(old(self).quality, width, height, bgra@),
                    out->0.width as u16,
                    out->0.height as u16,
                    old(self).quality.jpeg,
                ),
            ),
    {
        proof {
            if 0 < width < 65536 && 0 < height < 65536 {
                law_image_has_the_size_of_the_frame(self.quality, width, height, bgra@);
            }
        }
        let image = encode_frame(
            &self.quality,
            &mut self.scaled,
            elapsed_ms,
            width,
            height,
            bgra,
        )?;
        Some(shown(&image))
    }
}

/// An encoded image as the user interface takes it.
pub fn shown(image: &EncodedImage) -> (out: ShownFrame)
    ensures
        out.width == image.width,
        out.height == image.height,
        out.jpeg@ == base64_text(image.jpeg@),
{
    ShownFrame {
        jpeg: to_base64(image.jpeg.as_slice()),
        width: image.width,
        height: image.height,
    }
}

// ---- Laws of base64 --------------------------------------------------------

/// Six bits of bytes are written as a digit that stands for nothing else.
proof fn lemma_base64_char(a: Seq<u8>, b: Seq<u8>, k: int)
    requires
        0 <= k,
        6 * k < 8 * a.len(),
    ensures
        k < base64_text(a).len(),
        base64_char(a, k) != '=',
        6 * k < 8 * b.len() && base64_char(a, k) == base64_char(b, k) ==> six_bits(
            base64_group(a, k / 4),
            k % 4,
        ) == six_bits(base64_group(b, k / 4), k % 4),
{
    let x = base64_group(a, k / 4);
    let y = base64_group(b, k / 4);
    assert(0 <= x < 16777216);
    assert(0 <= y < 16777216);
    assert(0 <= six_bits(x, k % 4) < 64);
    assert(0 <= six_bits(y, k % 4) < 64);
}

/// Texts are equal only where the bytes are: nothing of an image is lost on its way to
/// the user interface.
pub proof fn law_base64_tells_bytes_apart(a: Seq<u8>, b: Seq<u8>)
    requires
        base64_text(a) == base64_text(b),
    ensures
        a == b,
{
    assert(a.len() == b.len()) by {
        if a.len() < b.len() {
            lemma_base64_shorter(a, b);
        } else if b.len() < a.len() {
            lemma_base64_shorter(b, a);
        }
    }
    assert forall|i: int| 0 <= i < a.len() implies a[i] == b[i] by {
        lemma_base64_group(a, b, i / 3);
        assert(i == 3 * (i / 3) || i == 3 * (i / 3) + 1 || i == 3 * (i / 3) + 2);
    }
    assert(a =~= b);
}

/// A shorter row of bytes has another text.
proof fn lemma_base64_shorter(a: Seq<u8>, b: Seq<u8>)
    requires
        a.len() < b.len(),
    ensures
        base64_text(a) != base64_text(b),
{
    let s = base64_text(a);
    let t = base64_text(b);
    if s == t {
        assert(s.len() == t.len());
        let k = (8 * a.len() as int + 5) / 6;
        assert(0 <= k < s.len());
        assert(s[k] == '=');
        lemma_base64_char(b, a, k);
    }
}

/// The four times six bits of three bytes.
proof fn lemma_six_bits(p: int, q: int, r: int)
    requires
        0 <= p < 256,
        0 <= q < 256,
        0 <= r < 256,
    ensures
        six_bits(p * 65536 + q * 256 + r, 0) == p / 4,
        six_bits(p * 65536 + q * 256 + r, 1) == p % 4 * 16 + q / 16,
        six_bits(p * 65536 + q * 256 + r, 2) == q % 16 * 4 + r / 64,
        six_bits(p * 65536 + q * 256 + r, 3) == r % 64,
{
    let x = p * 65536 + q * 256 + r;
    let b = p % 4 * 16 + q / 16;
    let c = q % 16 * 4 + r / 64;
    let d = r % 64;
    assert(x == p / 4 * 262144 + b * 4096 + c * 64 + d);
    assert(x / 64 == p / 4 * 4096 + b * 64 + c);
    assert(x / 4096 == p / 4 * 64 + b);
}

/// Equal texts of rows of the same length have equal groups.
proof fn lemma_base64_group(a: Seq<u8>, b: Seq<u8>, g: int)
    requires
        a.len() == b.len(),
        base64_text(a) == base64_text(b),
        0 <= 3 * g < a.len(),
    ensures
        byte_or_zero(a, 3 * g) == byte_or_zero(b, 3 * g),
        byte_or_zero(a, 3 * g + 1) == byte_or_zero(b, 3 * g + 1),
        byte_or_zero(a, 3 * g + 2) == byte_or_zero(b, 3 * g + 2),
{
    let k = 4 * g;
    lemma_six_bits(
        byte_or_zero(a, 3 * g),
        byte_or_zero(a, 3 * g + 1),
        byte_or_zero(a, 3 * g + 2),
    );
    lemma_six_bits(
        byte_or_zero(b, 3 * g),
        byte_or_zero(b, 3 * g + 1),
        byte_or_zero(b, 3 * g + 2),
    );
    lemma_base64_same_bits(a, b, k);
    lemma_base64_same_bits(a, b, k + 1);
    if 3 * g + 1 < a.len() {
        lemma_base64_same_bits(a, b, k + 2);
    }
    if 3 * g + 2 < a.len() {
        lemma_base64_same_bits(a, b, k + 3);
    }
}

/// Equal texts of rows of the same length have equal bits.
proof fn lemma_base64_same_bits(a: Seq<u8>, b: Seq<u8>, k: int)
    requires
        a.len() == b.len(),
        base64_text(a) == base64_text(b),
        0 <= k,
        6 * k < 8 * a.len(),
    ensures
        six_bits(base64_group(a, k / 4), k % 4) == six_bits(base64_group(b, k / 4), k % 4),
{
    lemma_base64_char(a, b, k);
    assert(base64_text(a)[k] == base64_char(a, k));
    assert(base64_text(b)[k] == base64_char(b, k));
}

// ---- What is sent and shown ------------------------------------------------

/// The profiles keep their promises: the sharp one has the best images and the ultralight
/// one the smallest; only the ultralight one halves the resolution; it sends about 24
/// frames a second and the others about 30. What is no known profile is ultralight.
pub proof fn law_profiles_keep_their_promises(profile: Seq<char>)
    ensures
        quality_of("sharp"@).jpeg == 85,
        quality_of("balanced"@).jpeg == 70,
        quality_of("sharp"@).scale == 1 && quality_of("balanced"@).scale == 1,
        1000u64 / quality_of("sharp"@).min_interval_ms == 30,
        1000u64 / quality_of("balanced"@).min_interval_ms == 30,
        quality_of("sharp"@).min_interval_ms == quality_of("balanced"@).min_interval_ms == 33,
        profile != "sharp"@ && profile != "balanced"@ ==> {
            &&& quality_of(profile).jpeg == 65
            &&& quality_of(profile).scale == 2
            &&& 1000u64 / quality_of(profile).min_interval_ms == 24
            &&& quality_of(profile).min_interval_ms == 41
        },
{
    reveal_strlit("sharp");
    reveal_strlit("balanced");
    assert("sharp"@.len() != "balanced"@.len());
}

/// A side is divided by the scale and rounded down, but no side vanishes.
pub proof fn law_sides_are_divided(side: int, scale: int)
    requires
        0 <= side,
        0 < scale,
    ensures
        side < scale ==> scaled_side(side, scale) == 1,
        scale <= side ==> scaled_side(side, scale) * scale <= side < (scaled_side(side, scale) + 1)
            * scale,
{
    lemma_div_bounds(side, scale);
}

proof fn lemma_div_bounds(side: int, scale: int)
    requires
        0 <= side,
        0 < scale,
    ensures
        side / scale * scale <= side < (side / scale + 1) * scale,
        side < scale ==> side / scale == 0,
        scale <= side ==> side / scale >= 1,
{
    assert(side / scale * scale <= side < (side / scale + 1) * scale) by (nonlinear_arith)
        requires
            0 <= side,
            0 < scale,
    ;
    if side < scale {
        lemma_fundamental_div_mod_converse(side, scale, 0, side);
    } else {
        assert(side / scale >= 1) by (nonlinear_arith)
            requires
                0 < scale <= side,
        ;
    }
}

/// A frame is due where the time between two frames has passed and all of its pixels are
/// there, and not before.
pub proof fn law_frames_keep_their_distance(q: Quality, elapsed_ms: u64, w: u32, h: u32, len: nat)
    ensures
        elapsed_ms < q.min_interval_ms ==> !due(q, elapsed_ms, w, h, len),
        len < 4 * (w * h) ==> !due(q, elapsed_ms, w, h, len),
        q.min_interval_ms <= elapsed_ms && 4 * (w * h) <= len ==> due(q, elapsed_ms, w, h, len),
{
}

/// Whatever the profile, a whole frame of an ordinary size is sent once 41 milliseconds have
/// passed.
pub proof fn law_whole_frames_are_sent(
    profile: Seq<char>,
    elapsed_ms: u64,
    w: u32,
    h: u32,
    len: nat,
)
    requires
        41 <= elapsed_ms,
        0 < w < 65536,
        0 < h < 65536,
        4 * (w * h) <= len,
    ensures
        due(quality_of(profile), elapsed_ms, w, h, len),
        has_image(quality_of(profile), w, h),
{
    lemma_sides_below(quality_of(profile), w, h);
}

/// The sides of an encoded frame are no longer than those of the frame, and none vanishes.
proof fn lemma_sides_below(q: Quality, w: u32, h: u32)
    requires
        0 < w,
        0 < h,
    ensures
        1 <= encoded_size(q, w, h).0 <= w,
        1 <= encoded_size(q, w, h).1 <= h,
{
    if q.scale > 1 {
        lemma_div_bounds(w as int, q.scale as int);
        lemma_div_bounds(h as int, q.scale as int);
        assert(w as int / q.scale as int <= w) by (nonlinear_arith)
            requires
                q.scale > 1,
        ;
        assert(h as int / q.scale as int <= h) by (nonlinear_arith)
            requires
                q.scale > 1,
        ;
    }
}

/// The size of an encoded frame: that of the frame itself, or each side divided by the
/// scale.
pub proof fn law_encoded_frames_are_reduced_by_the_scale(q: Quality, w: u32, h: u32)
    requires
        0 < w,
        0 < h,
    ensures
        q.scale <= 1 ==> encoded_size(q, w, h) == (w as int, h as int),
        q.scale > 1 && q.scale <= w ==> encoded_size(q, w, h).0 * q.scale <= w < (encoded_size(
            q,
            w,
            h,
        ).0 + 1) * q.scale,
        q.scale > 1 && q.scale <= h ==> encoded_size(q, w, h).1 * q.scale <= h < (encoded_size(
            q,
            w,
            h,
        ).1 + 1) * q.scale,
        w < q.scale ==> encoded_size(q, w, h).0 == 1,
        h < q.scale ==> encoded_size(q, w, h).1 == 1,
{
    if q.scale > 1 {
        law_sides_are_divided(w as int, q.scale as int);
        law_sides_are_divided(h as int, q.scale as int);
    }
}

/// The pixels that are encoded stand in rows as long as the encoded frame is wide, and each
/// is the pixel of the frame at its own place times the scale: nothing is turned, shifted or
/// scrambled.
pub proof fn law_encoded_pixels_stand_in_rows(
    q: Quality,
    w: u32,
    h: u32,
    bgra: Seq<u8>,
    x: int,
    y: int,
    c: int,
)
    requires
        0 < w,
        0 < h,
        4 * (w * h) <= bgra.len(),
        0 <= x < encoded_size(q, w, h).0,
        0 <= y < encoded_size(q, w, h).1,
        0 <= c < 4,
    ensures
        ({
            let sw = encoded_size(q, w, h).0;
            let sh = encoded_size(q, w, h).1;
            let step = if q.scale <= 1 {
                1int
            } else {
                q.scale as int
            };
            &&& 4 * (sw * sh) <= encoded_pixels(q, w, h, bgra).len()
            &&& encoded_pixels(q, w, h, bgra)[(y * sw + x) * 4 + c] == bgra[(y * step * w + x
                * step) * 4 + c]
        }),
{
    if q.scale <= 1 {
        assert(y * 1 * w + x * 1 == y * w + x) by (nonlinear_arith);
    } else {
        law_reduced_pixels_are_source_pixels(bgra, w as int, h as int, q.scale as int, x, y, c);
        let sw = encoded_size(q, w, h).0;
        let sh = encoded_size(q, w, h).1;
        assert(0 <= sw * sh) by (nonlinear_arith)
            requires
                0 <= sw,
                0 <= sh,
        ;
    }
}

/// The image of a frame is made of the encoded pixels with the encoded width and height, in
/// this order, and with the quality that is asked for.
pub proof fn law_image_has_the_size_of_the_frame(q: Quality, w: u32, h: u32, bgra: Seq<u8>)
    requires
        0 < w < 65536,
        0 < h < 65536,
    ensures
        encoded_image(q, w, h, bgra) == jpeg_image(
            encoded_pixels(q, w, h, bgra),
            encoded_size(q, w, h).0 as u16,
            encoded_size(q, w, h).1 as u16,
            q.jpeg,
        ),
        has_image(q, w, h),
{
    lemma_sides_below(q, w, h);
}

/// A frame that is sent, from its pixels to the bytes of the message: the first byte is the
/// kind of a frame; behind the length stand width and height of the image, each with its
/// highest byte first; all the rest is the image that the encoder makes of the encoded pixels
/// with that very width and that very height.
pub proof fn law_sent_frame_announces_its_image(q: Quality, w: u32, h: u32, bgra: Seq<u8>)
    requires
        0 < w < 65536,
        0 < h < 65536,
    ensures
        ({
            let (sw, sh) = encoded_size(q, w, h);
            let sent = message(
                MSG_FRAME,
                frame_payload_bytes(sw as u32, sh as u32, encoded_image(q, w, h, bgra)),
            );
            let width = sent[5] * 16777216 + sent[6] * 65536 + sent[7] * 256 + sent[8];
            let height = sent[9] * 16777216 + sent[10] * 65536 + sent[11] * 256 + sent[12];
            &&& sent[0] == 1
            &&& width == sw
            &&& height == sh
            &&& sent.skip(13) == jpeg_image(
                encoded_pixels(q, w, h, bgra),
                width as u16,
                height as u16,
                q.jpeg,
            )
        }),
{
    lemma_sides_below(q, w, h);
    let (sw, sh) = encoded_size(q, w, h);
    let image = encoded_image(q, w, h, bgra);
    let payload = frame_payload_bytes(sw as u32, sh as u32, image);
    let sent = message(MSG_FRAME, payload);
    crate::wire::law_be_bytes_read_back(sw as u32);
    crate::wire::law_be_bytes_read_back(sh as u32);
    assert(sent.skip(13) =~= image);
    assert(sent.subrange(5, 9) =~= be_bytes(sw as u32));
    assert(sent.subrange(9, 13) =~= be_bytes(sh as u32));
    assert(sent[5] == sent.subrange(5, 9)[0]);
    assert(sent[6] == sent.subrange(5, 9)[1]);
    assert(sent[7] == sent.subrange(5, 9)[2]);
    assert(sent[8] == sent.subrange(5, 9)[3]);
    assert(sent[9] == sent.subrange(9, 13)[0]);
    assert(sent[10] == sent.subrange(9, 13)[1]);
    assert(sent[11] == sent.subrange(9, 13)[2]);
    assert(sent[12] == sent.subrange(9, 13)[3]);
}

/// What a viewer finds in the payload of a frame: width and height in the first eight bytes,
/// each with its highest byte first, and the image in all the rest. Anything shorter holds
/// no frame.
pub proof fn law_frame_is_found_in_its_payload(payload: Seq<u8>)
    ensures
        payload.len() < 8 <==> frame_in(payload) is None,
        payload.len() >= 8 ==> ({
            let (width, height, jpeg) = frame_in(payload)->0;
            &&& width == payload[0] * 16777216 + payload[1] * 65536 + payload[2] * 256 + payload[3]
            &&& height == payload[4] * 16777216 + payload[5] * 65536 + payload[6] * 256
                + payload[7]
            &&& payload == payload.take(8) + jpeg
        }),
{
    if payload.len() >= 8 {
        assert(payload =~= payload.take(8) + payload.skip(8));
    }
}

/// Base64 writes three bytes as four characters of the alphabet, six bits each, from the
/// highest bits on. A last group of one byte gives two characters and two signs of padding,
/// one of two bytes three characters and one.
pub proof fn law_base64_writes_six_bits_a_character(bytes: Seq<u8>, g: int)
    requires
        0 <= 3 * g < bytes.len(),
    ensures
        base64_text(bytes).len() == 4 * ((bytes.len() + 2) / 3),
        ({
            let abc = "ABCDEFGHIJKLMNOPQRSTUVWXYZabcdefghijklmnopqrstuvwxyz0123456789+/"@;
            let text = base64_text(bytes);
            let a = bytes[3 * g];
            &&& text[4 * g] == abc[a as int / 4]
            &&& 3 * g + 1 == bytes.len() ==> text[4 * g + 1] == abc[a as int % 4 * 16]
                && text[4 * g + 2] == '=' && text[4 * g + 3] == '='
            &&& 3 * g + 1 < bytes.len() ==> text[4 * g + 1] == abc[a as int % 4 * 16 + bytes[3 * g
                + 1] as int / 16]
            &&& 3 * g + 2 == bytes.len() ==> text[4 * g + 2] == abc[bytes[3 * g + 1] as int % 16
                * 4] && text[4 * g + 3] == '='
            &&& 3 * g + 2 < bytes.len() ==> text[4 * g + 2] == abc[bytes[3 * g + 1] as int % 16 * 4
                + bytes[3 * g + 2] as int / 64] && text[4 * g + 3] == abc[bytes[3 * g + 2] as int
                % 64]
        }),
{
    let text = base64_text(bytes);
    let p = byte_or_zero(bytes, 3 * g);
    let q = byte_or_zero(bytes, 3 * g + 1);
    let r = byte_or_zero(bytes, 3 * g + 2);
    lemma_six_bits(p, q, r);
    assert(4 * g + 3 < text.len());
    assert((4 * g) / 4 == g && (4 * g + 1) / 4 == g && (4 * g + 2) / 4 == g && (4 * g + 3) / 4 == g);
    lemma_base64_alphabet(p / 4);
    lemma_base64_alphabet(p % 4 * 16 + q / 16);
    lemma_base64_alphabet(q % 16 * 4 + r / 64);
    lemma_base64_alphabet(r % 64);
    assert(text[4 * g] == base64_char(bytes, 4 * g));
    assert(text[4 * g + 1] == base64_char(bytes, 4 * g + 1));
    assert(text[4 * g + 2] == base64_char(bytes, 4 * g + 2));
    assert(text[4 * g + 3] == base64_char(bytes, 4 * g + 3));
}

/// The digits of base64 are those of its alphabet, in order.
proof fn lemma_base64_alphabet(v: int)
    requires
        0 <= v < 64,
    ensures
        base64_digit(v) == "ABCDEFGHIJKLMNOPQRSTUVWXYZabcdefghijklmnopqrstuvwxyz0123456789+/"@[v],
{
    reveal_strlit("ABCDEFGHIJKLMNOPQRSTUVWXYZabcdefghijklmnopqrstuvwxyz0123456789+/");
}

/// A side that is longer than the encoder can hold is encoded with its lower 16 bits; a frame
/// of which one side is left with nothing has no image.
pub proof fn law_long_sides_keep_their_lower_bits(q: Quality, w: u32, h: u32, bgra: Seq<u8>)
    ensures
        ({
            let (sw, sh) = encoded_size(q, w, h);
            &&& has_image(q, w, h) <==> sw % 65536 != 0 && sh % 65536 != 0
            &&& encoded_image(q, w, h, bgra) == jpeg_image(
                encoded_pixels(q, w, h, bgra),
                (sw % 65536) as u16,
                (sh % 65536) as u16,
                q.jpeg,
            )
        }),
{
}

/// A connection that could not be written to once is not written to again.
pub proof fn law_a_failed_connection_stays_dead(alive: bool, ok: bool)
    ensures
        !ok ==> !alive_after(alive, ok),
        !alive ==> !alive_after(alive, ok),
        alive && ok ==> alive_after(alive, ok),
{
}

} // verus!
