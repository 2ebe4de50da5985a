//! What the web server computes: the grey still of the latest camera frame.
use crate::camera::Frame;
use crate::Error;
use vstd::prelude::*;

verus! {

/// Narrowest still in pixels.
pub const MIN_FRAME_W: u32 = 16;

/// Lowest JPEG quality of a still.
pub const MIN_FRAME_Q: u8 = 10;

/// Width of a still unless asked otherwise.
pub fn default_frame_w() -> (r: u32)
    ensures
        r == 320,
{
    320
}

/// JPEG quality of a still unless asked otherwise.
pub fn default_frame_q() -> (r: u8)
    ensures
        r == 70,
{
    70
}

/// Width of a still: as asked, within 16 and the frame's width.
pub open spec fn still_width(w: u32, frame_w: u32) -> u32 {
    if w < MIN_FRAME_W {
        MIN_FRAME_W
    } else if w > frame_w {
        frame_w
    } else {
        w
    }
}

/// Height of a still: by the frame's aspect ratio, rounded down, at least 1.
pub open spec fn still_height(w_out: int, frame_w: int, frame_h: int) -> int {
    let h = w_out * frame_h / frame_w;
    if h < 1 {
        1
    } else {
        h
    }
}

/// Quality of a still: as asked, within 10 and 100.
pub open spec fn still_quality(q: u8) -> u8 {
    if q < MIN_FRAME_Q {
        MIN_FRAME_Q
    } else if q > 100 {
        100
    } else {
        q
    }
}

/// Luma byte of a YUYV frame that pixel `p` of a `w` x `h` still samples.
pub open spec fn still_byte(data: Seq<u8>, fw: int, fh: int, w: int, h: int, p: int) -> u8 {
    let x = (p % w) * fw / w;
    let y = (p / w) * fh / h;
    data[2 * (y * fw + x)]
}

/// The still as grey pixels, row by row.
pub open spec fn still_luma(data: Seq<u8>, fw: int, fh: int, w: int, h: int) -> Seq<u8> {
    Seq::new((w * h) as nat, |p: int| still_byte(data, fw, fh, w, h, p))
}

proof fn lemma_scaled(i: int, n: int, m: int)
    requires
        0 <= i < m,
        n > 0,
    ensures
        0 <= i * n / m < n,
{
    assert(0 <= i * n < m * n) by (nonlinear_arith)
        requires
            0 <= i < m,
            n > 0,
    ;
    let q = i * n / m;
    assert(q * m <= i * n && q >= 0) by (nonlinear_arith)
        requires
            q == i * n / m,
            m > 0,
            i * n >= 0,
    ;
    assert(q < n) by (nonlinear_arith)
        requires
            q * m <= i * n,
            i * n < m * n,
            m > 0,
    ;
}

proof fn lemma_place(y: int, x: int, w: int, h: int)
    requires
        0 <= x < w,
        0 <= y < h,
    ensures
        0 <= y * w + x < w * h,
        (y * w + x) % w == x,
        (y * w + x) / w == y,
{
    assert(y * w + x < w * h && y * w >= 0) by (nonlinear_arith)
        requires
            0 <= x < w,
            0 <= y < h,
    ;
    vstd::arithmetic::div_mod::lemma_fundamental_div_mod_converse(y * w + x, w, y, x);
}

/// Samples the luma of a YUYV frame down to `w` x `h`, nearest neighbour.
pub fn scale_luma(frame: &Frame, w: u32, h: u32) -> (r: Vec<u8>)
    requires
        0 < frame.width <= 65_535,
        0 < frame.height <= 65_535,
        0 < w <= 65_535,
        0 < h <= 65_535,
        frame.data@.len() >= 2 * (frame.width * frame.height),
        w * h <= usize::MAX,
    ensures
        r@ == still_luma(
            frame.data@,
            frame.width as int,
            frame.height as int,
            w as int,
            h as int,
        ),
{
    let ghost fw = frame.width as int;
    let ghost fh = frame.height as int;
    let len: usize = frame.data.len();
    let mut out: Vec<u8> = Vec::new();
    let mut y: u32 = 0;
    assert(0 * w == 0) by (nonlinear_arith);
    while y < h
        invariant
            0 < frame.width <= 65_535,
            0 < frame.height <= 65_535,
            0 < w <= 65_535,
            0 < h <= 65_535,
            fw == frame.width,
            fh == frame.height,
            len == frame.data@.len(),
            len >= 2 * (fw * fh),
            y <= h,
            out@.len() == y * w,
            forall|p: int|
                0 <= p < out@.len() ==> #[trigger] out@[p] == still_byte(
                    frame.data@,
                    fw,
                    fh,
                    w as int,
                    h as int,
                    p,
                ),
        decreases h - y,
    {
        assert(y * fh <= 65_535 * 65_535) by (nonlinear_arith)
            requires
                0 <= y <= 65_535,
                0 <= fh <= 65_535,
        ;
        let y_src: u64 = y as u64 * frame.height as u64 / h as u64;
        proof {
            lemma_scaled(y as int, fh, h as int);
        }
        let mut x: u32 = 0;
        while x < w
            invariant
                0 < frame.width <= 65_535,
                0 < frame.height <= 65_535,
                0 < w <= 65_535,
                0 < h <= 65_535,
                fw == frame.width,
                fh == frame.height,
                len == frame.data@.len(),
                len >= 2 * (fw * fh),
                y < h,
                x <= w,
                y_src == y * fh / h as int,
                0 <= y_src < fh,
                out@.len() == y * w + x,
                forall|p: int|
                    0 <= p < out@.len() ==> #[trigger] out@[p] == still_byte(
                        frame.data@,
                        fw,
                        fh,
                        w as int,
                        h as int,
                        p,
                    ),
            decreases w - x,
        {
            assert(x * fw <= 65_535 * 65_535) by (nonlinear_arith)
                requires
                    0 <= x <= 65_535,
                    0 <= fw <= 65_535,
            ;
            let x_src: u64 = x as u64 * frame.width as u64 / w as u64;
            proof {
                lemma_scaled(x as int, fw, w as int);
                lemma_place(y as int, x as int, w as int, h as int);
                lemma_place(y_src as int, x_src as int, fw, fh);
            }
            assert(y_src * fw <= 65_535 * 65_535) by (nonlinear_arith)
                requires
                    0 <= y_src <= 65_535,
                    0 <= fw <= 65_535,
            ;
            let at: u64 = 2 * (y_src * frame.width as u64 + x_src);
            out.push(frame.data[at as usize]);
            x = x + 1;
        }
        y = y + 1;
        assert((y - 1) * w + w == y * w) by (nonlinear_arith);
    }
    assert(h * w == w * h) by (nonlinear_arith);
    assert(out@ =~= still_luma(frame.data@, fw, fh, w as int, h as int));
    out
}

/// The JPEG bytes that the encoder makes of a grey image of a width and a height
/// at a quality.
pub uninterp spec fn jpeg_of(gray: Seq<u8>, w: u16, h: u16, quality: u8) -> Seq<u8>;

/// The bytes lie between the start-of-image and the end-of-image marker.
pub open spec fn is_framed(b: Seq<u8>) -> bool {
    &&& b.len() >= 4
    &&& b[0] == 0xff && b[1] == 0xd8
    &&& b[b.len() - 2] == 0xff && b[b.len() - 1] == 0xd9
}

/// Error of the JPEG encoder.
#[verifier::external_type_specification]
#[verifier::external_body]
pub struct ExEncodingError(jpeg_encoder::EncodingError);

/// `jpeg_encoder::Encoder::encode` on luma pixels, written to memory: it refuses
/// an empty image and one with too few pixels and nothing else. What it writes
/// depends on the pixels, the size and the quality alone, begins with the
/// start-of-image marker and ends with the end-of-image marker.
#[verifier::external_body]
fn encode_jpeg(gray: &[u8], w: u16, h: u16, quality: u8) -> (r: Result<
    Vec<u8>,
    jpeg_encoder::EncodingError,
>)
    requires
        1 <= quality <= 100,
        w * h <= usize::MAX,
    ensures
        r is Ok == (w > 0 && h > 0 && gray@.len() >= w * h),
        r is Ok ==> r->Ok_0@ == jpeg_of(gray@, w, h, quality),
        r is Ok ==> is_framed(r->Ok_0@),
{
    let mut buf: Vec<u8> = Vec::new();
    let done = jpeg_encoder::Encoder::new(&mut buf, quality).encode(
        gray,
        w,
        h,
        jpeg_encoder::ColorType::Luma,
    );
    match done {
        Ok(()) => Ok(buf),
        Err(e) => Err(e),
    }
}

/// Encodes grey pixels as JPEG.
pub fn encode_gray(gray: &[u8], w: u16, h: u16, quality: u8) -> (r: Result<Vec<u8>, Error>)
    requires
        1 <= quality <= 100,
        w * h <= usize::MAX,
    ensures
        r is Ok == (w > 0 && h > 0 && gray@.len() >= w * h),
        r is Ok ==> r->Ok_0@ == jpeg_of(gray@, w, h, quality),
        r is Ok ==> is_framed(r->Ok_0@),
        r matches Err(e) ==> e is Camera && e->Camera_0@ == "jpeg encode: bad image"@,
{
    match encode_jpeg(gray, w, h, quality) {
        Ok(bytes) => Ok(bytes),
        Err(e) => Err(Error::Camera(String::from_str("jpeg encode: bad image"))),
    }
}

/// A single grey JPEG of a camera frame: the luma, sampled down to the width
/// asked for at the frame's aspect ratio, at the quality asked for.
pub fn camera_frame(frame: &Frame, w: u32, q: u8) -> (r: Result<Vec<u8>, Error>)
    requires
        MIN_FRAME_W <= frame.width <= 65_535,
        0 < frame.height <= 65_535,
        frame.data@.len() >= 2 * (frame.width * frame.height),
    ensures
        r is Ok,
        ({
            let w_out = still_width(w, frame.width);
            let h_out = still_height(w_out as int, frame.width as int, frame.height as int);
            r->Ok_0@ == jpeg_of(
                still_luma(
                    frame.data@,
                    frame.width as int,
                    frame.height as int,
                    w_out as int,
                    h_out,
                ),
                w_out as u16,
                h_out as u16,
                still_quality(q),
            )
        }),
        is_framed(r->Ok_0@),
{
    let ghost fw = frame.width as int;
    let ghost fh = frame.height as int;
    let w_out: u32 = if w < MIN_FRAME_W {
        MIN_FRAME_W
    } else if w > frame.width {
        frame.width
    } else {
        w
    };
    assert(w_out * fh <= 65_535 * 65_535) by (nonlinear_arith)
        requires
            0 <= w_out <= 65_535,
            0 <= fh <= 65_535,
    ;
    let h: u64 = w_out as u64 * frame.height as u64 / frame.width as u64;
    assert(h <= fh) by (nonlinear_arith)
        requires
            h == w_out * fh / fw,
            0 <= w_out <= fw,
            fw > 0,
            fh >= 0,
    ;
    let h_out: u32 = if h < 1 {
        1
    } else {
        h as u32
    };
    let quality: u8 = if q < MIN_FRAME_Q {
        MIN_FRAME_Q
    } else if q > 100 {
        100
    } else {
        q
    };
    let len: usize = frame.data.len();
    assert(w_out * h_out <= fw * fh) by (nonlinear_arith)
        requires
            0 <= w_out <= fw,
            0 <= h_out <= fh,
    ;
    let gray: Vec<u8> = scale_luma(frame, w_out, h_out);
    encode_gray(gray.as_slice(), w_out as u16, h_out as u16, quality)
}

/// Age of a frame less age of a sample on one clock, in microseconds: positive
/// when the frame is older.
pub fn frame_to_sample(now_us: u64, frame_us: u64, sample_us: u64) -> (r: i64)
    requires
        frame_us <= now_us <= i64::MAX,
        sample_us <= now_us,
    ensures
        r == (now_us - frame_us) - (now_us - sample_us),
        r == sample_us - frame_us,
{
    (now_us - frame_us) as i64 - (now_us - sample_us) as i64
}

/// A still has the width asked for where the frame has as much and 16 is not more, and the
/// height that keeps the frame's proportions, rounded down, at least one.
pub proof fn law_still_keeps_proportions(w: u32, frame_w: u32, frame_h: u32)
    requires
        16 <= frame_w,
        1 <= frame_h,
    ensures
        ({
            let width = still_width(w, frame_w);
            let height = still_height(width as int, frame_w as int, frame_h as int);
            &&& 16 <= width <= frame_w
            &&& 16 <= w <= frame_w ==> width == w
            &&& w < 16 ==> width == 16
            &&& w > frame_w ==> width == frame_w
            &&& 1 <= height <= frame_h
            &&& width * frame_h < (height + 1) * frame_w
            &&& height > 1 ==> height * frame_w <= width * frame_h
        }),
{
    let (a, b) = (frame_w as int, frame_h as int);
    let width = still_width(w, frame_w) as int;
    let n = width * b;
    vstd::arithmetic::div_mod::lemma_fundamental_div_mod(n, a);
    let q = n / a;
    assert(n >= 0) by (nonlinear_arith)
        requires
            n == width * b,
            width >= 0,
            b >= 0,
    ;
    assert(a * q <= n < a * (q + 1) && q <= b) by (nonlinear_arith)
        requires
            n == a * q + n % a,
            0 <= n % a < a,
            n == width * b,
            width <= a,
            b >= 1,
    ;
    let height = still_height(width, a, b);
    assert(n < (height + 1) * a) by (nonlinear_arith)
        requires
            n < a * (q + 1),
            q <= height,
            a > 0,
    ;
    assert(q * a == a * q) by (nonlinear_arith);
}

/// Every pixel of a still is the luma of the frame's pixel at the same share of the width
/// and of the height, rounded down.
pub proof fn law_still_samples_in_proportion(
    data: Seq<u8>,
    fw: int,
    fh: int,
    w: int,
    h: int,
    x: int,
    y: int,
    sx: int,
    sy: int,
)
    requires
        fw > 0,
        fh > 0,
        0 <= x < w,
        0 <= y < h,
        sx * w <= x * fw < (sx + 1) * w,
        sy * h <= y * fh < (sy + 1) * h,
    ensures
        still_luma(data, fw, fh, w, h).len() == w * h,
        0 <= y * w + x < w * h,
        still_luma(data, fw, fh, w, h)[y * w + x] == data[2 * (sy * fw + sx)],
{
    lemma_place(y, x, w, h);
    let (rx, ry) = (x * fw - sx * w, y * fh - sy * h);
    assert((sx + 1) * w == sx * w + w && (sy + 1) * h == sy * h + h) by (nonlinear_arith);
    vstd::arithmetic::div_mod::lemma_fundamental_div_mod_converse(x * fw, w, sx, rx);
    vstd::arithmetic::div_mod::lemma_fundamental_div_mod_converse(y * fh, h, sy, ry);
}

/// A still of the frame's own size is its luma.
pub proof fn law_still_at_full_size(data: Seq<u8>, fw: int, fh: int, x: int, y: int)
    requires
        0 <= x < fw,
        0 <= y < fh,
    ensures
        still_luma(data, fw, fh, fw, fh)[y * fw + x] == data[2 * (y * fw + x)],
{
    assert((x + 1) * fw == x * fw + fw && (y + 1) * fh == y * fh + fh) by (nonlinear_arith);
    law_still_samples_in_proportion(data, fw, fh, fw, fh, x, y, x, y);
}

/// The quality is the one asked for, from 10 to 100.
pub proof fn law_still_quality_in_range(q: u8)
    ensures
        10 <= still_quality(q) <= 100,
        10 <= q <= 100 ==> still_quality(q) == q,
        q < 10 ==> still_quality(q) == 10,
        q > 100 ==> still_quality(q) == 100,
{
}

} // verus!
