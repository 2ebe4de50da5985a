//! Grayscale image and scale pyramid for the SLAM frontend.
//!
//! The camera publishes YUYV (`[Y0 U Y1 V]` per 4 bytes), so the luma plane
//! that the detectors want is every even byte.
use crate::camera::Frame;
use crate::single::{
    divide, law_nearest, law_quotient_is_near, law_single_is_near, lemma_common_factor,
    lemma_is_single, lemma_quotient, lemma_quotient_at_most, lemma_quotient_monotone, lemma_single,
    lemma_spacing, nearest, quotient, ratio, round, single, spacing, MAX_MAGNITUDE,
};
use vstd::arithmetic::div_mod::{lemma_fundamental_div_mod, lemma_fundamental_div_mod_converse};
use vstd::prelude::*;

verus! {

/// A single-channel 8-bit image, row-major, no padding.
#[derive(Debug)]
pub struct GrayImage {
    pub width: usize,
    pub height: usize,
    pub data: Vec<u8>,
}

// ── Model ─────────────────────────────────────────────────────────────────────

/// Luma plane of YUYV data: every even byte, 0 where the data is short.
pub open spec fn luma_plane(yuyv: Seq<u8>, pixels: nat) -> Seq<u8> {
    Seq::new(
        pixels,
        |i: int|
            if 2 * i + 2 <= yuyv.len() {
                yuyv[2 * i]
            } else {
                0u8
            },
    )
}

/// Units of position and weight: so many make a pixel.
pub const UNIT: i128 = 0x200_0000_0000_0000;

/// Position in the input of the centre of output sample `o`, in single precision;
/// never left of the first input sample.
pub open spec fn source_pos(o: int, n_out: int, n_in: int) -> int {
    let centre = single(2 * single(o) + 1);
    let p = single(single(centre * ratio(n_in, n_out)) - 0x100_0000_0000_0000);
    if p < 0 {
        0
    } else {
        p
    }
}

/// Input sample at or left of the position.
pub open spec fn lower_sample(o: int, n_out: int, n_in: int) -> int {
    let i = source_pos(o, n_out, n_in) / (UNIT as int);
    if i < n_in {
        i
    } else {
        n_in - 1
    }
}

/// Weight of the next input sample.
pub open spec fn upper_weight(o: int, n_out: int, n_in: int) -> int {
    single(source_pos(o, n_out, n_in) % (UNIT as int))
}

/// The next input sample, or the last one at the edge.
pub open spec fn upper_sample(o: int, n_out: int, n_in: int) -> int {
    let i = lower_sample(o, n_out, n_in) + 1;
    if i < n_in {
        i
    } else {
        n_in - 1
    }
}

/// From level `a` to level `b` by the weight `w`, in single precision.
pub open spec fn between(a: int, b: int, w: int) -> int {
    single(a * UNIT + single((b - a) * w))
}

/// Interpolation between four levels, first along x and then along y, in single
/// precision, rounded to the nearest level.
pub open spec fn blended(p00: int, p10: int, p01: int, p11: int, wx: int, wy: int) -> int {
    let top = between(p00, p10, wx);
    let bot = between(p01, p11, wx);
    let v = nearest(single(top * UNIT + single(single(bot - top) * wy)), UNIT * UNIT);
    if v > 255 {
        255
    } else {
        v
    }
}

/// Bilinear interpolation of the input at the centre of output pixel
/// `(ox, oy)`, rounded to the nearest level.
pub open spec fn bilinear(
    data: Seq<u8>,
    width: int,
    height: int,
    w: int,
    h: int,
    ox: int,
    oy: int,
) -> int {
    let x0 = lower_sample(ox, w, width);
    let x1 = upper_sample(ox, w, width);
    let y0 = lower_sample(oy, h, height);
    let y1 = upper_sample(oy, h, height);
    blended(
        data[y0 * width + x0] as int,
        data[y0 * width + x1] as int,
        data[y1 * width + x0] as int,
        data[y1 * width + x1] as int,
        upper_weight(ox, w, width),
        upper_weight(oy, h, height),
    )
}

/// Pixels of the bilinear reduction of an image to `w` x `h`.
pub open spec fn resized_data(data: Seq<u8>, width: int, height: int, w: nat, h: nat) -> Seq<u8> {
    Seq::new(
        w * h,
        |k: int|
            bilinear(data, width, height, w as int, h as int, k % (w as int), k / (w as int)) as u8,
    )
}

// ── Arithmetic facts ──────────────────────────────────────────────────────────

/// A position is in reach of the machine's arithmetic.
proof fn lemma_position(o: int, n_out: int, n_in: int)
    requires
        0 <= o < n_out <= isize::MAX,
        1 <= n_in <= isize::MAX,
    ensures
        1 <= single(n_out) <= 2 * n_out,
        0 <= single(n_in) <= 2 * n_in,
        0 <= single(o) <= 2 * o,
        0 <= single(2 * single(o) + 1) <= 8 * n_out,
        0 <= ratio(n_in, n_out) <= 0x8000_0000_0000_0000 * 0x800_0000_0000_0000,
        0 <= single(2 * single(o) + 1) * ratio(n_in, n_out)
            <= 0x2000_0000_0000_0000_0000_0000_0000_0000 + 0x100_0000_0000_0000_0000,
{
    lemma_single(o);
    lemma_single(n_out);
    lemma_single(n_in);
    let (a, b) = (single(n_in), single(n_out));
    let so = single(o);
    lemma_single(2 * so + 1);
    let t = single(2 * so + 1);
    let n = a * 0x100_0000_0000_0000;
    lemma_quotient(n, b);
    lemma_fundamental_div_mod(n, b);
    let q = n / b;
    let s = ratio(n_in, n_out);
    assert(b * q <= n);
    assert(q <= n) by (nonlinear_arith)
        requires
            b * q <= n,
            b >= 1,
            q >= 0,
    ;
    assert(b * s <= 2 * n + b) by (nonlinear_arith)
        requires
            0 <= s <= 2 * q + 1,
            b * q <= n,
            b >= 1,
    ;
    assert(t * s <= 16 * (b * s)) by (nonlinear_arith)
        requires
            0 <= t <= 16 * b,
            s >= 0,
    ;
    assert(0 <= t * s) by (nonlinear_arith)
        requires
            0 <= t,
            0 <= s,
    ;
}

proof fn lemma_row_index(x: int, y: int, w: int, h: int)
    requires
        0 <= x < w,
        0 <= y < h,
    ensures
        0 <= y * w,
        y * w + x < w * h,
        (y * w + x) / w == y,
        (y * w + x) % w == x,
{
    assert(0 <= y * w && y * w + w <= w * h) by (nonlinear_arith)
        requires
            0 <= y < h,
            0 <= w,
    ;
    lemma_fundamental_div_mod_converse(y * w + x, w, y, x);
}

/// Sample pair and weight of one output coordinate.
fn axis(o: usize, n_out: usize, n_in: usize) -> (r: (usize, usize, i128))
    requires
        o < n_out <= isize::MAX,
        1 <= n_in <= isize::MAX,
    ensures
        r.0 == lower_sample(o as int, n_out as int, n_in as int),
        r.1 == upper_sample(o as int, n_out as int, n_in as int),
        r.2 == upper_weight(o as int, n_out as int, n_in as int),
        r.0 < n_in,
        r.1 < n_in,
        0 <= r.2 <= UNIT + 0x10_0000_0000,
{
    proof {
        lemma_position(o as int, n_out as int, n_in as int);
    }
    let a: i128 = round(n_in as i128);
    let b: i128 = round(n_out as i128);
    let step: i128 = divide(a as u128 * 0x100_0000_0000_0000, b as u128) as i128;
    let centre: i128 = round(2 * round(o as i128) + 1);
    let p: i128 = round(round(centre * step) - 0x100_0000_0000_0000);
    let pos: i128 = if p < 0 {
        0
    } else {
        p
    };
    let i: i128 = pos / UNIT;
    let lower: usize = if i < n_in as i128 {
        i as usize
    } else {
        n_in - 1
    };
    let upper: usize = if lower + 1 < n_in {
        lower + 1
    } else {
        n_in - 1
    };
    (lower, upper, round(pos % UNIT))
}

/// From one level to another by a weight.
fn mix(a: u8, b: u8, w: i128) -> (r: i128)
    requires
        0 <= w <= UNIT + 0x10_0000_0000,
    ensures
        r == between(a as int, b as int, w as int),
        -258 * UNIT <= r <= 514 * UNIT,
{
    let d: i128 = b as i128 - a as i128;
    assert(-256 * UNIT <= d * w <= 256 * UNIT) by (nonlinear_arith)
        requires
            -255 <= d <= 255,
            0 <= w <= UNIT + 0x10_0000_0000,
            UNIT == 0x200_0000_0000_0000,
    ;
    round(a as i128 * UNIT + round(d * w))
}

fn blend(p00: u8, p10: u8, p01: u8, p11: u8, wx: i128, wy: i128) -> (r: u8)
    requires
        0 <= wx <= UNIT + 0x10_0000_0000,
        0 <= wy <= UNIT + 0x10_0000_0000,
    ensures
        r == blended(p00 as int, p10 as int, p01 as int, p11 as int, wx as int, wy as int),
{
    let top: i128 = mix(p00, p10, wx);
    let bot: i128 = mix(p01, p11, wx);
    let d: i128 = round(bot - top);
    assert(-775 * UNIT * UNIT <= d * wy <= 775 * UNIT * UNIT) by (nonlinear_arith)
        requires
            -773 * UNIT <= d <= 773 * UNIT,
            0 <= wy <= UNIT + 0x10_0000_0000,
            UNIT == 0x200_0000_0000_0000,
    ;
    let v: i128 = round(top * UNIT + round(d * wy));
    let whole: i128 = UNIT * UNIT;
    if v < 0 {
        return 0;
    }
    let level: i128 = (2 * v + whole) / (2 * whole);
    if level > 255 {
        255
    } else {
        level as u8
    }
}

/// Sample pairs and weights of a whole side.
fn side_samples(n_out: usize, n_in: usize) -> (r: Vec<(usize, usize, i128)>)
    requires
        n_out <= isize::MAX,
        1 <= n_in <= isize::MAX,
    ensures
        r@.len() == n_out,
        forall|o: int|
            0 <= o < n_out ==> {
                &&& (#[trigger] r@[o]).0 == lower_sample(o, n_out as int, n_in as int)
                &&& r@[o].1 == upper_sample(o, n_out as int, n_in as int)
                &&& r@[o].2 == upper_weight(o, n_out as int, n_in as int)
                &&& r@[o].0 < n_in
                &&& r@[o].1 < n_in
                &&& 0 <= r@[o].2 <= UNIT + 0x10_0000_0000
            },
{
    let mut out: Vec<(usize, usize, i128)> = Vec::new();
    let mut o: usize = 0;
    while o < n_out
        invariant
            o <= n_out,
            n_out <= isize::MAX,
            1 <= n_in <= isize::MAX,
            out@.len() == o,
            forall|k: int|
                0 <= k < o ==> {
                    &&& (#[trigger] out@[k]).0 == lower_sample(k, n_out as int, n_in as int)
                    &&& out@[k].1 == upper_sample(k, n_out as int, n_in as int)
                    &&& out@[k].2 == upper_weight(k, n_out as int, n_in as int)
                    &&& out@[k].0 < n_in
                    &&& out@[k].1 < n_in
                    &&& 0 <= out@[k].2 <= UNIT + 0x10_0000_0000
                },
        decreases n_out - o,
    {
        out.push(axis(o, n_out, n_in));
        o = o + 1;
    }
    out
}

impl GrayImage {
    /// The buffer holds every pixel.
    pub open spec fn covers(&self) -> bool {
        self.width * self.height <= self.data@.len() <= isize::MAX
    }

    /// Level of pixel `(x, y)`.
    pub open spec fn pixel(&self, x: int, y: int) -> u8 {
        self.data@[y * self.width + x]
    }

    /// A black image.
    pub fn new(width: usize, height: usize) -> (r: Self)
        requires
            width * height <= usize::MAX,
        ensures
            r.width == width,
            r.height == height,
            r.data@ == Seq::new((width * height) as nat, |i: int| 0u8),
    {
        let data: Vec<u8> = vec![0u8; width * height];
        assert(data@ =~= Seq::new((width * height) as nat, |i: int| 0u8));
        GrayImage { width, height, data }
    }

    pub fn at(&self, x: usize, y: usize) -> (r: u8)
        requires
            y * self.width + x < self.data@.len(),
        ensures
            r == self.pixel(x as int, y as int),
    {
        let len: usize = self.data.len();
        assert(0 <= y * self.width) by (nonlinear_arith)
            requires
                0 <= y,
                0 <= self.width,
        ;
        self.data[y * self.width + x]
    }

    /// A copy of the image.
    pub fn copy(&self) -> (r: Self)
        ensures
            r.width == self.width,
            r.height == self.height,
            r.data@ == self.data@,
    {
        let data: Vec<u8> = self.data.clone();
        assert(data@ =~= self.data@);
        GrayImage { width: self.width, height: self.height, data }
    }

    /// Extract the luma plane from a YUYV frame (every even byte).
    pub fn from_yuyv(frame: &Frame) -> (r: Self)
        requires
            frame.pixels() <= usize::MAX,
        ensures
            r.width == frame.width,
            r.height == frame.height,
            r.data@ == luma_plane(frame.data@, frame.pixels()),
    {
        let w: usize = frame.width as usize;
        let h: usize = frame.height as usize;
        let n: usize = w * h;
        let len: usize = frame.data.len();
        let mut data: Vec<u8> = Vec::new();
        let mut i: usize = 0;
        while i < n
            invariant
                i <= n,
                n == frame.pixels(),
                len == frame.data@.len(),
                data@.len() == i,
                forall|k: int|
                    0 <= k < i ==> #[trigger] data@[k] == luma_plane(frame.data@, n as nat)[k],
            decreases n - i,
        {
            if i < len / 2 {
                data.push(frame.data[2 * i]);
            } else {
                data.push(0);
            }
            i = i + 1;
        }
        assert(data@ =~= luma_plane(frame.data@, frame.pixels()));
        GrayImage { width: w, height: h, data }
    }

    /// Bilinear downscale to `(w, h)`: each output pixel is the interpolation
    /// of the input at the output pixel's centre.
    pub fn resized(&self, w: usize, h: usize) -> (r: Self)
        requires
            self.covers(),
            w > 0 && h > 0 ==> self.width > 0 && self.height > 0,
            w * h <= isize::MAX,
        ensures
            r.width == w,
            r.height == h,
            r.data@ == resized_data(
                self.data@,
                self.width as int,
                self.height as int,
                w as nat,
                h as nat,
            ),
    {
        let mut data: Vec<u8> = Vec::new();
        let ghost want = resized_data(
            self.data@,
            self.width as int,
            self.height as int,
            w as nat,
            h as nat,
        );
        if w == 0 || h == 0 {
            assert(w * h == 0) by (nonlinear_arith)
                requires
                    w == 0 || h == 0,
            ;
            assert(data@ =~= want);
            return GrayImage { width: w, height: h, data };
        }
        proof {
            lemma_factors(self.width as int, self.height as int);
            lemma_factors(w as int, h as int);
        }
        let columns: Vec<(usize, usize, i128)> = side_samples(w, self.width);
        let mut oy: usize = 0;
        while oy < h
            invariant
                oy <= h,
                columns@.len() == w,
                forall|o: int|
                    0 <= o < w ==> {
                        &&& (#[trigger] columns@[o]).0 == lower_sample(
                            o,
                            w as int,
                            self.width as int,
                        )
                        &&& columns@[o].1 == upper_sample(o, w as int, self.width as int)
                        &&& columns@[o].2 == upper_weight(o, w as int, self.width as int)
                        &&& columns@[o].0 < self.width
                        &&& columns@[o].1 < self.width
                        &&& 0 <= columns@[o].2 <= UNIT + 0x10_0000_0000
                    },
                1 <= w <= isize::MAX,
                1 <= h <= isize::MAX,
                w * h <= isize::MAX,
                1 <= self.width <= isize::MAX,
                1 <= self.height <= isize::MAX,
                self.covers(),
                want == resized_data(
                    self.data@,
                    self.width as int,
                    self.height as int,
                    w as nat,
                    h as nat,
                ),
                data@.len() == oy * w,
                forall|k: int| 0 <= k < data@.len() ==> #[trigger] data@[k] == want[k],
            decreases h - oy,
        {
            let (y0, y1, wy): (usize, usize, i128) = axis(oy, h, self.height);
            let mut ox: usize = 0;
            while ox < w
                invariant
                    ox <= w,
                    oy < h,
                    columns@.len() == w,
                    forall|o: int|
                        0 <= o < w ==> {
                            &&& (#[trigger] columns@[o]).0 == lower_sample(
                                o,
                                w as int,
                                self.width as int,
                            )
                            &&& columns@[o].1 == upper_sample(o, w as int, self.width as int)
                            &&& columns@[o].2 == upper_weight(o, w as int, self.width as int)
                            &&& columns@[o].0 < self.width
                            &&& columns@[o].1 < self.width
                            &&& 0 <= columns@[o].2 <= UNIT + 0x10_0000_0000
                        },
                    1 <= w <= isize::MAX,
                    1 <= h <= isize::MAX,
                    w * h <= isize::MAX,
                    1 <= self.width <= isize::MAX,
                    1 <= self.height <= isize::MAX,
                    self.covers(),
                    y0 == lower_sample(oy as int, h as int, self.height as int),
                    y1 == upper_sample(oy as int, h as int, self.height as int),
                    wy == upper_weight(oy as int, h as int, self.height as int),
                    y0 < self.height,
                    y1 < self.height,
                    0 <= wy <= UNIT + 0x10_0000_0000,
                    want == resized_data(
                        self.data@,
                        self.width as int,
                        self.height as int,
                        w as nat,
                        h as nat,
                    ),
                    data@.len() == oy * w + ox,
                    forall|k: int| 0 <= k < data@.len() ==> #[trigger] data@[k] == want[k],
                decreases w - ox,
            {
                let (x0, x1, wx): (usize, usize, i128) = columns[ox];
                proof {
                    lemma_row_index(x0 as int, y0 as int, self.width as int, self.height as int);
                    lemma_row_index(x1 as int, y0 as int, self.width as int, self.height as int);
                    lemma_row_index(x0 as int, y1 as int, self.width as int, self.height as int);
                    lemma_row_index(x1 as int, y1 as int, self.width as int, self.height as int);
                    lemma_row_index(ox as int, oy as int, w as int, h as int);
                }
                let v: u8 = blend(
                    self.at(x0, y0),
                    self.at(x1, y0),
                    self.at(x0, y1),
                    self.at(x1, y1),
                    wx,
                    wy,
                );
                assert(v == want[oy * w + ox]);
                data.push(v);
                ox = ox + 1;
            }
            assert(oy * w + w == (oy + 1) * w) by (nonlinear_arith);
            oy = oy + 1;
        }
        assert(h * w == w * h) by (nonlinear_arith);
        assert(data@ =~= want);
        GrayImage { width: w, height: h, data }
    }
}

/// Factors of a bounded positive product are bounded.
proof fn lemma_factors(w: int, h: int)
    requires
        0 < w,
        0 < h,
        w * h <= isize::MAX,
    ensures
        w <= isize::MAX,
        h <= isize::MAX,
{
    assert(w <= w * h && h <= w * h) by (nonlinear_arith)
        requires
            0 < w,
            0 < h,
    ;
}

/// Resizing keeps a constant image constant.
pub proof fn law_resize_keeps_constant(
    data: Seq<u8>,
    width: int,
    height: int,
    w: nat,
    h: nat,
    level: u8,
)
    requires
        1 <= width,
        1 <= height,
        width * height <= data.len() <= isize::MAX,
        1 <= w,
        1 <= h,
        w * h <= isize::MAX,
        forall|i: int| 0 <= i < width * height ==> data[i] == level,
    ensures
        forall|k: int|
            0 <= k < w * h ==> #[trigger] resized_data(data, width, height, w, h)[k] == level,
{
    lemma_factors(width, height);
    lemma_factors(w as int, h as int);
    assert forall|k: int| 0 <= k < w * h implies #[trigger] resized_data(
        data,
        width,
        height,
        w,
        h,
    )[k] == level by {
        crate::camera::frame::lemma_cell_of(k, w as int, h as int);
        let (ox, oy) = (k % (w as int), k / (w as int));
        lemma_lower(ox, w as int, width);
        lemma_lower(oy, h as int, height);
        let (x0, x1) = (lower_sample(ox, w as int, width), upper_sample(ox, w as int, width));
        let (y0, y1) = (lower_sample(oy, h as int, height), upper_sample(oy, h as int, height));
        lemma_row_index(x0, y0, width, height);
        lemma_row_index(x1, y0, width, height);
        lemma_row_index(x0, y1, width, height);
        lemma_row_index(x1, y1, width, height);
        lemma_blend_constant(
            level,
            upper_weight(ox, w as int, width),
            upper_weight(oy, h as int, height),
        );
    }
}

proof fn lemma_lower(o: int, n_out: int, n_in: int)
    requires
        n_in >= 1,
    ensures
        0 <= lower_sample(o, n_out, n_in) < n_in,
        0 <= upper_sample(o, n_out, n_in) < n_in,
{
    assert(source_pos(o, n_out, n_in) / (UNIT as int) >= 0);
}

/// Blending equal levels gives that level.
proof fn lemma_blend_constant(level: u8, wx: int, wy: int)
    ensures
        blended(level as int, level as int, level as int, level as int, wx, wy) == level,
{
    let p = level as nat;
    lemma_single(0);
    assert(0 * wx == 0 && 0 * wy == 0);
    vstd::arithmetic::power2::lemma2_to64_rest();
    vstd::arithmetic::power2::lemma_pow2_adds(57, 57);
    lemma_is_single(p, 57);
    lemma_is_single(p, 114);
    assert(p * (UNIT * UNIT) == p * UNIT * UNIT) by (nonlinear_arith);
    let d = UNIT * UNIT;
    assert(2 * (p * d) + d == p * (2 * d) + d) by (nonlinear_arith);
    lemma_fundamental_div_mod_converse(2 * (p * d) + d, 2 * d, p as int, d);
}

/// The luma of a grey picture packed as YUYV is the picture; the packing takes two bytes
/// a pixel, and every odd one is neutral chroma.
pub proof fn law_grey_yuyv_roundtrip(luma: Seq<u8>, pixels: nat)
    requires
        luma.len() == pixels,
    ensures
        luma_plane(crate::camera::mock::grey_yuyv(luma, pixels), pixels) == luma,
        crate::camera::mock::grey_yuyv(luma, pixels).len() == 2 * pixels,
        forall|i: int|
            0 <= i < pixels ==> #[trigger] crate::camera::mock::grey_yuyv(luma, pixels)[2 * i + 1]
                == 128,
{
    assert(luma_plane(crate::camera::mock::grey_yuyv(luma, pixels), pixels) =~= luma);
}

// ── Pyramid ───────────────────────────────────────────────────────────────────

/// One pyramid level: the image plus the factor that maps a coordinate at this level
/// back to level 0, in single precision, where 2^23 stands for 1.
#[derive(Debug)]
pub struct PyramidLevel {
    pub image: GrayImage,
    pub scale: u64,
}

/// Smallest side of a pyramid level above the first.
pub const MIN_LEVEL_SIDE: usize = 8;

/// Sides of an image that a pyramid is built over are less than this: up to there
/// every whole number is a single-precision value.
pub const MAX_SIDE: usize = 0x100_0000;

/// `num / den` in single precision, where 2^23 stands for 1.
pub open spec fn factor(num: int, den: int) -> int {
    quotient(num * 0x80_0000, den)
}

/// Factor from level `lvl` to level 0: `num / den` for each level, multiplied up in
/// single precision.
pub open spec fn level_scale(num: int, den: int, lvl: nat) -> int
    decreases lvl,
{
    if lvl == 0 {
        0x80_0000
    } else {
        quotient(level_scale(num, den, (lvl - 1) as nat) * factor(num, den), 0x80_0000)
    }
}

/// A side of `n` divided by a scale in single precision and rounded to the nearest
/// pixel.
pub open spec fn scaled_down(n: int, scale: int) -> int {
    nearest(quotient(single(n) * 0x4000_0000_0000_0000, scale), 0x80_0000_0000)
}

/// Side of level `lvl` of a pyramid over a side of `n`, where each level is
/// `num / den` times smaller than the one before.
pub open spec fn level_side(n: int, num: int, den: int, lvl: nat) -> int {
    scaled_down(n, level_scale(num, den, lvl))
}

/// What level `lvl` of a pyramid over `base` holds.
pub open spec fn is_level(base: GrayImage, num: int, den: int, lvl: nat, level: PyramidLevel) -> bool {
    &&& level.scale == level_scale(num, den, lvl)
    &&& if lvl == 0 {
        &&& level.image.width == base.width
        &&& level.image.height == base.height
        &&& level.image.data@ == base.data@
    } else {
        &&& level.image.width == level_side(base.width as int, num, den, lvl)
        &&& level.image.height == level_side(base.height as int, num, den, lvl)
        &&& level.image.data@ == resized_data(
            base.data@,
            base.width as int,
            base.height as int,
            level.image.width as nat,
            level.image.height as nat,
        )
    }
}

/// Level `lvl` is too small to be built.
pub open spec fn level_too_small(base: GrayImage, num: int, den: int, lvl: nat) -> bool {
    level_side(base.width as int, num, den, lvl) < MIN_LEVEL_SIDE || level_side(
        base.height as int,
        num,
        den,
        lvl,
    ) < MIN_LEVEL_SIDE
}

/// Dividing by at least 1 does not enlarge a side.
proof fn lemma_scaled_down(n: int, scale: int)
    requires
        0 <= n < MAX_SIDE,
        0x80_0000 <= scale,
    ensures
        single(n) == n,
        0 <= quotient(n * 0x4000_0000_0000_0000, scale) <= n * 0x80_0000_0000,
        0 <= scaled_down(n, scale) <= n,
        scaled_down(n, scale) >= MIN_LEVEL_SIDE ==> scale <= 0x80_0000_0000_0000,
{
    lemma_single(n);
    vstd::arithmetic::power2::lemma2_to64();
    vstd::arithmetic::power2::lemma2_to64_rest();
    lemma_is_single(n as nat, 39);
    let num = n * 0x4000_0000_0000_0000;
    assert(num <= scale * (n * 0x80_0000_0000)) by (nonlinear_arith)
        requires
            num == n * 0x4000_0000_0000_0000,
            scale >= 0x80_0000,
            n >= 0,
    ;
    lemma_quotient_at_most(num, scale, (n * 0x80_0000_0000) as nat);
    lemma_quotient(num, scale);
    lemma_fundamental_div_mod(num, scale);
    let q = num / scale;
    if quotient(num, scale) >= 7 * 0x80_0000_0000 {
        assert(scale <= 0x80_0000_0000_0000) by (nonlinear_arith)
            requires
                num == scale * q + num % scale,
                num % scale >= 0,
                q >= 3 * 0x80_0000_0000,
                num <= 0x100_0000 * 0x4000_0000_0000_0000,
                scale >= 0,
        ;
    }
}

/// No level is larger than the image.
pub proof fn lemma_level_side(n: int, num: int, den: int, lvl: nat)
    requires
        0 <= n < MAX_SIDE,
        1 <= den <= num,
    ensures
        0x80_0000 <= level_scale(num, den, lvl),
        0 <= level_side(n, num, den, lvl) <= n,
{
    lemma_level_scale(num, den, lvl);
    lemma_scaled_down(n, level_scale(num, den, lvl));
}

proof fn lemma_level_scale(num: int, den: int, lvl: nat)
    requires
        1 <= den <= num,
    ensures
        0x80_0000 <= level_scale(num, den, lvl),
    decreases lvl,
{
    if lvl > 0 {
        lemma_level_scale(num, den, (lvl - 1) as nat);
        let s = level_scale(num, den, (lvl - 1) as nat);
        let f = factor(num, den);
        assert(num * 0x80_0000 >= den * 0x80_0000) by (nonlinear_arith)
            requires
                num >= den,
        ;
        lemma_at_least(num * 0x80_0000, den);
        assert(s * f >= 0x80_0000 * 0x80_0000) by (nonlinear_arith)
            requires
                s >= 0x80_0000,
                f >= 0x80_0000,
        ;
        lemma_at_least(s * f, 0x80_0000);
    }
}

fn side(n: usize, scale: u128) -> (r: usize)
    requires
        n < MAX_SIDE,
        0x80_0000 <= scale <= MAX_MAGNITUDE,
    ensures
        r == scaled_down(n as int, scale as int),
        r <= n,
        r >= MIN_LEVEL_SIDE ==> scale <= 0x80_0000_0000_0000,
{
    proof {
        lemma_scaled_down(n as int, scale as int);
    }
    let v: u128 = divide(n as u128 * 0x4000_0000_0000_0000, scale);
    ((2 * v + 0x80_0000_0000) / 0x100_0000_0000) as usize
}

/// One more factor of at least 1.
fn rescaled(scale: u128, by: u128) -> (r: u128)
    requires
        0x80_0000 <= scale <= 0x80_0000_0000_0000,
        0x80_0000 <= by <= 0x100_0000_0000_0000,
    ensures
        r == quotient(scale * by, 0x80_0000),
        0x80_0000 <= r <= MAX_MAGNITUDE,
{
    proof {
        let (s, f) = (scale as int, by as int);
        assert(0x80_0000 * 0x80_0000 <= s * f <= 0x80_0000_0000_0000 * 0x100_0000_0000_0000)
            by (nonlinear_arith)
            requires
                0x80_0000 <= s <= 0x80_0000_0000_0000,
                0x80_0000 <= f <= 0x100_0000_0000_0000,
        ;
        lemma_quotient(s * f, 0x80_0000);
        lemma_at_least(s * f, 0x80_0000);
    }
    divide(scale * by, 0x80_0000)
}

/// A quotient of at least 2^23 stays at least that.
proof fn lemma_at_least(n: int, d: int)
    requires
        d > 0,
        n >= d * 0x80_0000,
    ensures
        quotient(n, d) >= 0x80_0000,
{
    lemma_quotient(n, d);
    let m = n / d;
    lemma_fundamental_div_mod(n, d);
    lemma_spacing(m as nat);
    let u = spacing(m as nat) as int;
    let v = quotient(n, d);
    assert(v >= 0x80_0000) by (nonlinear_arith)
        requires
            -d * u <= 2 * (d * v - n),
            u == 1 || u * 0x80_0000 <= m,
            n == d * m + n % d,
            n % d >= 0,
            n >= d * 0x80_0000,
            m >= 0,
            d > 0,
            u >= 1,
    ;
}

/// Scale pyramid: up to `n_levels` images, each `num / den` times smaller than
/// the one before (level 0 is the original). The pyramid ends before the first
/// level with a side of less than 8 pixels.
pub fn build_pyramid(base: GrayImage, n_levels: usize, num: u32, den: u32) -> (r: Vec<PyramidLevel>)
    requires
        base.covers(),
        base.width < MAX_SIDE,
        base.height < MAX_SIDE,
        1 <= den <= num,
    ensures
        r@.len() <= n_levels,
        forall|l: int|
            0 <= l < r@.len() ==> #[trigger] is_level(
                base,
                num as int,
                den as int,
                l as nat,
                r@[l],
            ),
        forall|l: int|
            1 <= l < r@.len() ==> !#[trigger] level_too_small(
                base,
                num as int,
                den as int,
                l as nat,
            ),
        r@.len() < n_levels ==> 1 <= r@.len() && level_too_small(
            base,
            num as int,
            den as int,
            r@.len() as nat,
        ),
{
    let mut levels: Vec<PyramidLevel> = Vec::new();
    proof {
        assert(num * 0x80_0000 >= den * 0x80_0000) by (nonlinear_arith)
            requires
                num >= den,
        ;
        lemma_at_least(num * 0x80_0000, den as int);
        lemma_quotient(num * 0x80_0000, den as int);
        lemma_fundamental_div_mod(num * 0x80_0000, den as int);
        let (n, d) = (num * 0x80_0000, den as int);
        let q = n / d;
        assert(q <= n) by (nonlinear_arith)
            requires
                n == d * q + n % d,
                n % d >= 0,
                d >= 1,
                q >= 0,
        ;
    }
    let by: u128 = divide(num as u128 * 0x80_0000, den as u128);
    let mut scale: u128 = 0x80_0000;
    let mut lvl: usize = 0;
    while lvl < n_levels
        invariant
            lvl <= n_levels,
            base.covers(),
            base.width < MAX_SIDE,
            base.height < MAX_SIDE,
            1 <= den <= num,
            by == factor(num as int, den as int),
            0x80_0000 <= by <= 0x100_0000_0000_0000,
            scale == level_scale(num as int, den as int, lvl as nat),
            0x80_0000 <= scale <= MAX_MAGNITUDE,
            lvl == 0 ==> scale == 0x80_0000,
            levels@.len() == lvl,
            forall|l: int|
                0 <= l < lvl ==> #[trigger] is_level(
                    base,
                    num as int,
                    den as int,
                    l as nat,
                    levels@[l],
                ),
            forall|l: int|
                1 <= l < lvl ==> !#[trigger] level_too_small(
                    base,
                    num as int,
                    den as int,
                    l as nat,
                ),
        decreases n_levels - lvl,
    {
        let image: GrayImage = if lvl == 0 {
            base.copy()
        } else {
            let w: usize = side(base.width, scale);
            let h: usize = side(base.height, scale);
            if w < MIN_LEVEL_SIDE || h < MIN_LEVEL_SIDE {
                return levels;
            }
            proof {
                let (bw, bh) = (base.width as int, base.height as int);
                assert(w * h <= bw * bh) by (nonlinear_arith)
                    requires
                        0 <= w <= bw,
                        0 <= h <= bh,
                ;
            }
            base.resized(w, h)
        };
        let level = PyramidLevel { image, scale: scale as u64 };
        assert(is_level(base, num as int, den as int, lvl as nat, level));
        levels.push(level);
        scale = rescaled(scale, by);
        lvl = lvl + 1;
    }
    levels
}

// ── What resizing does ────────────────────────────────────────────────────────

/// The luma of a pixel is the byte at twice its number, where the data holds that byte and
/// the one behind it; otherwise it is 0.
pub proof fn law_luma_is_every_other_byte(yuyv: Seq<u8>, pixels: nat, i: int)
    requires
        0 <= i < pixels,
    ensures
        luma_plane(yuyv, pixels).len() == pixels,
        2 * i + 1 < yuyv.len() ==> luma_plane(yuyv, pixels)[i] == yuyv[2 * i],
        2 * i + 1 >= yuyv.len() ==> luma_plane(yuyv, pixels)[i] == 0,
{
}

proof fn lemma_single_monotone(m: int, n: int)
    requires
        m <= n,
    ensures
        single(m) <= single(n),
{
    lemma_single(m);
    lemma_single(n);
    if m >= 0 {
        lemma_quotient_monotone(m, n, 1);
    } else if n < 0 {
        lemma_quotient_monotone(-n, -m, 1);
    }
}

/// Whole levels are single-precision values in units and in squared units.
proof fn lemma_levels_are_single(k: int)
    requires
        -255 <= k <= 255,
    ensures
        single(k * UNIT) == k * UNIT,
        single(k * UNIT * UNIT) == k * UNIT * UNIT,
{
    let p = if k >= 0 {
        k as nat
    } else {
        (-k) as nat
    };
    vstd::arithmetic::power2::lemma2_to64_rest();
    vstd::arithmetic::power2::lemma_pow2_adds(57, 57);
    lemma_is_single(p, 57);
    lemma_is_single(p, 114);
    assert(p * (UNIT * UNIT) == p * UNIT * UNIT) by (nonlinear_arith);
}

proof fn lemma_same_position(o: int, n: int)
    requires
        0 <= o < n <= 0x80_0000,
    ensures
        source_pos(o, n, n) == o * UNIT,
        lower_sample(o, n, n) == o,
        upper_weight(o, n, n) == 0,
{
    vstd::arithmetic::power2::lemma2_to64_rest();
    lemma_single(o);
    lemma_single(2 * o + 1);
    lemma_single(n);
    lemma_single(0);
    lemma_common_factor(0x100_0000_0000_0000, n);
    assert(n * 0x100_0000_0000_0000 == single(n) * 0x100_0000_0000_0000);
    lemma_is_single(1, 56);
    assert(ratio(n, n) == 0x100_0000_0000_0000);
    lemma_is_single((2 * o + 1) as nat, 56);
    lemma_is_single((2 * o) as nat, 56);
    lemma_fundamental_div_mod_converse(o * UNIT, UNIT as int, o, 0);
}

proof fn lemma_blend_at_a_sample(p00: u8, p10: u8, p01: u8, p11: u8)
    ensures
        blended(p00 as int, p10 as int, p01 as int, p11 as int, 0, 0) == p00,
{
    lemma_single(0);
    assert((p10 - p00) * 0 == 0 && (p11 - p01) * 0 == 0);
    lemma_levels_are_single(p00 as int);
    lemma_levels_are_single(p01 as int);
    let d = single((p01 as int) * UNIT - (p00 as int) * UNIT);
    assert(d * 0 == 0);
    let u = UNIT * UNIT;
    assert(p00 * UNIT * UNIT == p00 * u) by (nonlinear_arith)
        requires
            u == UNIT * UNIT,
    ;
    assert(2 * (p00 * u) + u == p00 * (2 * u) + u) by (nonlinear_arith);
    lemma_fundamental_div_mod_converse(2 * (p00 * u) + u, 2 * u, p00 as int, u);
}

/// Resizing to the size that an image has leaves every pixel as it is.
pub proof fn law_resize_to_the_same_size(data: Seq<u8>, width: nat, height: nat)
    requires
        width <= 0x80_0000,
        height <= 0x80_0000,
        width * height <= data.len(),
    ensures
        resized_data(data, width as int, height as int, width, height) == data.take(
            (width * height) as int,
        ),
{
    let r = resized_data(data, width as int, height as int, width, height);
    assert forall|k: int| 0 <= k < width * height implies r[k] == #[trigger] data[k] by {
        assert(width >= 1) by (nonlinear_arith)
            requires
                0 < width * height,
        ;
        crate::camera::frame::lemma_cell_of(k, width as int, height as int);
        let (x, y) = (k % (width as int), k / (width as int));
        lemma_same_position(x, width as int);
        lemma_same_position(y, height as int);
        lemma_fundamental_div_mod(k, width as int);
        assert(y * width + x == k) by (nonlinear_arith)
            requires
                k == width * y + x,
        ;
        let (x1, y1) = (
            upper_sample(x, width as int, width as int),
            upper_sample(y, height as int, height as int),
        );
        lemma_blend_at_a_sample(
            data[y * width + x],
            data[y * width + x1],
            data[y1 * width + x],
            data[y1 * width + x1],
        );
    }
    assert(r =~= data.take((width * height) as int));
}

proof fn lemma_between_stays(a: int, b: int, w: int, lo: int, hi: int)
    requires
        0 <= lo <= a <= hi <= 255,
        lo <= b <= hi,
        0 <= w <= UNIT,
    ensures
        lo * UNIT <= between(a, b, w) <= hi * UNIT,
{
    let x = (b - a) * w;
    lemma_levels_are_single(b - a);
    lemma_levels_are_single(lo);
    lemma_levels_are_single(hi);
    lemma_single(0);
    if b >= a {
        assert(0 <= x <= (b - a) * UNIT) by (nonlinear_arith)
            requires
                x == (b - a) * w,
                b >= a,
                0 <= w <= UNIT,
        ;
        lemma_single_monotone(0, x);
        lemma_single_monotone(x, (b - a) * UNIT);
    } else {
        assert((b - a) * UNIT <= x <= 0) by (nonlinear_arith)
            requires
                x == (b - a) * w,
                b < a,
                0 <= w <= UNIT,
        ;
        lemma_single_monotone(x, 0);
        lemma_single_monotone((b - a) * UNIT, x);
    }
    let v = a * UNIT + single(x);
    assert(lo * UNIT <= v <= hi * UNIT);
    lemma_single_monotone(lo * UNIT, v);
    lemma_single_monotone(v, hi * UNIT);
}

proof fn lemma_weight(o: int, n_out: int, n_in: int)
    ensures
        0 <= upper_weight(o, n_out, n_in) <= UNIT,
{
    let rem = source_pos(o, n_out, n_in) % (UNIT as int);
    lemma_single(0);
    lemma_levels_are_single(1);
    lemma_single_monotone(0, rem);
    lemma_single_monotone(rem, UNIT as int);
}

/// What a blended level lies between, in squared units and before it is rounded.
proof fn lemma_blend_bounds(top: int, bot: int, wy: int, lo: int, hi: int)
    requires
        0 <= lo <= hi <= 255,
        lo * UNIT <= top <= hi * UNIT,
        lo * UNIT <= bot <= hi * UNIT,
        0 <= wy <= UNIT,
    ensures
        ({
            let v = single(top * UNIT + single(single(bot - top) * wy));
            &&& 2 * v < 2 * (hi * UNIT * UNIT) + UNIT * UNIT
            &&& 2 * v >= 2 * (lo * UNIT * UNIT) - UNIT * UNIT
        }),
{
    let diff = bot - top;
    let d = single(diff);
    let x = d * wy;
    lemma_single(diff);
    lemma_single(x);
    if diff >= 0 {
        assert(0 <= x <= d * UNIT) by (nonlinear_arith)
            requires
                x == d * wy,
                d >= 0,
                0 <= wy <= UNIT,
        ;
    } else {
        assert(d * UNIT <= x <= 0) by (nonlinear_arith)
            requires
                x == d * wy,
                d <= 0,
                0 <= wy <= UNIT,
        ;
    }
    let s = top * UNIT + single(x);
    law_single_is_near(s);
    let u = UNIT * UNIT;
    assert(hi * UNIT * UNIT == hi * u && lo * UNIT * UNIT == lo * u) by (nonlinear_arith)
        requires
            u == UNIT * UNIT,
    ;
    assert(lo * u <= top * UNIT <= hi * u);
    assert(lo * u <= bot * UNIT <= hi * u);
}

/// Resizing invents no level: where all pixels lie between two levels, so do those of the
/// resized image.
pub proof fn law_resize_stays_within(
    data: Seq<u8>,
    width: int,
    height: int,
    w: nat,
    h: nat,
    lo: u8,
    hi: u8,
)
    requires
        1 <= width,
        1 <= height,
        width * height <= data.len(),
        1 <= w,
        1 <= h,
        lo <= hi,
        forall|i: int| 0 <= i < width * height ==> lo <= #[trigger] data[i] <= hi,
    ensures
        forall|k: int|
            0 <= k < w * h ==> lo <= #[trigger] resized_data(data, width, height, w, h)[k] <= hi,
{
    assert forall|k: int| 0 <= k < w * h implies lo <= #[trigger] resized_data(
        data,
        width,
        height,
        w,
        h,
    )[k] <= hi by {
        crate::camera::frame::lemma_cell_of(k, w as int, h as int);
        let (ox, oy) = (k % (w as int), k / (w as int));
        lemma_lower(ox, w as int, width);
        lemma_lower(oy, h as int, height);
        let (x0, x1) = (lower_sample(ox, w as int, width), upper_sample(ox, w as int, width));
        let (y0, y1) = (lower_sample(oy, h as int, height), upper_sample(oy, h as int, height));
        lemma_row_index(x0, y0, width, height);
        lemma_row_index(x1, y0, width, height);
        lemma_row_index(x0, y1, width, height);
        lemma_row_index(x1, y1, width, height);
        lemma_blended_stays(
            data[y0 * width + x0] as int,
            data[y0 * width + x1] as int,
            data[y1 * width + x0] as int,
            data[y1 * width + x1] as int,
            ox,
            oy,
            (w as int, width),
            (h as int, height),
            lo as int,
            hi as int,
        );
    }
}

proof fn lemma_blended_stays(
    p00: int,
    p10: int,
    p01: int,
    p11: int,
    ox: int,
    oy: int,
    across: (int, int),
    down: (int, int),
    lo: int,
    hi: int,
)
    requires
        0 <= lo <= p00 <= hi <= 255,
        lo <= p10 <= hi,
        lo <= p01 <= hi,
        lo <= p11 <= hi,
    ensures
        lo <= blended(
            p00,
            p10,
            p01,
            p11,
            upper_weight(ox, across.0, across.1),
            upper_weight(oy, down.0, down.1),
        ) <= hi,
{
    let wx = upper_weight(ox, across.0, across.1);
    let wy = upper_weight(oy, down.0, down.1);
    lemma_weight(ox, across.0, across.1);
    lemma_weight(oy, down.0, down.1);
    lemma_between_stays(p00, p10, wx, lo, hi);
    lemma_between_stays(p01, p11, wx, lo, hi);
    let (top, bot) = (between(p00, p10, wx), between(p01, p11, wx));
    lemma_blend_bounds(top, bot, wy, lo, hi);
    let v = single(top * UNIT + single(single(bot - top) * wy));
    let u = UNIT * UNIT;
    assert(hi * UNIT * UNIT == hi * u && lo * UNIT * UNIT == lo * u) by (nonlinear_arith)
        requires
            u == UNIT * UNIT,
    ;
    law_nearest(v, u);
    let q = nearest(v, u);
    if v < 0 {
        assert(lo * u <= 0 ==> lo <= 0) by (nonlinear_arith)
            requires
                u > 0,
        ;
        assert(2 * (lo * u) < 2 * u ==> lo < 1) by (nonlinear_arith)
            requires
                u > 0,
        ;
    } else {
        assert(q <= hi) by (nonlinear_arith)
            requires
                2 * (v - u * q) >= -u,
                2 * v < 2 * (hi * u) + u,
                u > 0,
        ;
        assert(q >= lo) by (nonlinear_arith)
            requires
                2 * (v - u * q) < u,
                2 * v >= 2 * (lo * u) - u,
                u > 0,
        ;
    }
}

/// Pixel centres map onto pixel centres: output sample `o` of `n_out` lies over the place
/// `(2 o + 1) n_in / (2 n_out) - 1/2` of the input, up to one part in 2^22 of the way, and
/// over the first sample where that place is left of it.
pub proof fn law_centres_map_onto_centres(o: int, n_out: int, n_in: int)
    requires
        0 <= o < n_out <= 0x80_0000,
        1 <= n_in <= 0x80_0000,
    ensures
        ({
            let p = source_pos(o, n_out, n_in);
            let way = ((2 * o + 1) * n_in) * 0x100_0000_0000_0000;
            let place = way - n_out * 0x100_0000_0000_0000;
            &&& p >= 0
            &&& 0x40_0000 * (place - n_out * p) <= way
            &&& p > 0 ==> 0x40_0000 * (n_out * p - place) <= way
        }),
{
    let (a, b, c) = (n_in, n_out, 2 * o + 1);
    let m = 0x100_0000_0000_0000int;
    lemma_single(o);
    lemma_single(c);
    lemma_single(a);
    lemma_single(b);
    let r = ratio(a, b);
    assert(a * m >= 0x100_0000 * b);
    law_quotient_is_near(a * m, b);
    lemma_quotient(a * m, b);
    let y = (c * a) * m;
    let x = c * (b * r);
    assert(-y <= 0x100_0000 * (x - y) <= y) by (nonlinear_arith)
        requires
            -(a * m) <= 0x100_0000 * (b * r - a * m) <= a * m,
            y == (c * a) * m,
            x == c * (b * r),
            c >= 1,
    ;
    assert(c * r >= 0) by (nonlinear_arith)
        requires
            c >= 1,
            r >= 0,
    ;
    law_single_is_near(c * r);
    let q = single(c * r);
    let z = b * q;
    assert(x == b * (c * r)) by (nonlinear_arith)
        requires
            x == c * (b * r),
    ;
    assert(-x <= 0x100_0000 * (z - x) <= x) by (nonlinear_arith)
        requires
            -(c * r) <= 0x100_0000 * (q - c * r) <= c * r,
            x == b * (c * r),
            z == b * q,
            b >= 1,
    ;
    let p0 = q - m;
    law_single_is_near(p0);
    let p = single(p0);
    assert(b * p0 == z - b * m) by (nonlinear_arith)
        requires
            z == b * q,
            p0 == q - m,
    ;
    assert(b * m >= m) by (nonlinear_arith)
        requires
            b >= 1,
            m >= 0,
    ;
    if p0 >= 0 {
        assert(-(b * p0) <= 0x100_0000 * (b * p - b * p0) <= b * p0) by (nonlinear_arith)
            requires
                -p0 <= 0x100_0000 * (p - p0) <= p0,
                b >= 1,
        ;
    } else {
        assert(z <= b * m) by (nonlinear_arith)
            requires
                z == b * q,
                q <= m,
                b >= 1,
        ;
        assert(source_pos(o, n_out, n_in) == 0);
        assert(n_out * 0 == 0);
    }
}

/// The two samples of a place are the one at or left of it and the next one, as far as there
/// is one; the weight of the next one is how far the place is from the first, up to one part
/// in 2^24.
pub proof fn law_samples_around_a_place(o: int, n_out: int, n_in: int)
    requires
        n_in >= 1,
    ensures
        ({
            let p = source_pos(o, n_out, n_in);
            let (i, j) = (lower_sample(o, n_out, n_in), upper_sample(o, n_out, n_in));
            let w = upper_weight(o, n_out, n_in);
            let rest = p - i * 0x200_0000_0000_0000;
            &&& p < n_in * 0x200_0000_0000_0000 ==> 0 <= rest < 0x200_0000_0000_0000 && -rest
                <= 0x100_0000 * (w - rest) <= rest
            &&& p >= n_in * 0x200_0000_0000_0000 ==> i == n_in - 1
            &&& i < n_in - 1 ==> j == i + 1
            &&& i >= n_in - 1 ==> j == n_in - 1
        }),
{
    let p = source_pos(o, n_out, n_in);
    let rest = p % (UNIT as int);
    lemma_fundamental_div_mod(p, UNIT as int);
    law_single_is_near(rest);
}

/// A step between two levels in single precision, against the exact one.
proof fn lemma_between_near(a: int, b: int, w: int)
    requires
        0 <= a <= 255,
        0 <= b <= 255,
        0 <= w <= UNIT,
    ensures
        -512 * UNIT <= 0x100_0000 * (between(a, b, w) - (a * UNIT + (b - a) * w)) <= 512 * UNIT,
        0 <= a * UNIT + (b - a) * w <= 255 * UNIT,
{
    let x = (b - a) * w;
    assert(-(a * UNIT) <= x <= (255 - a) * UNIT) by (nonlinear_arith)
        requires
            x == (b - a) * w,
            0 <= a <= 255,
            0 <= b <= 255,
            0 <= w <= UNIT,
    ;
    law_single_is_near(x);
    let v = a * UNIT + single(x);
    law_single_is_near(v);
}

proof fn lemma_blend_near(p00: int, p10: int, p01: int, p11: int, wx: int, wy: int)
    requires
        0 <= p00 <= 255,
        0 <= p10 <= 255,
        0 <= p01 <= 255,
        0 <= p11 <= 255,
        0 <= wx <= UNIT,
        0 <= wy <= UNIT,
    ensures
        ({
            let (top, bot) = (between(p00, p10, wx), between(p01, p11, wx));
            let v = single(top * UNIT + single(single(bot - top) * wy));
            let (t, b) = (p00 * UNIT + (p10 - p00) * wx, p01 * UNIT + (p11 - p01) * wx);
            let exact = t * UNIT + (b - t) * wy;
            -(UNIT * UNIT) <= 0x2000 * (v - exact) <= UNIT * UNIT && 0 <= exact
        }),
{
    lemma_between_near(p00, p10, wx);
    lemma_between_near(p01, p11, wx);
    lemma_between_stays(p00, p10, wx, 0, 255);
    lemma_between_stays(p01, p11, wx, 0, 255);
    let (top, bot) = (between(p00, p10, wx), between(p01, p11, wx));
    let (t, b) = (p00 * UNIT + (p10 - p00) * wx, p01 * UNIT + (p11 - p01) * wx);
    let u = UNIT * UNIT;
    let exact = t * UNIT + (b - t) * wy;
    let (et, eb) = (top - t, bot - b);
    let rough = top * UNIT + (bot - top) * wy;
    assert(rough - exact == et * (UNIT - wy) + eb * wy) by (nonlinear_arith)
        requires
            rough == top * UNIT + (bot - top) * wy,
            exact == t * UNIT + (b - t) * wy,
            et == top - t,
            eb == bot - b,
    ;
    assert(exact == t * (UNIT - wy) + b * wy) by (nonlinear_arith)
        requires
            exact == t * UNIT + (b - t) * wy,
    ;
    let (f, g) = (UNIT - wy, wy as int);
    assert(t * f >= 0 && b * g >= 0) by (nonlinear_arith)
        requires
            t >= 0,
            b >= 0,
            f >= 0,
            g >= 0,
    ;
    assert(-(512 * UNIT) * f <= 0x100_0000 * (et * f) <= (512 * UNIT) * f) by (nonlinear_arith)
        requires
            -(512 * UNIT) <= 0x100_0000 * et <= 512 * UNIT,
            f >= 0,
    ;
    assert(-(512 * UNIT) * g <= 0x100_0000 * (eb * g) <= (512 * UNIT) * g) by (nonlinear_arith)
        requires
            -(512 * UNIT) <= 0x100_0000 * eb <= 512 * UNIT,
            g >= 0,
    ;
    assert(f + g == UNIT);
    assert(-512 * u <= 0x100_0000 * (rough - exact) <= 512 * u);
    let diff = bot - top;
    law_single_is_near(diff);
    let d = single(diff);
    let x = d * wy;
    let e = d - diff;
    assert(x == diff * wy + e * wy) by (nonlinear_arith)
        requires
            x == d * wy,
            e == d - diff,
    ;
    assert(-(255 * UNIT) <= 0x100_0000 * e <= 255 * UNIT);
    assert(-(255 * UNIT) * UNIT <= 0x100_0000 * (e * wy) <= (255 * UNIT) * UNIT) by (nonlinear_arith)
        requires
            -(255 * UNIT) <= 0x100_0000 * e <= 255 * UNIT,
            0 <= wy <= UNIT,
    ;
    assert(-(256 * UNIT) * UNIT <= x <= (256 * UNIT) * UNIT) by (nonlinear_arith)
        requires
            x == d * wy,
            -(256 * UNIT) <= d <= 256 * UNIT,
            0 <= wy <= UNIT,
    ;
    law_single_is_near(x);
    let s = top * UNIT + single(x);
    law_single_is_near(s);
}

/// A resized pixel is the mean of its four samples by the weights, to the nearest level but
/// for one part in four thousand of a level: the weight of the right samples is `wx` and that
/// of the lower ones `wy`, out of 2^57.
pub proof fn law_blend_weighs_its_samples(p00: u8, p10: u8, p01: u8, p11: u8, wx: int, wy: int)
    requires
        0 <= wx <= 0x200_0000_0000_0000,
        0 <= wy <= 0x200_0000_0000_0000,
    ensures
        ({
            let unit = 0x200_0000_0000_0000int;
            let v = blended(p00 as int, p10 as int, p01 as int, p11 as int, wx, wy);
            let upper = p00 * (unit - wx) + p10 * wx;
            let lower = p01 * (unit - wx) + p11 * wx;
            let exact = upper * (unit - wy) + lower * wy;
            let whole = unit * unit;
            -4097 * whole <= 8192 * (v * whole - exact) <= 4097 * whole
        }),
{
    let unit = 0x200_0000_0000_0000int;
    lemma_blend_near(p00 as int, p10 as int, p01 as int, p11 as int, wx, wy);
    let (top, bot) = (between(p00 as int, p10 as int, wx), between(p01 as int, p11 as int, wx));
    let n = single(top * UNIT + single(single(bot - top) * wy));
    lemma_between_stays(p00 as int, p10 as int, wx, 0, 255);
    lemma_between_stays(p01 as int, p11 as int, wx, 0, 255);
    lemma_blend_bounds(top, bot, wy, 0, 255);
    let u = unit * unit;
    law_nearest(n, u);
    let q = nearest(n, u);
    assert(n >= 0 ==> q <= 255) by (nonlinear_arith)
        requires
            n >= 0 ==> 2 * (n - u * q) >= -u,
            2 * n < 2 * (255 * u) + u,
            u > 0,
    ;
    let v = blended(p00 as int, p10 as int, p01 as int, p11 as int, wx, wy);
    assert(v == q);
    assert(v * u == u * q) by (nonlinear_arith)
        requires
            v == q,
    ;
    let upper = p00 * (unit - wx) + p10 * wx;
    let lower = p01 * (unit - wx) + p11 * wx;
    let exact = upper * (unit - wy) + lower * wy;
    let (t, b) = (p00 * unit + (p10 - p00) * wx, p01 * unit + (p11 - p01) * wx);
    assert(upper == t && lower == b) by (nonlinear_arith)
        requires
            upper == p00 * (unit - wx) + p10 * wx,
            lower == p01 * (unit - wx) + p11 * wx,
            t == p00 * unit + (p10 - p00) * wx,
            b == p01 * unit + (p11 - p01) * wx,
    ;
    assert(exact == t * unit + (b - t) * wy) by (nonlinear_arith)
        requires
            exact == t * (unit - wy) + b * wy,
    ;
}

/// Each level is `num / den` times smaller than the one before, up to one part in 2^21, and
/// level 0 is not scaled.
pub proof fn law_each_level_is_smaller(num: int, den: int, lvl: nat)
    requires
        1 <= den <= num,
    ensures
        level_scale(num, den, 0) == 0x80_0000,
        ({
            let (now, next) = (level_scale(num, den, lvl), level_scale(num, den, lvl + 1));
            -(num * now) <= 0x20_0000 * (den * next - num * now) <= num * now
        }),
{
    lemma_level_scale(num, den, lvl);
    let one = 0x80_0000int;
    let now = level_scale(num, den, lvl);
    let next = level_scale(num, den, lvl + 1);
    let f = factor(num, den);
    assert(num * one >= den * one) by (nonlinear_arith)
        requires
            num >= den,
            one >= 0,
    ;
    lemma_near_quotient(num * one, den);
    lemma_at_least(num * one, den);
    assert(now * f >= one * one) by (nonlinear_arith)
        requires
            now >= one,
            f >= one,
            one >= 0,
    ;
    lemma_near_quotient(now * f, one);
    assert(next == quotient(now * f, one));
    let (x, y) = (now * (den * f), now * (num * one));
    assert(-y <= 0x80_0000 * (x - y) <= y) by (nonlinear_arith)
        requires
            -(num * one) <= 0x80_0000 * (den * f - num * one) <= num * one,
            x == now * (den * f),
            y == now * (num * one),
            now >= 1,
    ;
    let z = den * (one * next);
    assert(-x <= 0x80_0000 * (z - x) <= x) by (nonlinear_arith)
        requires
            -(now * f) <= 0x80_0000 * (one * next - now * f) <= now * f,
            x == now * (den * f),
            z == den * (one * next),
            den >= 1,
    ;
    assert(z == one * (den * next) && y == one * (num * now)) by (nonlinear_arith)
        requires
            z == den * (one * next),
            y == now * (num * one),
    ;
    let (v, w) = (den * next, num * now);
    assert(w >= 1) by (nonlinear_arith)
        requires
            w == num * now,
            num >= 1,
            now >= 1,
    ;
}

/// A quotient of at least 2^23 is off by at most one part in 2^23.
proof fn lemma_near_quotient(n: int, d: int)
    requires
        d > 0,
        n >= d * 0x80_0000,
    ensures
        -n <= 0x80_0000 * (d * quotient(n, d) - n) <= n,
{
    law_quotient_is_near(n, d);
}

/// The side of a level is the image's divided by the level's factor, to the nearest pixel but
/// for one part in 2^23 of it and of a pixel.
pub proof fn law_side_of_a_level(n: int, num: int, den: int, lvl: nat)
    requires
        0 <= n < 0x100_0000,
        1 <= den <= num,
    ensures
        ({
            let side = level_side(n, num, den, lvl);
            let scale = level_scale(num, den, lvl);
            let whole = n * 0x80_0000;
            &&& 0x80_0000 * (side * scale - whole) <= 0x40_0001 * scale + whole
            &&& 0x80_0000 * (whole - side * scale) <= 0x40_0001 * scale + whole
        }),
{
    lemma_level_scale(num, den, lvl);
    let scale = level_scale(num, den, lvl);
    lemma_single(n);
    let k = n * 0x4000_0000_0000_0000;
    let q = quotient(k, scale);
    law_quotient_is_near(k, scale);
    lemma_quotient(k, scale);
    law_nearest(q, 0x80_0000_0000);
    let side = nearest(q, 0x80_0000_0000);
    if n >= 1 {
        if k < 0x100_0000 * scale {
            lemma_small_side(n, scale, q, side);
        } else {
            lemma_side(n, scale, q, side);
        }
    } else {
        assert(k == 0);
        lemma_quotient_at_most(0, scale, 0);
        assert(q == 0);
        assert(side == 0);
        assert(0 * scale == 0);
    }
}

proof fn lemma_side(n: int, scale: int, q: int, side: int)
    requires
        n >= 1,
        scale >= 0x80_0000,
        -(n * 0x4000_0000_0000_0000) <= 0x100_0000 * (scale * q - n * 0x4000_0000_0000_0000)
            <= n * 0x4000_0000_0000_0000,
        -0x80_0000_0000 <= 2 * (q - 0x80_0000_0000 * side) < 0x80_0000_0000,
    ensures
        0x80_0000 * (side * scale - n * 0x80_0000) <= 0x40_0001 * scale + n * 0x80_0000,
        0x80_0000 * (n * 0x80_0000 - side * scale) <= 0x40_0001 * scale + n * 0x80_0000,
{
    let (s, t) = (scale * q, side * scale);
    assert(-0x80_0000_0000 * scale <= 2 * (s - 0x80_0000_0000 * t) <= 0x80_0000_0000 * scale)
        by (nonlinear_arith)
        requires
            -0x80_0000_0000 <= 2 * (q - 0x80_0000_0000 * side) < 0x80_0000_0000,
            s == scale * q,
            t == side * scale,
            scale >= 1,
    ;
}

proof fn lemma_small_side(n: int, scale: int, q: int, side: int)
    requires
        n >= 1,
        0x80_0000 <= scale,
        -scale <= 2 * (scale * q - n * 0x4000_0000_0000_0000) <= scale,
        -0x80_0000_0000 <= 2 * (q - 0x80_0000_0000 * side) < 0x80_0000_0000,
    ensures
        0x80_0000 * (side * scale - n * 0x80_0000) <= 0x40_0001 * scale + n * 0x80_0000,
        0x80_0000 * (n * 0x80_0000 - side * scale) <= 0x40_0001 * scale + n * 0x80_0000,
{
    let (s, t) = (scale * q, side * scale);
    assert(-0x80_0000_0000 * scale <= 2 * (s - 0x80_0000_0000 * t) <= 0x80_0000_0000 * scale)
        by (nonlinear_arith)
        requires
            -0x80_0000_0000 <= 2 * (q - 0x80_0000_0000 * side) < 0x80_0000_0000,
            s == scale * q,
            t == side * scale,
            scale >= 1,
    ;
}

/// A level is built only where it is at least 8 pixels wide and 8 pixels high.
pub proof fn law_smallest_level(base: GrayImage, num: int, den: int, lvl: nat)
    ensures
        level_too_small(base, num, den, lvl) <==> level_side(base.width as int, num, den, lvl) < 8
            || level_side(base.height as int, num, den, lvl) < 8,
{
}

/// Level 0 of a pyramid is the image itself; every other one is the image resized to the
/// sides of the level.
pub proof fn law_what_a_level_holds(
    base: GrayImage,
    num: int,
    den: int,
    lvl: nat,
    level: PyramidLevel,
)
    requires
        is_level(base, num, den, lvl, level),
    ensures
        lvl == 0 ==> level.scale == 0x80_0000 && level.image.width == base.width
            && level.image.height == base.height && level.image.data@ == base.data@,
        lvl > 0 ==> level.image.width == level_side(base.width as int, num, den, lvl)
            && level.image.height == level_side(base.height as int, num, den, lvl)
            && level.image.data@.len() == level.image.width * level.image.height && level.scale
            == level_scale(num, den, lvl),
        forall|x: int, y: int|
            lvl > 0 && 0 <= x < level.image.width && 0 <= y < level.image.height
                ==> #[trigger] level.image.pixel(x, y) == bilinear(
                base.data@,
                base.width as int,
                base.height as int,
                level.image.width as int,
                level.image.height as int,
                x,
                y,
            ) as u8,
{
    if lvl > 0 {
        assert forall|x: int, y: int|
            0 <= x < level.image.width && 0 <= y
                < level.image.height implies #[trigger] level.image.pixel(x, y) == bilinear(
            base.data@,
            base.width as int,
            base.height as int,
            level.image.width as int,
            level.image.height as int,
            x,
            y,
        ) as u8 by {
            lemma_row_index(x, y, level.image.width as int, level.image.height as int);
        }
    }
}

} // verus!
