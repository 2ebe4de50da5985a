//! A captured YUYV frame and its conversions.
use crate::single::{
    divide, law_quotient_is_near, law_single_is_near, lemma_common_factor, lemma_is_single,
    lemma_quotient, lemma_quotient_at_most, lemma_single, lemma_spacing, quotient, ratio, round,
    single, spacing,
};
use vstd::arithmetic::div_mod::lemma_fundamental_div_mod;
use vstd::arithmetic::power2::{lemma2_to64, lemma2_to64_rest, lemma_pow2_adds, pow2};
use vstd::prelude::*;

verus! {

/// One captured frame.
pub struct Frame {
    pub width: u32,
    pub height: u32,
    /// Frame counter value, as burned into the marker.
    pub id: u64,
    /// Raw YUYV bytes: 2 bytes per pixel, `[Y0 U Y1 V]` per 4-byte group.
    pub data: Vec<u8>,
}

// ── Colour model ──────────────────────────────────────────────────────────────

/// Thousandths, rounded towards zero.
pub open spec fn milli(n: int) -> int {
    if n >= 0 {
        n / 1000
    } else {
        -((-n) / 1000)
    }
}

pub open spec fn clamped(n: int) -> u8 {
    if n < 0 {
        0
    } else if n > 255 {
        255
    } else {
        n as u8
    }
}

/// BT.601 red of a sample.
pub open spec fn red(y: int, u: int, v: int) -> u8 {
    clamped(y + milli(1402 * (v - 128)))
}

/// BT.601 green of a sample.
pub open spec fn green(y: int, u: int, v: int) -> u8 {
    clamped(y - milli(344 * (u - 128)) - milli(714 * (v - 128)))
}

/// BT.601 blue of a sample.
pub open spec fn blue(y: int, u: int, v: int) -> u8 {
    clamped(y + milli(1772 * (u - 128)))
}

/// Channel `ch` (red, green, blue) of a YUV sample.
pub open spec fn channel(y: int, u: int, v: int, ch: int) -> u8 {
    if ch == 0 {
        red(y, u, v)
    } else if ch == 1 {
        green(y, u, v)
    } else {
        blue(y, u, v)
    }
}

/// Channel `ch` of pixel `k` in YUYV data. Two pixels share one 4-byte group;
/// the last pixel of an odd count has no group and stays black.
pub open spec fn pixel_channel(data: Seq<u8>, pixels: int, k: int, ch: int) -> u8 {
    let g = (k / 2) * 4;
    if g + 4 > pixels * 2 {
        0
    } else {
        channel(data[g + 2 * (k % 2)] as int, data[g + 1] as int, data[g + 3] as int, ch)
    }
}

/// Packed RGB of the first `pixels` pixels of YUYV data.
pub open spec fn rgb_of(data: Seq<u8>, pixels: nat) -> Seq<u8> {
    Seq::new(pixels * 3, |p: int| pixel_channel(data, pixels as int, p / 3, p % 3))
}

/// Source sample of output sample `d` where a side of `src` samples becomes one of
/// `dst`, in single precision.
pub open spec fn source_index(d: int, src: int, dst: int) -> int {
    single(single(d) * ratio(src, dst)) / 0x100_0000_0000_0000
}

/// Start of the 4-byte group that output pixel `(dx, dy)` of a `dw` x `dh`
/// reduction reads.
pub open spec fn source_group(sw: int, sh: int, dw: int, dh: int, dx: int, dy: int) -> int {
    (source_index(dy, sh, dh) * sw + source_index(dx, sw, dw)) / 2 * 4
}

/// Channel `ch` of the source pixel that output pixel `(dx, dy)` of a
/// `dw` x `dh` reduction samples.
pub open spec fn sampled_channel(
    data: Seq<u8>,
    sw: int,
    sh: int,
    dw: int,
    dh: int,
    dx: int,
    dy: int,
    ch: int,
) -> u8 {
    let g = source_group(sw, sh, dw, dh, dx, dy);
    let y = data[g + 2 * (source_index(dx, sw, dw) % 2)];
    channel(y as int, data[g + 1] as int, data[g + 3] as int, ch)
}

/// Packed RGB of a `dw` x `dh` reduction.
pub open spec fn scaled_rgb(data: Seq<u8>, sw: int, sh: int, dw: nat, dh: nat) -> Seq<u8> {
    Seq::new(
        dw * dh * 3,
        |p: int|
            sampled_channel(
                data,
                sw,
                sh,
                dw as int,
                dh as int,
                (p / 3) % (dw as int),
                (p / 3) / (dw as int),
                p % 3,
            ),
    )
}

/// Every pixel that a `dw` x `dh` reduction samples lies in the data. Where the sides
/// are in the range of exact single-precision counts, whole groups for all pixels are
/// enough.
pub open spec fn covers(len: int, sw: int, sh: int, dw: int, dh: int) -> bool {
    ||| {
        &&& 1 <= sw < 0x100_0000
        &&& 1 <= sh < 0x100_0000
        &&& dw <= 0x80_0000
        &&& dh <= 0x80_0000
        &&& (sw * sh + 1) / 2 * 4 <= len
    }
    ||| forall|dx: int, dy: int|
        0 <= dx < dw && 0 <= dy < dh ==> #[trigger] source_group(sw, sh, dw, dh, dx, dy) + 4 <= len
}

/// Decimal digits of a number.
pub open spec fn decimal(n: nat) -> Seq<u8>
    decreases n,
{
    if n < 10 {
        seq![(48 + n) as u8]
    } else {
        decimal(n / 10).push((48 + n % 10) as u8)
    }
}

/// Header of a binary PPM file.
pub open spec fn ppm_header(width: nat, height: nat) -> Seq<u8> {
    seq![80u8, 54u8, 10u8] + decimal(width) + seq![32u8] + decimal(height) + seq![
        10u8,
        50u8,
        53u8,
        53u8,
        10u8,
    ]
}

// ── Conversions ───────────────────────────────────────────────────────────────

fn div_milli(n: i32) -> (r: i32)
    requires
        -1_000_000 <= n <= 1_000_000,
    ensures
        r == milli(n as int),
        -1000 <= r <= 1000,
{
    if n >= 0 {
        n / 1000
    } else {
        let m: i32 = -n;
        -(m / 1000)
    }
}

fn clamp_byte(n: i32) -> (r: u8)
    ensures
        r == clamped(n as int),
{
    if n < 0 {
        0
    } else if n > 255 {
        255
    } else {
        n as u8
    }
}

/// RGB of one YUV sample.
fn yuv_pixel(y: u8, u: u8, v: u8) -> (r: (u8, u8, u8))
    ensures
        r.0 == red(y as int, u as int, v as int),
        r.1 == green(y as int, u as int, v as int),
        r.2 == blue(y as int, u as int, v as int),
{
    let (y, u, v): (i32, i32, i32) = (y as i32, u as i32, v as i32);
    (
        clamp_byte(y + div_milli(1402 * (v - 128))),
        clamp_byte(y - div_milli(344 * (u - 128)) - div_milli(714 * (v - 128))),
        clamp_byte(y + div_milli(1772 * (u - 128))),
    )
}

/// Decimal digits of `n`.
pub fn decimal_bytes(n: u32) -> (r: Vec<u8>)
    ensures
        r@ == decimal(n as nat),
    decreases n,
{
    if n < 10 {
        let mut v: Vec<u8> = Vec::new();
        v.push(48 + n as u8);
        assert(v@ =~= decimal(n as nat));
        v
    } else {
        let mut v: Vec<u8> = decimal_bytes(n / 10);
        v.push(48 + (n % 10) as u8);
        v
    }
}

fn append(out: &mut Vec<u8>, tail: &Vec<u8>)
    ensures
        final(out)@ == old(out)@ + tail@,
{
    let ghost head = out@;
    let mut i: usize = 0;
    while i < tail.len()
        invariant
            i <= tail@.len(),
            out@ == head + tail@.take(i as int),
        decreases tail@.len() - i,
    {
        out.push(tail[i]);
        i = i + 1;
        assert(tail@.take(i as int) =~= tail@.take(i - 1).push(tail@[i - 1]));
    }
    assert(tail@.take(i as int) =~= tail@);
}

/// The scale `num / den` in single precision, in units of 2^-55.
pub open spec fn scale_of(num: int, den: int) -> int {
    quotient(num * 0x80_0000_0000_0000, den)
}

/// A side of a frame at the scale `num / den`, at least one pixel.
pub open spec fn scaled_side(side: int, num: int, den: int) -> int {
    let n = single(single(side) * scale_of(num, den)) / 0x80_0000_0000_0000;
    if n < 1 {
        1
    } else {
        n
    }
}

/// A quotient of two positive numbers, the divisor at least 1, is at most twice the
/// dividend and one.
proof fn lemma_quotient_bound(n: int, d: int)
    requires
        n >= 0,
        d >= 1,
    ensures
        0 <= quotient(n, d) <= 2 * n + 1,
{
    lemma_quotient(n, d);
    lemma_fundamental_div_mod(n, d);
    let q = n / d;
    assert(q <= n) by (nonlinear_arith)
        requires
            n == d * q + n % d,
            n % d >= 0,
            d >= 1,
            q >= 0,
    ;
}

fn side_at(side: u32, num: u32, den: u32) -> (r: u32)
    requires
        den > 0,
        scaled_side(side as int, num as int, den as int) <= u32::MAX,
    ensures
        r == scaled_side(side as int, num as int, den as int),
        r >= 1,
{
    proof {
        lemma_quotient_bound(num * 0x80_0000_0000_0000, den as int);
        lemma_single(side as int);
        let (a, b) = (single(side as int), scale_of(num as int, den as int));
        assert(0 <= a * b <= 0x2_0000_0000 * 0x200_0000_0000_0000_0000_0000) by (nonlinear_arith)
            requires
                0 <= a <= 0x2_0000_0000,
                0 <= b <= 0x200_0000_0000_0000_0000_0000,
        ;
    }
    let scale: i128 = divide(num as u128 * 0x80_0000_0000_0000, den as u128) as i128;
    let n: i128 = round(round(side as i128) * scale) / 0x80_0000_0000_0000;
    if n < 1 {
        1
    } else {
        n as u32
    }
}

/// Source sample of an output sample.
fn index_at(d: u32, src: u32, dst: u32) -> (r: i128)
    requires
        dst >= 1,
    ensures
        r == source_index(d as int, src as int, dst as int),
        0 <= r <= 0x40_0000_0000_0000_0000,
{
    proof {
        lemma_single(d as int);
        lemma_single(src as int);
        lemma_single(dst as int);
        lemma_quotient_bound(
            single(src as int) * 0x100_0000_0000_0000,
            single(dst as int),
        );
        let (a, b) = (single(d as int), ratio(src as int, dst as int));
        assert(0 <= a * b <= 0x2_0000_0000 * 0x800_0000_0000_0000_0000_0000) by (nonlinear_arith)
            requires
                0 <= a <= 0x2_0000_0000,
                0 <= b <= 0x800_0000_0000_0000_0000_0000,
        ;
    }
    let a: i128 = round(src as i128);
    let b: i128 = round(dst as i128);
    let step: i128 = divide(a as u128 * 0x100_0000_0000_0000, b as u128) as i128;
    round(round(d as i128) * step) / 0x100_0000_0000_0000
}

impl Frame {
    /// Number of pixels.
    pub open spec fn pixels(&self) -> nat {
        self.width as nat * self.height as nat
    }

    /// Convert YUYV to packed RGB (3 bytes per pixel, row-major).
    pub fn to_rgb(&self) -> (r: Vec<u8>)
        requires
            self.pixels() * 3 <= usize::MAX,
            self.pixels() * 2 <= self.data@.len(),
        ensures
            r@ == rgb_of(self.data@, self.pixels()),
    {
        let w: usize = self.width as usize;
        let h: usize = self.height as usize;
        let n: usize = w * h;
        let mut rgb: Vec<u8> = Vec::new();
        let mut k: usize = 0;
        while k < n
            invariant
                k <= n,
                n == self.pixels(),
                n * 3 <= usize::MAX,
                n * 2 <= self.data@.len(),
                rgb@.len() == 3 * k,
                forall|p: int|
                    0 <= p < 3 * k ==> #[trigger] rgb@[p] == pixel_channel(
                        self.data@,
                        n as int,
                        p / 3,
                        p % 3,
                    ),
            decreases n - k,
        {
            let g: usize = (k / 2) * 4;
            let (r, gr, b): (u8, u8, u8) = if g + 4 > n * 2 {
                (0, 0, 0)
            } else {
                yuv_pixel(self.data[g + 2 * (k % 2)], self.data[g + 1], self.data[g + 3])
            };
            rgb.push(r);
            rgb.push(gr);
            rgb.push(b);
            k = k + 1;
        }
        assert(rgb@ =~= rgb_of(self.data@, self.pixels()));
        rgb
    }

    /// RGB of the source pixel that output pixel `(dx, dy)` of a reduction samples.
    fn sample(&self, dw: u32, dh: u32, dx: u32, dy: u32) -> (r: (u8, u8, u8))
        requires
            dx < dw,
            dy < dh,
            covers(
                self.data@.len() as int,
                self.width as int,
                self.height as int,
                dw as int,
                dh as int,
            ),
        ensures
            forall|ch: int|
                0 <= ch < 3 ==> #[trigger] sampled_channel(
                    self.data@,
                    self.width as int,
                    self.height as int,
                    dw as int,
                    dh as int,
                    dx as int,
                    dy as int,
                    ch,
                ) == (if ch == 0 {
                    r.0
                } else if ch == 1 {
                    r.1
                } else {
                    r.2
                }),
    {
        let len: usize = self.data.len();
        assert(len == self.data@.len());
        let sx: i128 = index_at(dx, self.width, dw);
        let sy: i128 = index_at(dy, self.height, dh);
        proof {
            let (w, h) = (self.width as int, self.height as int);
            lemma_group_in_data(len as int, w, h, dw as int, dh as int, dx as int, dy as int);
            assert(0 <= sy * w <= 0x40_0000_0000_0000_0000 * 0x1_0000_0000) by (nonlinear_arith)
                requires
                    0 <= sy <= 0x40_0000_0000_0000_0000,
                    0 <= w <= 0x1_0000_0000,
            ;
        }
        let g: usize = ((sy * self.width as i128 + sx) / 2 * 4) as usize;
        let odd: usize = (sx % 2) as usize;
        yuv_pixel(self.data[g + 2 * odd], self.data[g + 1], self.data[g + 3])
    }

    /// Convert YUYV to packed RGB at the scale `num / den` by sampling every
    /// Nth pixel, which skips the pixels that a reduction discards. Returns the
    /// bytes with the output size, which is at least one pixel each way.
    pub fn to_rgb_scaled(&self, num: u32, den: u32) -> (r: (Vec<u8>, u32, u32))
        requires
            den > 0,
            scaled_side(self.width as int, num as int, den as int) <= u32::MAX,
            scaled_side(self.height as int, num as int, den as int) <= u32::MAX,
            scaled_side(self.width as int, num as int, den as int) * scaled_side(
                self.height as int,
                num as int,
                den as int,
            ) * 3 <= usize::MAX,
            covers(
                self.data@.len() as int,
                self.width as int,
                self.height as int,
                scaled_side(self.width as int, num as int, den as int),
                scaled_side(self.height as int, num as int, den as int),
            ),
        ensures
            r.1 == scaled_side(self.width as int, num as int, den as int),
            r.2 == scaled_side(self.height as int, num as int, den as int),
            r.0@ == scaled_rgb(
                self.data@,
                self.width as int,
                self.height as int,
                r.1 as nat,
                r.2 as nat,
            ),
    {
        let dw: u32 = side_at(self.width, num, den);
        let dh: u32 = side_at(self.height, num, den);
        (self.resampled(dw, dh), dw, dh)
    }

    /// RGB of `dw` by `dh` pixels sampled over the frame.
    fn resampled(&self, dw: u32, dh: u32) -> (r: Vec<u8>)
        requires
            1 <= dw,
            1 <= dh,
            dw * dh * 3 <= usize::MAX,
            covers(
                self.data@.len() as int,
                self.width as int,
                self.height as int,
                dw as int,
                dh as int,
            ),
        ensures
            r@ == scaled_rgb(
                self.data@,
                self.width as int,
                self.height as int,
                dw as nat,
                dh as nat,
            ),
    {
        proof {
            assert(dw * dh <= dw * dh * 3) by (nonlinear_arith)
                requires
                    0 <= dw,
                    0 <= dh,
            ;
        }
        let n: usize = (dw as usize) * (dh as usize);
        let ghost all = scaled_rgb(
            self.data@,
            self.width as int,
            self.height as int,
            dw as nat,
            dh as nat,
        );
        let mut rgb: Vec<u8> = Vec::new();
        let mut k: usize = 0;
        while k < n
            invariant
                k <= n,
                n == dw * dh,
                n * 3 <= usize::MAX,
                1 <= dw,
                1 <= dh,
                covers(
                    self.data@.len() as int,
                    self.width as int,
                    self.height as int,
                    dw as int,
                    dh as int,
                ),
                all == scaled_rgb(
                    self.data@,
                    self.width as int,
                    self.height as int,
                    dw as nat,
                    dh as nat,
                ),
                rgb@ =~= all.take(3 * k),
            decreases n - k,
        {
            proof {
                lemma_cell_of(k as int, dw as int, dh as int);
            }
            let dx: u32 = (k % (dw as usize)) as u32;
            let dy: u32 = (k / (dw as usize)) as u32;
            let (r, g, b): (u8, u8, u8) = self.sample(dw, dh, dx, dy);
            proof {
                lemma_scaled_pixel(
                    self.data@,
                    self.width as int,
                    self.height as int,
                    dw as nat,
                    dh as nat,
                    k as int,
                );
            }
            rgb.push(r);
            rgb.push(g);
            rgb.push(b);
            k = k + 1;
        }
        assert(all.take(3 * k) =~= all);
        rgb
    }

    /// A binary PPM file of the frame (viewable without any extra library).
    pub fn to_ppm(&self) -> (r: Vec<u8>)
        requires
            self.pixels() * 3 <= usize::MAX,
            self.pixels() * 2 <= self.data@.len(),
        ensures
            r@ == ppm_header(self.width as nat, self.height as nat) + rgb_of(
                self.data@,
                self.pixels(),
            ),
    {
        let mut out: Vec<u8> = Vec::new();
        out.push(80);
        out.push(54);
        out.push(10);
        let w: Vec<u8> = decimal_bytes(self.width);
        append(&mut out, &w);
        out.push(32);
        let h: Vec<u8> = decimal_bytes(self.height);
        append(&mut out, &h);
        out.push(10);
        out.push(50);
        out.push(53);
        out.push(53);
        out.push(10);
        assert(out@ =~= ppm_header(self.width as nat, self.height as nat));
        let rgb: Vec<u8> = self.to_rgb();
        append(&mut out, &rgb);
        out
    }
}

/// Column and row of the `k`-th cell of a grid `w` cells wide.
pub(crate) proof fn lemma_cell_of(k: int, w: int, h: int)
    requires
        0 <= k < w * h,
        w >= 1,
    ensures
        0 <= k % w < w,
        0 <= k / w < h,
        k == (k / w) * w + k % w,
{
    vstd::arithmetic::div_mod::lemma_fundamental_div_mod(k, w);
    let q = k / w;
    let r = k % w;
    assert(k == q * w + r && 0 <= q < h) by (nonlinear_arith)
        requires
            k == w * q + r,
            0 <= r < w,
            0 <= k < w * h,
            w >= 1,
    ;
}

/// The three bytes of pixel `k` of a reduction.
proof fn lemma_scaled_pixel(data: Seq<u8>, sw: int, sh: int, dw: nat, dh: nat, k: int)
    requires
        0 <= k < dw * dh,
    ensures
        ({
            let all = scaled_rgb(data, sw, sh, dw, dh);
            let (w, h) = (dw as int, dh as int);
            &&& all.len() == dw * dh * 3
            &&& all[3 * k] == sampled_channel(data, sw, sh, w, h, k % w, k / w, 0)
            &&& all[3 * k + 1] == sampled_channel(data, sw, sh, w, h, k % w, k / w, 1)
            &&& all[3 * k + 2] == sampled_channel(data, sw, sh, w, h, k % w, k / w, 2)
        }),
{
    assert((3 * k) / 3 == k && (3 * k + 1) / 3 == k && (3 * k + 2) / 3 == k);
}

/// A sampled index stays inside the source while the sides count exactly.
pub proof fn lemma_sample_in_range(d: int, src: int, dst: int)
    requires
        0 <= d < dst <= 0x80_0000,
        1 <= src < 0x100_0000,
    ensures
        0 <= source_index(d, src, dst) < src,
{
    lemma_single(d);
    lemma_single(src);
    lemma_single(dst);
    let m = src * 0x100_0000_0000_0000;
    lemma_quotient(m, dst);
    lemma_fundamental_div_mod(m, dst);
    let q = m / dst;
    lemma_spacing(q as nat);
    let u = spacing(q as nat) as int;
    let s = ratio(src, dst);
    // The ratio is off by at most one part in 2^24.
    assert(dst * u <= src * 0x2_0000_0000) by (nonlinear_arith)
        requires
            u == 1 || u * 0x80_0000 <= q,
            m == dst * q + m % dst,
            m % dst >= 0,
            m == src * 0x100_0000_0000_0000,
            1 <= dst <= 0x80_0000,
            src >= 1,
    ;
    let e = src * 0x1_0000_0000;
    assert(dst * s <= e * 0x100_0001);
    let p = d * s;
    assert(dst * p <= (dst - 1) * (e * 0x100_0001) && p >= 0) by (nonlinear_arith)
        requires
            p == d * s,
            dst * s <= e * 0x100_0001,
            0 <= d <= dst - 1,
            s >= 0,
            e >= 0,
    ;
    lemma_single(p);
    let v = single(p);
    assert(v < src * 0x100_0000_0000_0000) by (nonlinear_arith)
        requires
            0x100_0000 * v <= 0x100_0001 * p,
            dst * p <= (dst - 1) * (e * 0x100_0001),
            e == src * 0x1_0000_0000,
            1 <= dst <= 0x80_0000,
            src >= 1,
    {
        let lhs = (0x100_0000 * v) * dst;
        assert(lhs <= 0x100_0001 * (p * dst));
        assert(p * dst == dst * p);
        assert(lhs <= 0x100_0001 * ((dst - 1) * (e * 0x100_0001)));
        assert(0x100_0001 * ((dst - 1) * (e * 0x100_0001)) == (0x100_0001 * 0x100_0001) * ((dst - 1) * e));
        assert((0x100_0001 * 0x100_0001) * (dst - 1) < 0x1_0000_0000_0000 * dst);
        assert(((0x100_0001 * 0x100_0001) * (dst - 1)) * e < (0x1_0000_0000_0000 * dst) * e);
        assert(((0x100_0001 * 0x100_0001) * (dst - 1)) * e == (0x100_0001 * 0x100_0001) * ((dst - 1) * e));
        assert((0x1_0000_0000_0000 * dst) * e == 0x100_0000 * (0x100_0000 * e) * dst);
        assert((0x100_0000 * v) * dst < (0x100_0000 * (0x100_0000 * e)) * dst);
        assert(v < 0x100_0000 * e);
    }
}

proof fn lemma_group_in_data(len: int, sw: int, sh: int, dw: int, dh: int, dx: int, dy: int)
    requires
        0 <= dx < dw,
        0 <= dy < dh,
        covers(len, sw, sh, dw, dh),
    ensures
        source_group(sw, sh, dw, dh, dx, dy) + 4 <= len,
{
    if 1 <= sw < 0x100_0000 && 1 <= sh < 0x100_0000 && dw <= 0x80_0000 && dh <= 0x80_0000 && (sw
        * sh + 1) / 2 * 4 <= len {
        lemma_sample_in_range(dx, sw, dw);
        lemma_sample_in_range(dy, sh, dh);
        let y = source_index(dy, sh, dh);
        assert(0 <= y * sw && y * sw + sw <= sw * sh) by (nonlinear_arith)
            requires
                0 <= y < sh,
                0 <= sw,
        ;
    }
}

/// A reduction never makes a side longer.
pub proof fn law_reduced_side(side: int, num: int, den: int)
    requires
        1 <= side < 0x100_0000,
        0 <= num <= den,
        den > 0,
    ensures
        1 <= scaled_side(side, num, den) <= side,
{
    lemma2_to64();
    lemma2_to64_rest();
    lemma_single(side);
    let whole = 0x80_0000_0000_0000int;
    assert(num * whole <= den * whole) by (nonlinear_arith)
        requires
            num <= den,
            whole >= 0,
    ;
    lemma_is_single(1, 55);
    lemma_quotient_at_most(num * whole, den, 0x80_0000_0000_0000);
    let k = scale_of(num, den);
    assert(0 <= side * k <= side * whole) by (nonlinear_arith)
        requires
            0 <= k <= whole,
            side >= 1,
    ;
    lemma_is_single(side as nat, 55);
    lemma_quotient_at_most(side * k, 1, (side * whole) as nat);
}

/// A whole number of at most 24 bits, or 2^24, times a power of two is its own rounding.
proof fn lemma_count(m: nat, k: nat)
    requires
        m <= 0x100_0000,
    ensures
        single((m * pow2(k)) as int) == m * pow2(k),
        single(m as int) == m,
{
    if m < 0x100_0000 {
        lemma_is_single(m, k);
        lemma_single(m as int);
    } else {
        lemma2_to64();
        lemma_pow2_adds(24, k);
        lemma_is_single(1, 24 + k);
        lemma_is_single(1, 24);
    }
}

/// At scale one, a sample is taken where it is put.
proof fn lemma_index_at_scale_one(d: int, side: int)
    requires
        0 <= d < side <= 0x100_0000,
    ensures
        source_index(d, side, side) == d,
{
    lemma2_to64();
    lemma2_to64_rest();
    lemma_count(side as nat, 0);
    lemma_count(1, 56);
    lemma_count(d as nat, 56);
    lemma_common_factor(0x100_0000_0000_0000, side);
    assert(ratio(side, side) == 0x100_0000_0000_0000);
}

proof fn lemma_side_at_scale_one(side: int, num: int)
    requires
        1 <= side <= 0x100_0000,
        num > 0,
    ensures
        scaled_side(side, num, num) == side,
{
    lemma2_to64();
    lemma2_to64_rest();
    lemma_count(1, 55);
    lemma_count(side as nat, 55);
    lemma_common_factor(0x80_0000_0000_0000, num);
    assert(scale_of(num, num) == 0x80_0000_0000_0000);
}

/// Scale one reduces nothing: a frame of an even width gives the picture of the full
/// conversion, with the frame's own sides. The sides are those that single precision
/// counts exactly.
pub proof fn law_scale_one_is_the_whole_picture(data: Seq<u8>, width: nat, height: nat, num: int)
    requires
        num > 0,
        width % 2 == 0,
        1 <= width <= 0x100_0000,
        1 <= height <= 0x100_0000,
    ensures
        scaled_side(width as int, num, num) == width,
        scaled_side(height as int, num, num) == height,
        scaled_rgb(data, width as int, height as int, width, height) == rgb_of(
            data,
            width * height,
        ),
        rgb_of(data, width * height).len() == 3 * (width * height),
{
    let (w, h) = (width as int, height as int);
    lemma_side_at_scale_one(w, num);
    lemma_side_at_scale_one(h, num);
    let all = scaled_rgb(data, w, h, width, height);
    let n = width * height;
    let half = w / 2;
    assert(n == 2 * (half * h)) by (nonlinear_arith)
        requires
            n == w * h,
            w == 2 * half,
    ;
    assert forall|p: int| 0 <= p < n * 3 implies #[trigger] all[p] == rgb_of(data, n)[p] by {
        let k = p / 3;
        lemma_cell_of(k, w, h);
        let (x, y) = (k % w, k / w);
        lemma_index_at_scale_one(x, w);
        lemma_index_at_scale_one(y, h);
        assert(y * w == 2 * (y * half)) by (nonlinear_arith)
            requires
                w == 2 * half,
        ;
        assert(source_group(w, h, w, h, x, y) == (k / 2) * 4);
        assert(x % 2 == k % 2);
    }
    assert(all =~= rgb_of(data, n));
}

// ── What the colours mean ─────────────────────────────────────────────────────

/// Neutral chroma gives grey of the luma's level.
pub proof fn law_neutral_chroma_is_grey(y: u8)
    ensures
        red(y as int, 128, 128) == y,
        green(y as int, 128, 128) == y,
        blue(y as int, 128, 128) == y,
{
}

/// Red depends on V alone beside the luma, blue on U alone. Off neutral they stray from
/// the luma by 1.402 of V and 1.772 of U, green by 0.344 of U and 0.714 of V the other way,
/// to a level for each term, as far as the range of a byte allows.
pub proof fn law_bt601(y: u8, u: u8, v: u8, other: u8)
    ensures
        ({
            let (yi, ui, vi) = (y as int, u as int, v as int);
            let (cu, cv) = (u - 128, v - 128);
            let (r, g, b) = (
                red(yi, ui, vi) as int,
                green(yi, ui, vi) as int,
                blue(yi, ui, vi) as int,
            );
            &&& red(yi, other as int, vi) == r
            &&& blue(yi, ui, other as int) == b
            &&& r < 255 ==> 1000 * (r - y) > 1402 * cv - 1000
            &&& r > 0 ==> 1000 * (r - y) < 1402 * cv + 1000
            &&& b < 255 ==> 1000 * (b - y) > 1772 * cu - 1000
            &&& b > 0 ==> 1000 * (b - y) < 1772 * cu + 1000
            &&& g < 255 ==> 1000 * (g - y) > -344 * cu - 714 * cv - 2000
            &&& g > 0 ==> 1000 * (g - y) < -344 * cu - 714 * cv + 2000
        }),
{
}

/// More V never means less red, more U never less blue, more of either never more green;
/// more luma never less of any. On the neutral side of its chroma a channel does not pass
/// the luma.
pub proof fn law_channels_are_monotone(y: u8, u: u8, v: u8, y2: u8, u2: u8, v2: u8)
    requires
        y <= y2,
        u <= u2,
        v <= v2,
    ensures
        red(y as int, u as int, v as int) <= red(y as int, u as int, v2 as int),
        blue(y as int, u as int, v as int) <= blue(y as int, u2 as int, v as int),
        green(y as int, u as int, v as int) >= green(y as int, u2 as int, v as int),
        green(y as int, u as int, v as int) >= green(y as int, u as int, v2 as int),
        red(y as int, u as int, v as int) <= red(y2 as int, u as int, v as int),
        green(y as int, u as int, v as int) <= green(y2 as int, u as int, v as int),
        blue(y as int, u as int, v as int) <= blue(y2 as int, u as int, v as int),
        v >= 128 ==> red(y as int, u as int, v as int) >= y,
        v <= 128 ==> red(y as int, u as int, v as int) <= y,
        u >= 128 ==> blue(y as int, u as int, v as int) >= y,
        u <= 128 ==> blue(y as int, u as int, v as int) <= y,
{
}

/// Where a pixel's bytes come from: its own luma at twice its number, and the chroma of
/// its pair in the two odd bytes of the pair's group. The RGB bytes of a pixel lie side by
/// side, red first, and nothing else counts.
pub proof fn law_pixel_bytes(data: Seq<u8>, pixels: nat, k: int)
    requires
        0 <= k < pixels,
        pixels % 2 == 0 || k < pixels - 1,
    ensures
        rgb_of(data, pixels).len() == 3 * pixels,
        ({
            let (y, u, v) = (
                data[2 * k] as int,
                data[2 * (k - k % 2) + 1] as int,
                data[2 * (k - k % 2) + 3] as int,
            );
            &&& rgb_of(data, pixels)[3 * k] == red(y, u, v)
            &&& rgb_of(data, pixels)[3 * k + 1] == green(y, u, v)
            &&& rgb_of(data, pixels)[3 * k + 2] == blue(y, u, v)
        }),
{
    assert((3 * k) / 3 == k && (3 * k + 1) / 3 == k && (3 * k + 2) / 3 == k);
    assert((k / 2) * 4 + 2 * (k % 2) == 2 * k);
}

/// The number that decimal digits spell.
pub open spec fn spelled(digits: Seq<u8>) -> int
    decreases digits.len(),
{
    if digits.len() == 0 {
        0
    } else {
        10 * spelled(digits.drop_last()) + digits.last() - 48
    }
}

/// Decimal digits spell the number, without a leading zero.
pub proof fn law_digits_spell_the_number(n: nat)
    ensures
        spelled(decimal(n)) == n,
        decimal(n).len() >= 1,
        n > 0 ==> decimal(n)[0] != 48,
        forall|i: int| 0 <= i < decimal(n).len() ==> 48 <= #[trigger] decimal(n)[i] <= 57,
    decreases n,
{
    let d = decimal(n);
    if n < 10 {
        assert(d.drop_last() =~= Seq::<u8>::empty());
        assert(spelled(d.drop_last()) == 0);
    } else {
        law_digits_spell_the_number(n / 10);
        assert(d.drop_last() =~= decimal(n / 10));
    }
}

/// A PPM file is the magic number, the two sides and the largest level, each in digits,
/// and then the pixels.
pub proof fn law_ppm_layout(width: nat, height: nat)
    ensures
        ({
            let h = ppm_header(width, height);
            let (w, t) = (decimal(width).len() as int, decimal(height).len() as int);
            &&& h.len() == w + t + 9
            &&& h[0] == 80 && h[1] == 54 && h[2] == 10
            &&& spelled(h.subrange(3, 3 + w)) == width
            &&& h[3 + w] == 32
            &&& spelled(h.subrange(4 + w, 4 + w + t)) == height
            &&& h[4 + w + t] == 10
            &&& spelled(h.subrange(5 + w + t, 8 + w + t)) == 255
            &&& h[8 + w + t] == 10
        }),
{
    let h = ppm_header(width, height);
    let (w, t) = (decimal(width).len() as int, decimal(height).len() as int);
    law_digits_spell_the_number(width);
    law_digits_spell_the_number(height);
    assert(h.subrange(3, 3 + w) =~= decimal(width));
    assert(h.subrange(4 + w, 4 + w + t) =~= decimal(height));
    let m = h.subrange(5 + w + t, 8 + w + t);
    assert(m =~= seq![50u8, 53u8, 53u8]);
    assert(m.drop_last() =~= seq![50u8, 53u8]);
    assert(m.drop_last().drop_last() =~= seq![50u8]);
    assert(m.drop_last().drop_last().drop_last() =~= Seq::<u8>::empty());
    assert(spelled(m.drop_last().drop_last().drop_last()) == 0);
    assert(spelled(m.drop_last().drop_last()) == 2);
    assert(spelled(m.drop_last()) == 25);
}

/// A frame has a pixel for every column of every row.
pub proof fn law_pixels_of_a_frame(f: Frame, row: int, col: int)
    requires
        0 <= row < f.height,
        0 <= col < f.width,
    ensures
        row * f.width + col < f.pixels(),
        f.pixels() == f.height * f.width,
{
    assert(f.width as nat * f.height as nat == f.height * f.width) by (nonlinear_arith);
    assert(row * f.width + f.width <= f.height * f.width) by (nonlinear_arith)
        requires
            0 <= row < f.height,
            0 <= f.width,
    ;
}

/// A pixel takes its own luma byte, and shares its two chroma bytes with its neighbour; the
/// last pixel of an odd count is black.
pub proof fn law_bytes_of_a_pixel(data: Seq<u8>, pixels: int, k: int, ch: int)
    requires
        0 <= k < pixels,
    ensures
        pixels % 2 == 1 && k == pixels - 1 ==> pixel_channel(data, pixels, k, ch) == 0,
        k % 2 == 0 && k + 1 < pixels ==> pixel_channel(data, pixels, k, ch) == channel(
            data[2 * k] as int,
            data[2 * k + 1] as int,
            data[2 * k + 3] as int,
            ch,
        ),
        k % 2 == 1 ==> pixel_channel(data, pixels, k, ch) == channel(
            data[2 * k] as int,
            data[2 * k - 1] as int,
            data[2 * k + 1] as int,
            ch,
        ),
{
}

/// A reduced picture takes the samples at the same share of the way: output sample `d` of
/// `dst` is the one at `d src / dst`, rounded down, up to one part in 2^22.
pub proof fn law_source_sample(d: int, src: int, dst: int)
    requires
        0 <= d < dst <= 0x80_0000,
        1 <= src <= 0x80_0000,
    ensures
        ({
            let i = source_index(d, src, dst);
            let way = d * src;
            &&& i >= 0
            &&& 0x40_0000 * (dst * i - way) <= way
            &&& 0x40_0000 * (way - dst * (i + 1)) <= way
        }),
{
    let m = 0x100_0000_0000_0000int;
    lemma_single(d);
    lemma_single(src);
    lemma_single(dst);
    let r = ratio(src, dst);
    assert(src * m >= 0x100_0000 * dst);
    law_quotient_is_near(src * m, dst);
    lemma_quotient(src * m, dst);
    let way = d * src;
    let y = way * m;
    let x = d * (dst * r);
    assert(-y <= 0x100_0000 * (x - y) <= y) by (nonlinear_arith)
        requires
            -(src * m) <= 0x100_0000 * (dst * r - src * m) <= src * m,
            y == (d * src) * m,
            x == d * (dst * r),
            d >= 0,
    ;
    assert(d * r >= 0) by (nonlinear_arith)
        requires
            d >= 0,
            r >= 0,
    ;
    law_single_is_near(d * r);
    let q = single(d * r);
    let z = dst * q;
    assert(x == dst * (d * r)) by (nonlinear_arith)
        requires
            x == d * (dst * r),
    ;
    assert(-x <= 0x100_0000 * (z - x) <= x) by (nonlinear_arith)
        requires
            -(d * r) <= 0x100_0000 * (q - d * r) <= d * r,
            x == dst * (d * r),
            z == dst * q,
            dst >= 1,
    ;
    lemma_fundamental_div_mod(q, m);
    let i = q / m;
    assert(m * (dst * i) <= z <= m * (dst * (i + 1))) by (nonlinear_arith)
        requires
            q == m * i + q % m,
            0 <= q % m < m,
            z == dst * q,
            dst >= 1,
    ;
    let (a, b) = (dst * i, dst * (i + 1));
    assert(way >= 0) by (nonlinear_arith)
        requires
            way == d * src,
            d >= 0,
            src >= 0,
    ;
    assert(y == m * way);
}

/// A reduced pixel reads the group of the source pixel in its row and column: the four bytes
/// that hold that pixel and its partner.
pub proof fn law_source_group(sw: int, sh: int, dw: int, dh: int, dx: int, dy: int)
    ensures
        ({
            let p = source_index(dy, sh, dh) * sw + source_index(dx, sw, dw);
            let g = source_group(sw, sh, dw, dh, dx, dy);
            &&& g % 4 == 0
            &&& g <= 2 * p < g + 4
        }),
{
}

} // verus!
