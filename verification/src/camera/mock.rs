//! Frames for running without a camera.
use super::frame::Frame;
use vstd::prelude::*;

verus! {

/// YUYV bytes of a grey picture of `n` pixels: luma in the even bytes (128
/// where the source is short), neutral chroma in the odd ones.
pub open spec fn grey_yuyv(luma: Seq<u8>, n: nat) -> Seq<u8> {
    Seq::new(
        n * 2,
        |p: int|
            if p % 2 == 0 && p / 2 < luma.len() {
                luma[p / 2]
            } else {
                128u8
            },
    )
}

/// Pack a grayscale buffer into a YUYV frame (even bytes luma, odd bytes 128).
pub fn gray_to_yuyv(width: u32, height: u32, luma: &[u8]) -> (r: Frame)
    requires
        width * height * 2 <= usize::MAX,
    ensures
        r.width == width,
        r.height == height,
        r.id == 0,
        r.data@ == grey_yuyv(luma@, width as nat * height as nat),
{
    proof {
        assert(width * height <= width * height * 2) by (nonlinear_arith)
            requires
                0 <= width,
                0 <= height,
        ;
    }
    let n: usize = (width as usize) * (height as usize);
    let mut data: Vec<u8> = Vec::new();
    let mut k: usize = 0;
    while k < n
        invariant
            k <= n,
            n * 2 <= usize::MAX,
            data@.len() == 2 * k,
            forall|p: int| 0 <= p < 2 * k ==> #[trigger] data@[p] == grey_yuyv(luma@, n as nat)[p],
        decreases n - k,
    {
        data.push(
            if k < luma.len() {
                luma[k]
            } else {
                128
            },
        );
        data.push(128);
        k = k + 1;
    }
    assert(data@ =~= grey_yuyv(luma@, n as nat));
    Frame { width, height, id: 0, data }
}

/// Integer value-noise hash of a lattice point, 0..=255.
pub fn noise_byte(x: i32, y: i32) -> (r: u32)
    ensures
        r == noise_of(x, y),
        r <= 255,
{
    let n: u32 = (x.wrapping_mul(374_761_393) ^ y.wrapping_mul(668_265_263)) as u32;
    let m: u32 = (n ^ (n >> 13)).wrapping_mul(1_274_126_177);
    let r: u32 = (m ^ (m >> 16)) & 0xff;
    assert(r <= 255) by (bit_vector)
        requires
            r == (m ^ (m >> 16)) & 0xff,
    ;
    r
}

/// Value of the noise hash.
pub open spec fn noise_of(x: i32, y: i32) -> u32 {
    let n = (x.wrapping_mul(374_761_393) ^ y.wrapping_mul(668_265_263)) as u32;
    let m = (n ^ (n >> 13)).wrapping_mul(1_274_126_177);
    (m ^ (m >> 16)) & 0xff
}

/// Index of the recorded frame to show as the `i`-th one: the recording loops.
pub fn replay_index(i: usize, recorded: usize) -> (r: usize)
    requires
        recorded > 0,
    ensures
        r == i % recorded,
        r < recorded,
{
    i % recorded
}

proof fn lemma_low_word(x: i32, factor: i32, a: u32)
    requires
        (a - x * factor) % 0x1_0000_0000 == 0,
    ensures
        x.wrapping_mul(factor) as u32 == a,
{
    let v = x.wrapping_mul(factor);
    assert(v as u32 == if v < 0 {
        v + 0x1_0000_0000
    } else {
        v as int
    }) by (bit_vector);
}

/// The noise of a lattice point mixes both coordinates: with `a` and `b` the low words of
/// their products with the two lattice primes, and `m` that of their sum without carries,
/// folded by 13 digits, with the third prime, it is the low byte of `m` folded by 16 digits.
pub proof fn law_noise_mixes_both_coordinates(x: i32, y: i32, a: u32, b: u32, m: u32)
    requires
        (a - x * 374_761_393) % 0x1_0000_0000 == 0,
        (b - y * 668_265_263) % 0x1_0000_0000 == 0,
        (m - ((a ^ b) ^ ((a ^ b) / 8192)) * 1_274_126_177) % 0x1_0000_0000 == 0,
    ensures
        noise_of(x, y) == (m ^ (m / 65536)) % 256,
{
    lemma_low_word(x, 374_761_393, a);
    lemma_low_word(y, 668_265_263, b);
    let (v, w) = (x.wrapping_mul(374_761_393), y.wrapping_mul(668_265_263));
    assert((v ^ w) as u32 == (v as u32) ^ (w as u32)) by (bit_vector);
    let n = a ^ b;
    assert(n >> 13 == n / 8192) by (bit_vector);
    assert((m ^ (m >> 16)) & 0xff == (m ^ (m / 65536)) % 256) by (bit_vector);
    let k = n ^ (n >> 13);
    let p = k * 1_274_126_177;
    assert(p % 0x1_0000_0000 == m) by {
        vstd::arithmetic::div_mod::lemma_fundamental_div_mod(m - p, 0x1_0000_0000);
        let q = (m - p) / 0x1_0000_0000;
        vstd::arithmetic::div_mod::lemma_fundamental_div_mod_converse(
            p,
            0x1_0000_0000,
            -q,
            m as int,
        );
    }
    assert(k.wrapping_mul(1_274_126_177) == m);
}

/// Grey data becomes luma in the even bytes and neutral chroma in the odd ones; pixels that
/// the source lacks are mid grey.
pub proof fn law_grey_bytes(luma: Seq<u8>, n: nat, i: int)
    requires
        0 <= i < n,
    ensures
        grey_yuyv(luma, n).len() == 2 * n,
        i < luma.len() ==> grey_yuyv(luma, n)[2 * i] == luma[i],
        i >= luma.len() ==> grey_yuyv(luma, n)[2 * i] == 128,
        grey_yuyv(luma, n)[2 * i + 1] == 128,
{
}

} // verus!
