//! Oriented BRIEF descriptor plus a brute-force Hamming matcher.
//!
//! FAST says where a keypoint is; BRIEF says what the patch around it looks
//! like, as a 256-bit string built from intensity comparisons of point pairs.
//! The pairs are steered by the orientation of the patch, which is the direction
//! of its intensity centroid.
use super::image::GrayImage;
use crate::par::par_map;
use vstd::prelude::*;

verus! {

/// Orientation centroid and every steered sample point live inside the disc of
/// this radius.
pub const PATCH_RADIUS: i32 = 15;

/// A keypoint must be at least this far from the level-image edge for the patch
/// (and any steered sample) to be fully in bounds.
pub const BORDER: i32 = 16;

/// Descriptor length: 256 bits in 32 bytes.
pub const DESC_BYTES: usize = 32;

pub const N_TESTS: usize = 256;

/// One 256-bit oriented-BRIEF descriptor.
pub type Descriptor = [u8; DESC_BYTES];

/// Reject a match whose best distance exceeds this many bits.
pub const MAX_DIST: u16 = 64;

// ── Patch geometry ────────────────────────────────────────────────────────────

/// True if a `(x, y)` keypoint at this level is far enough from the edge to
/// compute orientation and a (steered) descriptor.
pub fn in_bounds(w: usize, h: usize, x: i32, y: i32) -> (r: bool)
    ensures
        r == (BORDER <= x < w - BORDER && BORDER <= y < h - BORDER),
        r <==> x >= 16 && y >= 16 && x + 16 < w && y + 16 < h,
{
    x >= BORDER && y >= BORDER && (x as u128 + BORDER as u128) < w as u128 && (y as u128
        + BORDER as u128) < h as u128
}

/// The patch around the keypoint lies in the image.
pub open spec fn patch_inside(img: GrayImage, x: int, y: int) -> bool {
    &&& img.covers()
    &&& BORDER <= x < img.width - BORDER
    &&& BORDER <= y < img.height - BORDER
}

/// Sum over the first `n` points of the patch square, row by row, of the level
/// weighted by the horizontal (`along_x`) or vertical offset; only points in
/// the disc count.
pub open spec fn moment(img: GrayImage, x: int, y: int, along_x: bool, n: nat) -> int
    decreases n,
{
    if n == 0 {
        0
    } else {
        let dx = (n - 1) % 31 - 15;
        let dy = (n - 1) / 31 - 15;
        moment(img, x, y, along_x, (n - 1) as nat) + if dx * dx + dy * dy <= 225 {
            (if along_x {
                dx
            } else {
                dy
            }) * img.pixel(x + dx, y + dy)
        } else {
            0
        }
    }
}

/// First moments of the patch disc: the direction from the keypoint to its
/// intensity centroid is that of the vector `(m10, m01)`.
pub fn moments(img: &GrayImage, x: i32, y: i32) -> (r: (i64, i64))
    requires
        patch_inside(*img, x as int, y as int),
    ensures
        r.0 == moment(*img, x as int, y as int, true, 961),
        r.1 == moment(*img, x as int, y as int, false, 961),
{
    let (mut m10, mut m01): (i64, i64) = (0, 0);
    let mut n: usize = 0;
    while n < 961
        invariant
            n <= 961,
            patch_inside(*img, x as int, y as int),
            m10 == moment(*img, x as int, y as int, true, n as nat),
            m01 == moment(*img, x as int, y as int, false, n as nat),
            -3825 * n <= m10 <= 3825 * n,
            -3825 * n <= m01 <= 3825 * n,
        decreases 961 - n,
    {
        let dx: i32 = (n % 31) as i32 - PATCH_RADIUS;
        let dy: i32 = (n / 31) as i32 - PATCH_RADIUS;
        proof {
            assert(-15 <= dx <= 15 && -15 <= dy <= 15);
            assert(0 <= dx * dx <= 225 && 0 <= dy * dy <= 225) by (nonlinear_arith)
                requires
                    -15 <= dx <= 15,
                    -15 <= dy <= 15,
            ;
        }
        if dx * dx + dy * dy <= PATCH_RADIUS * PATCH_RADIUS {
            proof {
                let (w, h, yy) = (img.width as int, img.height as int, y + dy);
                assert(0 <= yy * w && yy * w + w <= w * h) by (nonlinear_arith)
                    requires
                        0 <= yy < h,
                        0 <= w,
                ;
            }
            let p: i64 = img.at((x as i64 + dx as i64) as usize, (y as i64 + dy as i64) as usize) as i64;
            proof {
                assert(-3825 <= dx * p <= 3825 && -3825 <= dy * p <= 3825) by (nonlinear_arith)
                    requires
                        -15 <= dx <= 15,
                        -15 <= dy <= 15,
                        0 <= p <= 255,
                ;
            }
            m10 = m10 + dx as i64 * p;
            m01 = m01 + dy as i64 * p;
        }
        n = n + 1;
    }
    (m10, m01)
}

// ── Description ───────────────────────────────────────────────────────────────

/// Bit `i` of a descriptor.
pub open spec fn desc_bit(d: Seq<u8>, i: int) -> bool {
    (d[i / 8] >> ((i % 8) as u8)) & 1u8 == 1
}

/// All steered sample offsets stay within the patch border.
pub open spec fn pattern_fits(pattern: Seq<[i32; 4]>) -> bool {
    forall|i: int, k: int|
        0 <= i < pattern.len() && 0 <= k < 4 ==> -BORDER <= #[trigger] pattern[i]@[k] <= BORDER
}

/// Outcome of one comparison: the first point of the pair is darker.
pub open spec fn first_darker(img: GrayImage, x: int, y: int, pair: [i32; 4]) -> bool {
    img.pixel(x + pair@[0], y + pair@[1]) < img.pixel(x + pair@[2], y + pair@[3])
}

fn sample(img: &GrayImage, x: i32, y: i32, dx: i32, dy: i32) -> (r: u8)
    requires
        patch_inside(*img, x as int, y as int),
        -BORDER <= dx <= BORDER,
        -BORDER <= dy <= BORDER,
    ensures
        r == img.pixel(x + dx, y + dy),
{
    proof {
        let (w, h, yy) = (img.width as int, img.height as int, y + dy);
        assert(0 <= yy * w && yy * w + w <= w * h) by (nonlinear_arith)
            requires
                0 <= yy < h,
                0 <= w,
        ;
    }
    img.at((x as i64 + dx as i64) as usize, (y as i64 + dy as i64) as usize)
}

fn compare(img: &GrayImage, x: i32, y: i32, pair: &[i32; 4]) -> (r: bool)
    requires
        patch_inside(*img, x as int, y as int),
        forall|k: int| 0 <= k < 4 ==> -BORDER <= #[trigger] pair@[k] <= BORDER,
    ensures
        r == first_darker(*img, x as int, y as int, *pair),
{
    let (ax, ay, bx, by_): (i32, i32, i32, i32) = (pair[0], pair[1], pair[2], pair[3]);
    sample(img, x, y, ax, ay) < sample(img, x, y, bx, by_)
}

/// Sets bit `k` of a byte whose bits from `k` on are clear.
fn with_bit(byte: u8, k: u8, on: bool) -> (r: u8)
    requires
        k < 8,
        byte >> k == 0,
    ensures
        k < 7 ==> r >> ((k + 1) as u8) == 0,
        (r >> k) & 1u8 == 1 <==> on,
        forall|m: u8| m < k ==> (#[trigger] (r >> m)) & 1u8 == (byte >> m) & 1u8,
{
    let mask: u8 = if on {
        1
    } else {
        0
    };
    let r: u8 = byte | (mask << k);
    proof {
        let k1: u8 = (k + 1) as u8;
        assert(k < 7 ==> r >> k1 == 0) by (bit_vector)
            requires
                k < 8,
                k1 == k + 1,
                byte >> k == 0,
                mask <= 1,
                r == byte | (mask << k),
        ;
        assert((r >> k) & 1u8 == mask) by (bit_vector)
            requires
                k < 8,
                byte >> k == 0,
                mask <= 1,
                r == byte | (mask << k),
        ;
        assert forall|m: u8| m < k implies (#[trigger] (r >> m)) & 1u8 == (byte >> m) & 1u8 by {
            assert((r >> m) & 1u8 == (byte >> m) & 1u8) by (bit_vector)
                requires
                    m < k,
                    k < 8,
                    mask <= 1,
                    r == byte | (mask << k),
            ;
        }
    }
    r
}

/// 256-bit BRIEF on `img` (which should be a smoothed level image) with the
/// steered point pairs `[ax, ay, bx, by]`: bit `i` tells whether the first point
/// of pair `i` is darker than the second.
pub fn describe(img: &GrayImage, x: i32, y: i32, pattern: &[[i32; 4]; N_TESTS]) -> (r: Descriptor)
    requires
        patch_inside(*img, x as int, y as int),
        pattern_fits(pattern@),
    ensures
        forall|i: int|
            0 <= i < N_TESTS ==> #[trigger] desc_bit(r@, i) == first_darker(
                *img,
                x as int,
                y as int,
                pattern@[i],
            ),
{
    let mut d: Descriptor = [0u8; DESC_BYTES];
    let mut b: usize = 0;
    while b < DESC_BYTES
        invariant
            b <= DESC_BYTES,
            patch_inside(*img, x as int, y as int),
            pattern_fits(pattern@),
            forall|i: int|
                0 <= i < 8 * b ==> #[trigger] desc_bit(d@, i) == first_darker(
                    *img,
                    x as int,
                    y as int,
                    pattern@[i],
                ),
        decreases DESC_BYTES - b,
    {
        let mut byte: u8 = 0;
        let mut k: u8 = 0;
        assert(0u8 >> 0u8 == 0u8) by (bit_vector);
        while k < 8
            invariant
                k <= 8,
                b < DESC_BYTES,
                patch_inside(*img, x as int, y as int),
                pattern_fits(pattern@),
                k < 8 ==> byte >> k == 0,
                forall|m: u8|
                    m < k ==> ((#[trigger] (byte >> m)) & 1u8 == 1) == first_darker(
                        *img,
                        x as int,
                        y as int,
                        pattern@[8 * b + m],
                    ),
            decreases 8 - k,
        {
            let i: usize = 8 * b + k as usize;
            assert forall|c: int| 0 <= c < 4 implies -BORDER <= #[trigger] pattern@[i as int]@[c]
                <= BORDER by {}
            let pair: [i32; 4] = pattern[i];
            let on: bool = compare(img, x, y, &pair);
            byte = with_bit(byte, k, on);
            k = k + 1;
        }
        let ghost before = d@;
        d[b] = byte;
        assert forall|i: int| 0 <= i < 8 * (b + 1) implies #[trigger] desc_bit(d@, i)
            == first_darker(*img, x as int, y as int, pattern@[i]) by {
            if i < 8 * b {
                assert(desc_bit(before, i) == desc_bit(d@, i));
            } else {
                let m: u8 = (i % 8) as u8;
                assert(i / 8 == b);
                assert(8 * b + m == i);
                assert((byte >> m) & 1u8 == (byte >> m) & 1u8);
            }
        }
        b = b + 1;
    }
    d
}

// ── Distance ──────────────────────────────────────────────────────────────────

/// Number of the first `n` bits in which two descriptors differ.
pub open spec fn diff_count(a: Seq<u8>, b: Seq<u8>, n: nat) -> nat
    decreases n,
{
    if n == 0 {
        0
    } else {
        diff_count(a, b, (n - 1) as nat) + if desc_bit(a, n - 1) != desc_bit(b, n - 1) {
            1nat
        } else {
            0nat
        }
    }
}

/// Hamming distance of two descriptors.
pub open spec fn distance(a: Seq<u8>, b: Seq<u8>) -> nat {
    diff_count(a, b, 256)
}

/// Number of set bits of a byte.
fn ones(x: u8) -> (r: u8)
    ensures
        r == (x & 1) + ((x >> 1) & 1) + ((x >> 2) & 1) + ((x >> 3) & 1) + ((x >> 4) & 1) + ((x >> 5)
            & 1) + ((x >> 6) & 1) + ((x >> 7) & 1),
        r <= 8,
{
    assert((x & 0x55) + ((x >> 1) & 0x55) < 256) by (bit_vector);
    let p: u8 = (x & 0x55) + ((x >> 1) & 0x55);
    assert((p & 0x33) + ((p >> 2) & 0x33) < 256) by (bit_vector);
    let q: u8 = (p & 0x33) + ((p >> 2) & 0x33);
    assert((q & 0x0f) + ((q >> 4) & 0x0f) < 256) by (bit_vector);
    let r: u8 = (q & 0x0f) + ((q >> 4) & 0x0f);
    assert(r == (x & 1) + ((x >> 1) & 1) + ((x >> 2) & 1) + ((x >> 3) & 1) + ((x >> 4) & 1) + ((x
        >> 5) & 1) + ((x >> 6) & 1) + ((x >> 7) & 1) && r <= 8) by (bit_vector)
        requires
            p == (x & 0x55) + ((x >> 1) & 0x55),
            q == (p & 0x33) + ((p >> 2) & 0x33),
            r == (q & 0x0f) + ((q >> 4) & 0x0f),
    ;
    r
}

spec fn differ(x: u8, y: u8, k: u8) -> nat {
    if ((x >> k) & 1u8 == 1) != ((y >> k) & 1u8 == 1) {
        1
    } else {
        0
    }
}

proof fn lemma_byte_diff(a: Seq<u8>, b: Seq<u8>, i: nat)
    ensures
        diff_count(a, b, 8 * i + 8) == diff_count(a, b, 8 * i) + differ(a[i as int], b[i as int], 0)
            + differ(a[i as int], b[i as int], 1) + differ(a[i as int], b[i as int], 2) + differ(
            a[i as int],
            b[i as int],
            3,
        ) + differ(a[i as int], b[i as int], 4) + differ(a[i as int], b[i as int], 5) + differ(
            a[i as int],
            b[i as int],
            6,
        ) + differ(a[i as int], b[i as int], 7),
{
    lemma_bit_diff(a, b, i, 0);
    lemma_bit_diff(a, b, i, 1);
    lemma_bit_diff(a, b, i, 2);
    lemma_bit_diff(a, b, i, 3);
    lemma_bit_diff(a, b, i, 4);
    lemma_bit_diff(a, b, i, 5);
    lemma_bit_diff(a, b, i, 6);
    lemma_bit_diff(a, b, i, 7);
}

proof fn lemma_bit_diff(a: Seq<u8>, b: Seq<u8>, i: nat, k: u8)
    requires
        k < 8,
    ensures
        diff_count(a, b, (8 * i + k + 1) as nat) == diff_count(a, b, (8 * i + k) as nat) + differ(
            a[i as int],
            b[i as int],
            k,
        ),
{
    assert((8 * i + k) / 8 == i as int && (8 * i + k) % 8 == k as int);
}

proof fn lemma_xor_differ(x: u8, y: u8, k: u8)
    requires
        k < 8,
    ensures
        ((x ^ y) >> k) & 1u8 == differ(x, y, k),
{
    assert(((x ^ y) >> k) & 1u8 == (if ((x >> k) & 1u8 == 1) != ((y >> k) & 1u8 == 1) {
        1u8
    } else {
        0u8
    })) by (bit_vector)
        requires
            k < 8,
    ;
}

/// Hamming distance (number of differing bits) between two descriptors.
pub fn hamming(a: &Descriptor, b: &Descriptor) -> (r: u32)
    ensures
        r == distance(a@, b@),
        r <= 256,
{
    let mut sum: u32 = 0;
    let mut i: usize = 0;
    while i < DESC_BYTES
        invariant
            i <= DESC_BYTES,
            sum == diff_count(a@, b@, (8 * i) as nat),
            sum <= 8 * i,
        decreases DESC_BYTES - i,
    {
        let (x, y): (u8, u8) = (a[i], b[i]);
        proof {
            lemma_byte_diff(a@, b@, i as nat);
            lemma_xor_differ(x, y, 0);
            lemma_xor_differ(x, y, 1);
            lemma_xor_differ(x, y, 2);
            lemma_xor_differ(x, y, 3);
            lemma_xor_differ(x, y, 4);
            lemma_xor_differ(x, y, 5);
            lemma_xor_differ(x, y, 6);
            lemma_xor_differ(x, y, 7);
            let z: u8 = x ^ y;
            assert(z >> 0u8 == z) by (bit_vector);
        }
        sum = sum + ones(x ^ y) as u32;
        i = i + 1;
    }
    sum
}

proof fn lemma_diff_symmetric(a: Seq<u8>, b: Seq<u8>, n: nat)
    ensures
        diff_count(a, b, n) == diff_count(b, a, n),
        diff_count(a, b, n) <= n,
    decreases n,
{
    if n > 0 {
        lemma_diff_symmetric(a, b, (n - 1) as nat);
    }
}

/// The distance is symmetric and at most 256.
pub proof fn law_distance_symmetric(a: Seq<u8>, b: Seq<u8>)
    ensures
        distance(a, b) == distance(b, a),
        distance(a, b) <= 256,
{
    lemma_diff_symmetric(a, b, 256);
}

proof fn lemma_triangle(a: Seq<u8>, b: Seq<u8>, c: Seq<u8>, n: nat)
    ensures
        diff_count(a, c, n) <= diff_count(a, b, n) + diff_count(b, c, n),
    decreases n,
{
    if n > 0 {
        lemma_triangle(a, b, c, (n - 1) as nat);
    }
}

/// The distance obeys the triangle inequality.
pub proof fn law_distance_triangle(a: Seq<u8>, b: Seq<u8>, c: Seq<u8>)
    ensures
        distance(a, c) <= distance(a, b) + distance(b, c),
{
    lemma_triangle(a, b, c, 256);
}

proof fn lemma_zero_diff(a: Seq<u8>, b: Seq<u8>, n: nat, i: int)
    requires
        diff_count(a, b, n) == 0,
        0 <= i < n,
    ensures
        desc_bit(a, i) == desc_bit(b, i),
    decreases n,
{
    if i < n - 1 {
        lemma_zero_diff(a, b, (n - 1) as nat, i);
    }
}

proof fn lemma_same_diff(a: Seq<u8>, n: nat)
    ensures
        diff_count(a, a, n) == 0,
    decreases n,
{
    if n > 0 {
        lemma_same_diff(a, (n - 1) as nat);
    }
}

/// The distance is 0 exactly between equal descriptors.
pub proof fn law_distance_zero_iff_equal(a: Seq<u8>, b: Seq<u8>)
    requires
        a.len() == DESC_BYTES,
        b.len() == DESC_BYTES,
    ensures
        distance(a, b) == 0 <==> a == b,
{
    if distance(a, b) == 0 {
        assert forall|i: int| 0 <= i < DESC_BYTES implies a[i] == b[i] by {
            let (x, y) = (a[i], b[i]);
            assert forall|k: u8| k < 8 implies ((#[trigger] (x >> k)) & 1u8 == 1) == ((y >> k) & 1u8
                == 1) by {
                lemma_zero_diff(a, b, 256, 8 * i + k);
                assert((8 * i + k) / 8 == i && (8 * i + k) % 8 == k as int);
            }
            assert((x >> 0u8) & 1u8 == 1 <==> (y >> 0u8) & 1u8 == 1);
            assert((x >> 1u8) & 1u8 == 1 <==> (y >> 1u8) & 1u8 == 1);
            assert((x >> 2u8) & 1u8 == 1 <==> (y >> 2u8) & 1u8 == 1);
            assert((x >> 3u8) & 1u8 == 1 <==> (y >> 3u8) & 1u8 == 1);
            assert((x >> 4u8) & 1u8 == 1 <==> (y >> 4u8) & 1u8 == 1);
            assert((x >> 5u8) & 1u8 == 1 <==> (y >> 5u8) & 1u8 == 1);
            assert((x >> 6u8) & 1u8 == 1 <==> (y >> 6u8) & 1u8 == 1);
            assert((x >> 7u8) & 1u8 == 1 <==> (y >> 7u8) & 1u8 == 1);
            assert(x == y) by (bit_vector)
                requires
                    ((x >> 0u8) & 1u8 == 1) == ((y >> 0u8) & 1u8 == 1),
                    ((x >> 1u8) & 1u8 == 1) == ((y >> 1u8) & 1u8 == 1),
                    ((x >> 2u8) & 1u8 == 1) == ((y >> 2u8) & 1u8 == 1),
                    ((x >> 3u8) & 1u8 == 1) == ((y >> 3u8) & 1u8 == 1),
                    ((x >> 4u8) & 1u8 == 1) == ((y >> 4u8) & 1u8 == 1),
                    ((x >> 5u8) & 1u8 == 1) == ((y >> 5u8) & 1u8 == 1),
                    ((x >> 6u8) & 1u8 == 1) == ((y >> 6u8) & 1u8 == 1),
                    ((x >> 7u8) & 1u8 == 1) == ((y >> 7u8) & 1u8 == 1),
            ;
        }
        assert(a =~= b);
    }
    if a == b {
        lemma_same_diff(a, 256);
    }
}

// ── Matching ──────────────────────────────────────────────────────────────────

/// `set[j]` is the nearest descriptor to `d`; the first one on a tie.
pub open spec fn nearest(d: Descriptor, set: Seq<Descriptor>, j: int) -> bool {
    &&& 0 <= j < set.len()
    &&& forall|k: int|
        0 <= k < set.len() ==> distance(d@, set[j]@) <= distance(d@, (#[trigger] set[k])@)
    &&& forall|k: int| 0 <= k < j ==> distance(d@, set[j]@) < distance(d@, (#[trigger] set[k])@)
}

/// `set[j]` is an unambiguous match for `d`: nearest, close enough, and at less
/// than 0.8 times the distance of every other one.
pub open spec fn accepted(d: Descriptor, set: Seq<Descriptor>, j: int) -> bool {
    &&& nearest(d, set, j)
    &&& distance(d@, set[j]@) <= MAX_DIST
    &&& forall|k: int|
        0 <= k < set.len() && k != j ==> 5 * distance(d@, set[j]@) < 4 * distance(
            d@,
            (#[trigger] set[k])@,
        )
}

/// `a[i]` and `b[j]` match: `b[j]` is accepted for `a[i]`, and `a[i]` is the
/// nearest one to `b[j]`.
pub open spec fn matched(a: Seq<Descriptor>, b: Seq<Descriptor>, i: int, j: int) -> bool {
    &&& 0 <= i < a.len()
    &&& accepted(a[i], b, j)
    &&& nearest(b[j], a, i)
}

/// The matches of the first `n` descriptors of `a`, as `(i, j)` pairs by
/// increasing `i`. There is at most one `j` for an `i`.
pub open spec fn match_list(a: Seq<Descriptor>, b: Seq<Descriptor>, n: nat) -> Seq<(u32, u32)>
    decreases n,
{
    if n == 0 {
        Seq::empty()
    } else {
        let before = match_list(a, b, (n - 1) as nat);
        if exists|j: int| #[trigger] matched(a, b, n - 1, j) {
            before.push(
                ((n - 1) as u32, (choose|j: int| #[trigger] matched(a, b, n - 1, j)) as u32),
            )
        } else {
            before
        }
    }
}

/// All matches between two descriptor sets.
pub open spec fn matches_of(a: Seq<Descriptor>, b: Seq<Descriptor>) -> Seq<(u32, u32)> {
    match_list(a, b, a.len())
}

/// The first of the least values of a row, if it is within the limit and
/// passes the ratio test.
fn best_two(row: &Vec<u16>) -> (r: Option<usize>)
    requires
        row@.len() > 0,
        forall|k: int| 0 <= k < row@.len() ==> #[trigger] row@[k] <= 256,
    ensures
        row_choice(row@, r),
{
    let mut best: usize = 0;
    let mut d1: u32 = row[0] as u32;
    let mut d2: u32 = u32::MAX;
    let mut j: usize = 1;
    while j < row.len()
        invariant
            1 <= j <= row@.len(),
            forall|k: int| 0 <= k < row@.len() ==> #[trigger] row@[k] <= 256,
            best < j,
            d1 == row@[best as int],
            forall|k: int| 0 <= k < j ==> d1 <= #[trigger] row@[k],
            forall|k: int| 0 <= k < best ==> d1 < #[trigger] row@[k],
            forall|k: int| 0 <= k < j && k != best ==> d2 <= #[trigger] row@[k],
            d2 == u32::MAX ==> j == 1,
            d2 != u32::MAX ==> exists|k: int|
                0 <= k < j && k != best && #[trigger] row@[k] == d2,
        decreases row@.len() - j,
    {
        let d: u32 = row[j] as u32;
        if d < d1 {
            d2 = d1;
            d1 = d;
            assert(row@[best as int] == d2);
            best = j;
        } else if d < d2 {
            d2 = d;
            assert(row@[j as int] == d2);
        }
        j = j + 1;
    }
    let ratio_ok: bool = d2 == u32::MAX || 5 * (d1 as u64) < 4 * (d2 as u64);
    if d1 <= MAX_DIST as u32 && ratio_ok {
        Some(best)
    } else {
        assert forall|m: int| !#[trigger] row_accepts(row@, m) by {
            if row_accepts(row@, m) {
                assert(row@[m] <= row@[best as int]);
                assert(m == best);
                if !ratio_ok {
                    let k = choose|k: int|
                        0 <= k < j && k != best && #[trigger] row@[k] == d2;
                    assert(5 * row@[m] < 4 * row@[k]);
                }
            }
        }
        None
    }
}

/// The accepted entry of a row, or none where there is none.
spec fn row_choice(row: Seq<u16>, best: Option<usize>) -> bool {
    match best {
        Some(j) => row_accepts(row, j as int),
        None => forall|j: int| !#[trigger] row_accepts(row, j),
    }
}

spec fn row_accepts(row: Seq<u16>, j: int) -> bool {
    &&& 0 <= j < row.len()
    &&& forall|k: int| 0 <= k < row.len() ==> row[j] <= #[trigger] row[k]
    &&& forall|k: int| 0 <= k < j ==> row[j] < #[trigger] row[k]
    &&& row[j] <= MAX_DIST
    &&& forall|k: int| 0 <= k < row.len() && k != j ==> 5 * row[j] < 4 * #[trigger] row[k]
}

/// Row `i` of the distance matrix holds the distances from `a[i]`.
spec fn is_row(a: Seq<Descriptor>, b: Seq<Descriptor>, i: int, row: Seq<u16>) -> bool {
    &&& row.len() == b.len()
    &&& forall|j: int| 0 <= j < row.len() ==> #[trigger] row[j] == distance(a[i]@, b[j]@)
    &&& forall|j: int| 0 <= j < row.len() ==> #[trigger] row[j] <= 256
}

fn distance_row(a: &[Descriptor], b: &[Descriptor], i: usize) -> (row: Vec<u16>)
    requires
        i < a@.len(),
    ensures
        is_row(a@, b@, i as int, row@),
{
    let mut row: Vec<u16> = Vec::new();
    let mut j: usize = 0;
    while j < b.len()
        invariant
            j <= b@.len(),
            i < a@.len(),
            row@.len() == j,
            forall|k: int| 0 <= k < j ==> #[trigger] row@[k] == distance(a@[i as int]@, b@[k]@),
            forall|k: int| 0 <= k < j ==> #[trigger] row@[k] <= 256,
        decreases b@.len() - j,
    {
        let d: u32 = hamming(&a[i], &b[j]);
        row.push(d as u16);
        j = j + 1;
    }
    row
}

/// Index of the first least value in column `j`.
fn best_in_column(dist: &Vec<Vec<u16>>, j: usize) -> (r: usize)
    requires
        dist@.len() > 0,
        forall|i: int| 0 <= i < dist@.len() ==> (#[trigger] dist@[i])@.len() > j,
    ensures
        r < dist@.len(),
        forall|i: int| 0 <= i < dist@.len() ==> dist@[r as int]@[j as int] <= (#[trigger] dist@[i])@[j as int],
        forall|i: int| 0 <= i < r ==> dist@[r as int]@[j as int] < (#[trigger] dist@[i])@[j as int],
{
    let mut best: usize = 0;
    let mut i: usize = 1;
    while i < dist.len()
        invariant
            1 <= i <= dist@.len(),
            best < i,
            forall|k: int| 0 <= k < dist@.len() ==> (#[trigger] dist@[k])@.len() > j,
            forall|k: int|
                0 <= k < i ==> dist@[best as int]@[j as int] <= (#[trigger] dist@[k])@[j as int],
            forall|k: int|
                0 <= k < best ==> dist@[best as int]@[j as int] < (#[trigger] dist@[k])@[j as int],
        decreases dist@.len() - i,
    {
        if dist[i][j] < dist[best][j] {
            best = i;
        }
        i = i + 1;
    }
    best
}

proof fn lemma_row_accepts(a: Seq<Descriptor>, b: Seq<Descriptor>, i: int, row: Seq<u16>, j: int)
    requires
        is_row(a, b, i, row),
        0 <= j < b.len(),
    ensures
        row_accepts(row, j) == accepted(a[i], b, j),
{
    if row_accepts(row, j) {
        assert forall|k: int| 0 <= k < b.len() implies distance(a[i]@, b[j]@) <= distance(
            a[i]@,
            (#[trigger] b[k])@,
        ) by {
            assert(row[j] <= row[k]);
        }
        assert forall|k: int| 0 <= k < j implies distance(a[i]@, b[j]@) < distance(
            a[i]@,
            (#[trigger] b[k])@,
        ) by {
            assert(row[j] < row[k]);
        }
        assert forall|k: int| 0 <= k < b.len() && k != j implies 5 * distance(a[i]@, b[j]@) < 4
            * distance(a[i]@, (#[trigger] b[k])@) by {
            assert(5 * row[j] < 4 * row[k]);
        }
    }
    if accepted(a[i], b, j) {
        assert forall|k: int| 0 <= k < row.len() implies row[j] <= #[trigger] row[k] by {
            assert(distance(a[i]@, b[j]@) <= distance(a[i]@, b[k]@));
        }
        assert forall|k: int| 0 <= k < j implies row[j] < #[trigger] row[k] by {
            assert(distance(a[i]@, b[j]@) < distance(a[i]@, b[k]@));
        }
        assert forall|k: int| 0 <= k < row.len() && k != j implies 5 * row[j] < 4 * #[trigger] row[k] by {
            assert(5 * distance(a[i]@, b[j]@) < 4 * distance(a[i]@, b[k]@));
        }
    }
}

proof fn lemma_nearest_unique(d: Descriptor, set: Seq<Descriptor>, j: int, k: int)
    requires
        nearest(d, set, j),
        nearest(d, set, k),
    ensures
        j == k,
{
    if j < k {
        assert(distance(d@, set[k]@) < distance(d@, set[j]@));
    } else if k < j {
        assert(distance(d@, set[j]@) < distance(d@, set[k]@));
    }
}

/// Brute-force mutual-nearest-neighbour matcher with the ratio test. Returns
/// all matching `(i, j)` index pairs into `a` and `b`, by increasing `i`.
///
/// The distance matrix is computed once, a row per descriptor of `a` in
/// parallel; the forward pass reads it by rows and the backward pass by
/// columns.
pub fn match_descriptors(a: &[Descriptor], b: &[Descriptor]) -> (r: Vec<(u32, u32)>)
    requires
        a@.len() <= u32::MAX,
        b@.len() <= u32::MAX,
    ensures
        r@ == matches_of(a@, b@),
        forall|k: int|
            0 <= k < r@.len() ==> matched(a@, b@, (#[trigger] r@[k]).0 as int, r@[k].1 as int),
        forall|k: int, l: int| 0 <= k < l < r@.len() ==> (#[trigger] r@[k]).0 < (#[trigger] r@[l]).0,
        forall|i: int, j: int| #[trigger]
            matched(a@, b@, i, j) ==> r@.contains((i as u32, j as u32)),
{
    let (na, nb): (usize, usize) = (a.len(), b.len());
    if na == 0 || nb == 0 {
        proof {
            lemma_nothing_to_match(a@, b@, a@.len());
        }
        return Vec::new();
    }
    let fill_row = |i: usize| -> (row: Vec<u16>)
        requires
            na > i,
        ensures
            is_row(a@, b@, i as int, row@),
        {
            distance_row(a, b, i)
        };
    let dist: Vec<Vec<u16>> = par_map(na, fill_row);
    assert forall|i: int| 0 <= i < na implies is_row(a@, b@, i, (#[trigger] dist@[i])@) by {
        let u: usize = i as usize;
        assert(dist@[u as int] == dist@[i]);
    }
    let forward = |i: usize| -> (best: Option<usize>)
        requires
            na > i,
        ensures
            row_choice(dist@[i as int]@, best),
        {
            assert(is_row(a@, b@, i as int, dist@[i as int]@));
            best_two(&dist[i])
        };
    let fwd: Vec<Option<usize>> = par_map(na, forward);
    let backward = |j: usize| -> (best: usize)
        requires
            nb > j,
        ensures
            best < na,
            nearest_in_column(dist@, best as int, j as int),
        {
            assert forall|i: int| 0 <= i < dist@.len() implies (#[trigger] dist@[i])@.len() > j by {
                assert(is_row(a@, b@, i, dist@[i]@));
            }
            best_in_column(&dist, j)
        };
    let bwd: Vec<usize> = par_map(nb, backward);
    let mut out: Vec<(u32, u32)> = Vec::new();
    let mut i: usize = 0;
    while i < na
        invariant
            i <= na,
            na == a@.len(),
            nb == b@.len(),
            na <= u32::MAX,
            nb <= u32::MAX,
            dist@.len() == na,
            fwd@.len() == na,
            bwd@.len() == nb,
            forall|m: int| 0 <= m < na ==> is_row(a@, b@, m, (#[trigger] dist@[m])@),
            forall|m: usize|
                m < na ==> row_choice(dist@[m as int]@, #[trigger] fwd@[m as int]),
            forall|m: usize|
                m < nb ==> (#[trigger] bwd@[m as int]) < na && nearest_in_column(
                    dist@,
                    bwd@[m as int] as int,
                    m as int,
                ),
            out@ == match_list(a@, b@, i as nat),
            forall|k: int|
                0 <= k < out@.len() ==> (#[trigger] out@[k]).0 < i && matched(
                    a@,
                    b@,
                    out@[k].0 as int,
                    out@[k].1 as int,
                ),
            forall|k: int, l: int|
                0 <= k < l < out@.len() ==> (#[trigger] out@[k]).0 < (#[trigger] out@[l]).0,
            forall|m: int, j: int| #[trigger]
                matched(a@, b@, m, j) && m < i ==> out@.contains((m as u32, j as u32)),
        decreases na - i,
    {
        let ghost before = out@;
        let ghost row = dist@[i as int]@;
        assert(is_row(a@, b@, i as int, row));
        if let Some(j) = fwd[i] {
            assert(row_accepts(row, j as int));
            proof {
                lemma_row_accepts(a@, b@, i as int, row, j as int);
                lemma_column_nearest(a@, b@, dist@, bwd@[j as int] as int, j as int);
            }
            if bwd[j] == i {
                out.push((i as u32, j as u32));
                assert(matched(a@, b@, i as int, j as int));
                let ghost c = choose|c: int| #[trigger] matched(a@, b@, i as int, c);
                proof {
                    lemma_nearest_unique(a@[i as int], b@, j as int, c);
                }
            }
        }
        assert(out@.len() == before.len() ==> forall|j: int|
            !#[trigger] matched(a@, b@, i as int, j)) by {
            if out@.len() == before.len() {
                assert forall|j: int| !#[trigger] matched(a@, b@, i as int, j) by {
                    if matched(a@, b@, i as int, j) {
                        lemma_row_accepts(a@, b@, i as int, row, j);
                        assert(row_accepts(row, j));
                        let f = fwd@[i as int]->0;
                        lemma_row_accepts(a@, b@, i as int, row, f as int);
                        lemma_nearest_unique(a@[i as int], b@, f as int, j);
                        lemma_column_nearest(a@, b@, dist@, bwd@[j] as int, j);
                        lemma_nearest_unique(b@[j], a@, bwd@[j] as int, i as int);
                    }
                }
            }
        }
        assert forall|m: int, j: int| #[trigger]
            matched(a@, b@, m, j) && m < i + 1 implies out@.contains((m as u32, j as u32)) by {
            if m < i {
                assert(before.contains((m as u32, j as u32)));
                let k = choose|k: int| 0 <= k < before.len() && before[k] == (m as u32, j as u32);
                assert(out@[k] == (m as u32, j as u32));
            } else {
                lemma_row_accepts(a@, b@, i as int, row, j);
                assert(row_accepts(row, j));
                let f = fwd@[i as int]->0;
                lemma_row_accepts(a@, b@, i as int, row, f as int);
                lemma_nearest_unique(a@[i as int], b@, f as int, j);
                lemma_column_nearest(a@, b@, dist@, bwd@[j] as int, j);
                lemma_nearest_unique(b@[j], a@, bwd@[j] as int, i as int);
                assert(out@[before.len() as int] == (m as u32, j as u32));
            }
        }
        i = i + 1;
    }
    out
}

proof fn lemma_nothing_to_match(a: Seq<Descriptor>, b: Seq<Descriptor>, n: nat)
    requires
        n <= a.len(),
        a.len() == 0 || b.len() == 0,
    ensures
        match_list(a, b, n) == Seq::<(u32, u32)>::empty(),
    decreases n,
{
    if n > 0 {
        lemma_nothing_to_match(a, b, (n - 1) as nat);
    }
}

/// Row `i` holds the first least value of column `j`.
spec fn nearest_in_column(dist: Seq<Vec<u16>>, i: int, j: int) -> bool {
    &&& 0 <= i < dist.len()
    &&& forall|k: int| 0 <= k < dist.len() ==> dist[i]@[j] <= (#[trigger] dist[k])@[j]
    &&& forall|k: int| 0 <= k < i ==> dist[i]@[j] < (#[trigger] dist[k])@[j]
}

proof fn lemma_column_nearest(
    a: Seq<Descriptor>,
    b: Seq<Descriptor>,
    dist: Seq<Vec<u16>>,
    i: int,
    j: int,
)
    requires
        dist.len() == a.len(),
        forall|m: int| 0 <= m < a.len() ==> is_row(a, b, m, (#[trigger] dist[m])@),
        nearest_in_column(dist, i, j),
        0 <= j < b.len(),
    ensures
        nearest(b[j], a, i),
{
    assert forall|k: int| 0 <= k < a.len() implies dist[k]@[j] == distance(
        b[j]@,
        (#[trigger] a[k])@,
    ) by {
        assert(is_row(a, b, k, dist[k]@));
        law_distance_symmetric(a[k]@, b[j]@);
    }
    assert forall|k: int| 0 <= k < a.len() implies distance(b[j]@, a[i]@) <= distance(
        b[j]@,
        (#[trigger] a[k])@,
    ) by {
        assert(dist[i]@[j] <= dist[k]@[j]);
        assert(a[i] == a[i]);
    }
    assert forall|k: int| 0 <= k < i implies distance(b[j]@, a[i]@) < distance(
        b[j]@,
        (#[trigger] a[k])@,
    ) by {
        assert(dist[i]@[j] < dist[k]@[j]);
        assert(a[i] == a[i]);
    }
}

/// Matching is one to one: no descriptor of either side is in two matches.
pub proof fn law_matches_are_one_to_one(
    a: Seq<Descriptor>,
    b: Seq<Descriptor>,
    i: int,
    j: int,
    k: int,
    l: int,
)
    requires
        matched(a, b, i, j),
        matched(a, b, k, l),
    ensures
        i == k <==> j == l,
{
    if i == k {
        lemma_nearest_unique(a[i], b, j, l);
    }
    if j == l {
        lemma_nearest_unique(b[j], a, i, k);
    }
}

/// A descriptor set matched with itself pairs each descriptor with itself only.
pub proof fn law_self_match_is_identity(a: Seq<Descriptor>, i: int, j: int)
    requires
        matched(a, a, i, j),
    ensures
        i == j,
{
    if i != j {
        lemma_same_diff(a[i]@, 256);
        assert(distance(a[i]@, a[j]@) <= distance(a[i]@, a[i]@));
        assert(5 * distance(a[i]@, a[j]@) < 4 * distance(a[i]@, a[i]@));
    }
}

// ── What the parts mean ───────────────────────────────────────────────────────

/// Two images of one size that have the same levels but for the pixel at `(px, py)`.
pub open spec fn differ_at(a: GrayImage, b: GrayImage, px: int, py: int) -> bool {
    &&& a.width == b.width
    &&& a.height == b.height
    &&& forall|x: int, y: int|
        0 <= x < a.width && 0 <= y < a.height && !(x == px && y == py) ==> #[trigger] a.pixel(x, y)
            == b.pixel(x, y)
}

proof fn lemma_moment_change(
    a: GrayImage,
    b: GrayImage,
    x: int,
    y: int,
    dx: int,
    dy: int,
    along_x: bool,
    n: nat,
)
    requires
        patch_inside(a, x, y),
        patch_inside(b, x, y),
        differ_at(a, b, x + dx, y + dy),
        -15 <= dx <= 15,
        -15 <= dy <= 15,
        n <= 961,
    ensures
        moment(b, x, y, along_x, n) - moment(a, x, y, along_x, n) == if (dy + 15) * 31 + dx + 15 < n
            && dx * dx + dy * dy <= 225 {
            (if along_x {
                dx
            } else {
                dy
            }) * (b.pixel(x + dx, y + dy) - a.pixel(x + dx, y + dy))
        } else {
            0
        },
    decreases n,
{
    if n > 0 {
        lemma_moment_change(a, b, x, y, dx, dy, along_x, (n - 1) as nat);
        let ex = (n - 1) % 31 - 15;
        let ey = (n - 1) as int / 31 - 15;
        assert(n - 1 == (ey + 15) * 31 + ex + 15);
        if ex == dx && ey == dy {
            let k = if along_x {
                dx
            } else {
                dy
            };
            let (p, q) = (b.pixel(x + dx, y + dy) as int, a.pixel(x + dx, y + dy) as int);
            assert(k * p - k * q == k * (p - q)) by (nonlinear_arith);
        } else {
            assert(a.pixel(x + ex, y + ey) == b.pixel(x + ex, y + ey));
        }
    }
}

proof fn lemma_black_moment(img: GrayImage, x: int, y: int, along_x: bool, n: nat)
    requires
        patch_inside(img, x, y),
        forall|px: int, py: int|
            0 <= px < img.width && 0 <= py < img.height ==> #[trigger] img.pixel(px, py) == 0,
        n <= 961,
    ensures
        moment(img, x, y, along_x, n) == 0,
    decreases n,
{
    if n > 0 {
        lemma_black_moment(img, x, y, along_x, (n - 1) as nat);
        let ex = (n - 1) % 31 - 15;
        let ey = (n - 1) as int / 31 - 15;
        assert(0 <= n - 1 < 961);
        assert(img.pixel(x + ex, y + ey) == 0);
        assert(ex * 0 == 0 && ey * 0 == 0);
    }
}

/// A black patch has no moments. A pixel of the disc of radius 15 around the keypoint adds
/// its level times its own offset, `dx` across and `dy` down; no other pixel counts.
pub proof fn law_moment_weighs_each_pixel(
    a: GrayImage,
    b: GrayImage,
    x: int,
    y: int,
    dx: int,
    dy: int,
)
    requires
        patch_inside(a, x, y),
        patch_inside(b, x, y),
        differ_at(a, b, x + dx, y + dy),
    ensures
        ({
            let change = b.pixel(x + dx, y + dy) - a.pixel(x + dx, y + dy);
            let across = moment(b, x, y, true, 961) - moment(a, x, y, true, 961);
            let down = moment(b, x, y, false, 961) - moment(a, x, y, false, 961);
            &&& dx * dx + dy * dy <= 225 ==> across == dx * change && down == dy * change
            &&& dx * dx + dy * dy > 225 ==> across == 0 && down == 0
        }),
        (forall|px: int, py: int|
            0 <= px < a.width && 0 <= py < a.height ==> #[trigger] a.pixel(px, py) == 0) ==> moment(
            a,
            x,
            y,
            true,
            961,
        ) == 0 && moment(a, x, y, false, 961) == 0,
{
    if -15 <= dx <= 15 && -15 <= dy <= 15 {
        lemma_moment_change(a, b, x, y, dx, dy, true, 961);
        lemma_moment_change(a, b, x, y, dx, dy, false, 961);
    } else {
        assert(dx * dx + dy * dy > 225) by (nonlinear_arith)
            requires
                !(-15 <= dx <= 15 && -15 <= dy <= 15),
        ;
        lemma_far_change(a, b, x, y, dx, dy, true, 961);
        lemma_far_change(a, b, x, y, dx, dy, false, 961);
    }
    if forall|px: int, py: int|
        0 <= px < a.width && 0 <= py < a.height ==> #[trigger] a.pixel(px, py) == 0 {
        lemma_black_moment(a, x, y, true, 961);
        lemma_black_moment(a, x, y, false, 961);
    }
}

proof fn lemma_far_change(
    a: GrayImage,
    b: GrayImage,
    x: int,
    y: int,
    dx: int,
    dy: int,
    along_x: bool,
    n: nat,
)
    requires
        patch_inside(a, x, y),
        patch_inside(b, x, y),
        differ_at(a, b, x + dx, y + dy),
        !(-15 <= dx <= 15 && -15 <= dy <= 15),
        n <= 961,
    ensures
        moment(b, x, y, along_x, n) == moment(a, x, y, along_x, n),
    decreases n,
{
    if n > 0 {
        lemma_far_change(a, b, x, y, dx, dy, along_x, (n - 1) as nat);
        let ex = (n - 1) % 31 - 15;
        let ey = (n - 1) as int / 31 - 15;
        assert(0 <= n - 1 < 961);
        assert(a.pixel(x + ex, y + ey) == b.pixel(x + ex, y + ey));
    }
}

/// A comparison reads the two points of its pair at their offsets from the keypoint, row by
/// row in the buffer. It holds one way round at most, and not between equal levels.
pub proof fn law_comparison_of_a_pair(img: GrayImage, x: int, y: int, pair: [i32; 4], back: [i32; 4])
    requires
        back@ == seq![pair@[2], pair@[3], pair@[0], pair@[1]],
    ensures
        ({
            let first = img.data@[(y + pair@[1]) * img.width + (x + pair@[0])];
            let second = img.data@[(y + pair@[3]) * img.width + (x + pair@[2])];
            &&& first_darker(img, x, y, pair) <==> first < second
            &&& first_darker(img, x, y, back) <==> second < first
        }),
{
}

/// The eight comparisons from the `8 k`-th on are the binary digits of byte `k`, the lowest
/// first.
pub proof fn law_bits_spell_the_bytes(d: Seq<u8>, k: int)
    requires
        0 <= k < d.len(),
    ensures
        d[k] == (if desc_bit(d, 8 * k) {
            1int
        } else {
            0
        }) + (if desc_bit(d, 8 * k + 1) {
            2int
        } else {
            0
        }) + (if desc_bit(d, 8 * k + 2) {
            4int
        } else {
            0
        }) + (if desc_bit(d, 8 * k + 3) {
            8int
        } else {
            0
        }) + (if desc_bit(d, 8 * k + 4) {
            16int
        } else {
            0
        }) + (if desc_bit(d, 8 * k + 5) {
            32int
        } else {
            0
        }) + (if desc_bit(d, 8 * k + 6) {
            64int
        } else {
            0
        }) + (if desc_bit(d, 8 * k + 7) {
            128int
        } else {
            0
        }),
{
    let v = d[k];
    assert(8 * k / 8 == k && 8 * k % 8 == 0);
    assert((8 * k + 1) / 8 == k && (8 * k + 1) % 8 == 1);
    assert((8 * k + 2) / 8 == k && (8 * k + 2) % 8 == 2);
    assert((8 * k + 3) / 8 == k && (8 * k + 3) % 8 == 3);
    assert((8 * k + 4) / 8 == k && (8 * k + 4) % 8 == 4);
    assert((8 * k + 5) / 8 == k && (8 * k + 5) % 8 == 5);
    assert((8 * k + 6) / 8 == k && (8 * k + 6) % 8 == 6);
    assert((8 * k + 7) / 8 == k && (8 * k + 7) % 8 == 7);
    assert(v == (if (v >> 0u8) & 1u8 == 1 {
        1u8
    } else {
        0u8
    }) + (if (v >> 1u8) & 1u8 == 1 {
        2u8
    } else {
        0u8
    }) + (if (v >> 2u8) & 1u8 == 1 {
        4u8
    } else {
        0u8
    }) + (if (v >> 3u8) & 1u8 == 1 {
        8u8
    } else {
        0u8
    }) + (if (v >> 4u8) & 1u8 == 1 {
        16u8
    } else {
        0u8
    }) + (if (v >> 5u8) & 1u8 == 1 {
        32u8
    } else {
        0u8
    }) + (if (v >> 6u8) & 1u8 == 1 {
        64u8
    } else {
        0u8
    }) + (if (v >> 7u8) & 1u8 == 1 {
        128u8
    } else {
        0u8
    })) by (bit_vector);
}

proof fn lemma_one_more(a: Seq<u8>, b: Seq<u8>, c: Seq<u8>, i: int, n: nat)
    requires
        desc_bit(a, i) == desc_bit(b, i),
        desc_bit(c, i) != desc_bit(b, i),
        forall|k: int| 0 <= k < 256 && k != i ==> #[trigger] desc_bit(c, k) == desc_bit(b, k),
        n <= 256,
    ensures
        diff_count(a, c, n) == diff_count(a, b, n) + if 0 <= i < n {
            1int
        } else {
            0
        },
    decreases n,
{
    if n > 0 {
        lemma_one_more(a, b, c, i, (n - 1) as nat);
        assert(n - 1 != i ==> desc_bit(c, n - 1) == desc_bit(b, n - 1));
    }
}

/// Every bit counts for one: turning over a bit in which two descriptors agree makes them
/// one further apart.
pub proof fn law_each_bit_counts_one(a: Seq<u8>, b: Seq<u8>, c: Seq<u8>, i: int)
    requires
        0 <= i < 256,
        desc_bit(a, i) == desc_bit(b, i),
        desc_bit(c, i) != desc_bit(b, i),
        forall|k: int| 0 <= k < 256 && k != i ==> #[trigger] desc_bit(c, k) == desc_bit(b, k),
    ensures
        distance(a, c) == distance(a, b) + 1,
{
    lemma_one_more(a, b, c, i, 256);
}

/// Two descriptors match exactly where they are at most 64 bits apart, every other one of
/// the second set is more than a quarter further from the first, and no other one of the
/// first set is nearer to the second, nor as near and before it.
pub proof fn law_what_matches(a: Seq<Descriptor>, b: Seq<Descriptor>, i: int, j: int)
    requires
        0 <= i < a.len(),
        0 <= j < b.len(),
    ensures
        matched(a, b, i, j) <==> {
            let d = distance(a[i]@, b[j]@);
            &&& d <= 64
            &&& forall|k: int|
                0 <= k < b.len() && k != j ==> 4 * distance(a[i]@, (#[trigger] b[k])@) > 5 * d
            &&& forall|k: int| 0 <= k < a.len() ==> distance((#[trigger] a[k])@, b[j]@) >= d
            &&& forall|k: int| 0 <= k < i ==> distance((#[trigger] a[k])@, b[j]@) > d
        },
{
    let d = distance(a[i]@, b[j]@);
    law_distance_symmetric(a[i]@, b[j]@);
    assert forall|k: int| 0 <= k < a.len() implies distance((#[trigger] a[k])@, b[j]@) == distance(
        b[j]@,
        a[k]@,
    ) by {
        law_distance_symmetric(a[k]@, b[j]@);
    }
}

proof fn lemma_match_list(a: Seq<Descriptor>, b: Seq<Descriptor>, n: nat)
    requires
        n <= a.len() <= u32::MAX,
        b.len() <= u32::MAX,
    ensures
        forall|k: int|
            0 <= k < match_list(a, b, n).len() ==> (#[trigger] match_list(a, b, n)[k]).0 < n
                && matched(a, b, match_list(a, b, n)[k].0 as int, match_list(a, b, n)[k].1 as int),
        forall|k: int, l: int|
            0 <= k < l < match_list(a, b, n).len() ==> (#[trigger] match_list(a, b, n)[k]).0 < (
            #[trigger] match_list(a, b, n)[l]).0,
        forall|i: int, j: int|
            i < n && #[trigger] matched(a, b, i, j) ==> match_list(a, b, n).contains(
                (i as u32, j as u32),
            ),
    decreases n,
{
    if n > 0 {
        let m = (n - 1) as nat;
        lemma_match_list(a, b, m);
        let before = match_list(a, b, m);
        let now = match_list(a, b, n);
        if exists|j: int| #[trigger] matched(a, b, n - 1, j) {
            let j = choose|j: int| #[trigger] matched(a, b, n - 1, j);
            assert(now.last() == ((n - 1) as u32, j as u32));
        }
        assert forall|i: int, j: int| i < n && #[trigger] matched(a, b, i, j) implies now.contains(
            (i as u32, j as u32),
        ) by {
            if i < n - 1 {
                assert(before.contains((i as u32, j as u32)));
                let k = choose|k: int| 0 <= k < before.len() && before[k] == (i as u32, j as u32);
                assert(now[k] == (i as u32, j as u32));
            } else {
                let l = choose|l: int| #[trigger] matched(a, b, n - 1, l);
                lemma_nearest_unique(a[i], b, j, l);
                assert(now[now.len() - 1] == (i as u32, j as u32));
            }
        }
    }
}

/// The matches of two sets are all the pairs that match and no other, in the order of the
/// first set.
pub proof fn law_all_matches_are_listed(a: Seq<Descriptor>, b: Seq<Descriptor>, i: u32, j: u32)
    requires
        a.len() <= u32::MAX,
        b.len() <= u32::MAX,
    ensures
        matches_of(a, b).contains((i, j)) <==> matched(a, b, i as int, j as int),
        forall|k: int, l: int|
            0 <= k < l < matches_of(a, b).len() ==> (#[trigger] matches_of(a, b)[k]).0 < (
            #[trigger] matches_of(a, b)[l]).0,
{
    lemma_match_list(a, b, a.len());
    let all = matches_of(a, b);
    if all.contains((i, j)) {
        let k = choose|k: int| 0 <= k < all.len() && all[k] == (i, j);
        assert(matched(a, b, all[k].0 as int, all[k].1 as int));
    }
}

} // verus!
