//! FAST-9 corner detector (Rosten and Drummond) with SAD scoring and
//! non-maximal suppression. Rows are scanned in parallel.
use super::image::GrayImage;
use crate::par::par_map;
use vstd::prelude::*;

verus! {

/// A detected corner in some image's pixel coordinates.
#[derive(Clone, Copy, Debug, PartialEq, Eq, Structural)]
pub struct Corner {
    pub x: u16,
    pub y: u16,
    pub score: u16,
}

/// Circle radius.
pub const BORDER: usize = 3;

/// FAST-9: at least 9 contiguous ring pixels.
pub const ARC: usize = 9;

/// Class of a ring pixel close to the centre's level.
pub const SIMILAR: u8 = 0;

/// Class of a ring pixel brighter than the centre.
pub const BRIGHTER: u8 = 1;

/// Class of a ring pixel darker than the centre.
pub const DARKER: u8 = 2;

// ── Model ─────────────────────────────────────────────────────────────────────

/// Horizontal offset of ring pixel `k`: Bresenham circle of radius 3, clockwise
/// from the top.
pub open spec fn ring_dx(k: int) -> int {
    if k == 0 || k == 8 {
        0
    } else if k == 1 || k == 7 {
        1
    } else if k == 2 || k == 6 {
        2
    } else if 3 <= k <= 5 {
        3
    } else if k == 9 || k == 15 {
        -1
    } else if k == 10 || k == 14 {
        -2
    } else {
        -3
    }
}

/// Vertical offset of ring pixel `k`.
pub open spec fn ring_dy(k: int) -> int {
    if k == 4 || k == 12 {
        0
    } else if k == 5 || k == 11 {
        1
    } else if k == 6 || k == 10 {
        2
    } else if 7 <= k <= 9 {
        3
    } else if k == 3 || k == 13 {
        -1
    } else if k == 2 || k == 14 {
        -2
    } else {
        -3
    }
}

/// Level of ring pixel `k` around `(x, y)`.
pub open spec fn ring_pixel(img: GrayImage, x: int, y: int, k: int) -> int {
    img.pixel(x + ring_dx(k), y + ring_dy(k)) as int
}

/// Class of a ring pixel against the centre: brighter by at least `t`, darker
/// by at least `t`, or neither.
pub open spec fn ring_class(img: GrayImage, x: int, y: int, t: int, k: int) -> u8 {
    let p = ring_pixel(img, x, y, k);
    let c = img.pixel(x, y) as int;
    if p >= c + t {
        BRIGHTER
    } else if p <= c - t {
        DARKER
    } else {
        SIMILAR
    }
}

/// The nine ring pixels from `s` on are all of class `want`.
pub open spec fn arc_at(cls: Seq<u8>, want: u8, s: int) -> bool {
    forall|j: int| s <= j < s + 9 ==> #[trigger] cls[j % 16] == want
}

/// Some nine contiguous pixels of the circle are of class `want`.
pub open spec fn arc(cls: Seq<u8>, want: u8) -> bool {
    exists|s: int| 0 <= s < 16 && #[trigger] arc_at(cls, want, s)
}

/// Classes of the whole ring.
pub open spec fn ring_classes(img: GrayImage, x: int, y: int, t: int) -> Seq<u8> {
    Seq::new(16, |k: int| ring_class(img, x, y, t, k))
}

/// `(x, y)` is a FAST-9 corner at threshold `t`.
pub open spec fn is_corner(img: GrayImage, x: int, y: int, t: int) -> bool {
    arc(ring_classes(img, x, y, t), BRIGHTER) || arc(ring_classes(img, x, y, t), DARKER)
}

/// Sum of the absolute differences between the first `n` ring pixels and the
/// centre.
pub open spec fn ring_sad(img: GrayImage, x: int, y: int, n: nat) -> int
    decreases n,
{
    if n == 0 {
        0
    } else {
        let d = ring_pixel(img, x, y, n - 1) - img.pixel(x, y);
        ring_sad(img, x, y, (n - 1) as nat) + if d < 0 {
            -d
        } else {
            d
        }
    }
}

/// The corner record of a pixel.
pub open spec fn corner_at(img: GrayImage, x: int, y: int) -> Corner {
    Corner { x: x as u16, y: y as u16, score: ring_sad(img, x, y, 16) as u16 }
}

/// Corners of row `y` left of column `x_end`, from left to right.
pub open spec fn row_corners(img: GrayImage, t: int, y: int, x_end: int) -> Seq<Corner>
    decreases x_end,
{
    if x_end <= BORDER {
        Seq::empty()
    } else {
        let before = row_corners(img, t, y, x_end - 1);
        if is_corner(img, x_end - 1, y, t) {
            before.push(corner_at(img, x_end - 1, y))
        } else {
            before
        }
    }
}

/// Corners of the rows above `y_end`, row by row.
pub open spec fn rows_corners(img: GrayImage, t: int, y_end: int) -> Seq<Corner>
    decreases y_end,
{
    if y_end <= BORDER {
        Seq::empty()
    } else {
        rows_corners(img, t, y_end - 1) + row_corners(img, t, y_end - 1, img.width - BORDER)
    }
}

/// All corners of an image in raster order. The outermost three pixels have no
/// full ring and hold none.
pub open spec fn all_corners(img: GrayImage, t: int) -> Seq<Corner> {
    if img.width <= 2 * BORDER || img.height <= 2 * BORDER {
        Seq::empty()
    } else {
        rows_corners(img, t, img.height - BORDER)
    }
}

// ── Ring ──────────────────────────────────────────────────────────────────────

fn ring_offset(k: usize) -> (r: (i32, i32))
    requires
        k < 16,
    ensures
        r.0 == ring_dx(k as int),
        r.1 == ring_dy(k as int),
        -3 <= r.0 <= 3,
        -3 <= r.1 <= 3,
{
    if k == 0 {
        (0, -3)
    } else if k == 1 {
        (1, -3)
    } else if k == 2 {
        (2, -2)
    } else if k == 3 {
        (3, -1)
    } else if k == 4 {
        (3, 0)
    } else if k == 5 {
        (3, 1)
    } else if k == 6 {
        (2, 2)
    } else if k == 7 {
        (1, 3)
    } else if k == 8 {
        (0, 3)
    } else if k == 9 {
        (-1, 3)
    } else if k == 10 {
        (-2, 2)
    } else if k == 11 {
        (-3, 1)
    } else if k == 12 {
        (-3, 0)
    } else if k == 13 {
        (-3, -1)
    } else if k == 14 {
        (-2, -2)
    } else {
        (-1, -3)
    }
}

/// The pixel and its whole ring lie in the image.
spec fn has_ring(img: GrayImage, x: int, y: int) -> bool {
    &&& img.covers()
    &&& BORDER <= x < img.width - BORDER
    &&& BORDER <= y < img.height - BORDER
}

fn ring_level(img: &GrayImage, x: usize, y: usize, k: usize) -> (r: i32)
    requires
        has_ring(*img, x as int, y as int),
        k < 16,
    ensures
        r == ring_pixel(*img, x as int, y as int, k as int),
        0 <= r <= 255,
{
    let (dx, dy): (i32, i32) = ring_offset(k);
    proof {
        let (w, h) = (img.width as int, img.height as int);
        let yy = y + dy;
        assert(0 <= yy * w && yy * w + w <= w * h) by (nonlinear_arith)
            requires
                0 <= yy < h,
                0 <= w,
        ;
    }
    let px: usize = if dx < 0 {
        x - (-dx) as usize
    } else {
        x + dx as usize
    };
    let py: usize = if dy < 0 {
        y - (-dy) as usize
    } else {
        y + dy as usize
    };
    img.at(px, py) as i32
}

fn class_of(p: i32, centre: i32, t: i32) -> (r: u8)
    requires
        0 <= p <= 255,
        0 <= centre <= 255,
        0 <= t <= 255,
    ensures
        r == (if p >= centre + t {
            BRIGHTER
        } else if p <= centre - t {
            DARKER
        } else {
            SIMILAR
        }),
{
    if p >= centre + t {
        BRIGHTER
    } else if p <= centre - t {
        DARKER
    } else {
        SIMILAR
    }
}

/// Is there a circular run of at least [`ARC`] pixels all equal to `want`?
fn has_arc(cls: &[u8; 16], want: u8) -> (r: bool)
    ensures
        r == arc(cls@, want),
{
    let mut run: usize = 0;
    let mut i: usize = 0;
    // 16 + ARC - 1 steps cover the runs that wrap around.
    while i < 24
        invariant
            i <= 24,
            run < ARC,
            run <= i,
            forall|j: int| i - run <= j < i ==> #[trigger] cls@[j % 16] == want,
            run < i ==> cls@[(i - run - 1) % 16] != want,
            forall|s: int| 0 <= s && s + 9 <= i ==> !#[trigger] arc_at(cls@, want, s),
        decreases 24 - i,
    {
        if cls[i % 16] == want {
            run = run + 1;
            if run >= ARC {
                assert(arc_at(cls@, want, i - 8));
                return true;
            }
        } else {
            run = 0;
        }
        assert forall|s: int| 0 <= s && s + 9 <= i + 1 implies !#[trigger] arc_at(
            cls@,
            want,
            s,
        ) by {
            if s + 9 == i + 1 {
                let j: int = i - run;
                assert(s <= j < s + 9);
                assert(cls@[j % 16] != want);
            }
        }
        i = i + 1;
    }
    false
}

/// An arc of nine holds at least two of the four compass pixels.
proof fn lemma_arc_compass(cls: Seq<u8>, want: u8)
    requires
        cls.len() == 16,
        arc(cls, want),
    ensures
        (if cls[0] == want {
            1int
        } else {
            0
        }) + (if cls[4] == want {
            1int
        } else {
            0
        }) + (if cls[8] == want {
            1int
        } else {
            0
        }) + (if cls[12] == want {
            1int
        } else {
            0
        }) >= 2,
{
    let s = choose|s: int| 0 <= s < 16 && #[trigger] arc_at(cls, want, s);
    let m: int = ((s + 3) / 4) * 4;
    assert(s <= m < s + 4);
    assert(cls[m % 16] == want);
    assert(cls[(m + 4) % 16] == want);
    assert(m % 16 == 0 || m % 16 == 4 || m % 16 == 8 || m % 16 == 12);
    assert((m + 4) % 16 == 0 || (m + 4) % 16 == 4 || (m + 4) % 16 == 8 || (m + 4) % 16 == 12);
    assert(m % 16 != (m + 4) % 16);
}

/// If `(x, y)` is a FAST-9 corner at threshold `t`, its score (sum of
/// |ring - centre| over the 16 ring pixels), else `None`.
fn corner_score(img: &GrayImage, x: usize, y: usize, t: i32) -> (r: Option<u16>)
    requires
        has_ring(*img, x as int, y as int),
        0 <= t <= 255,
    ensures
        r is Some <==> is_corner(*img, x as int, y as int, t as int),
        r is Some ==> r->0 == ring_sad(*img, x as int, y as int, 16),
{
    let ghost classes = ring_classes(*img, x as int, y as int, t as int);
    proof {
        let (w, h) = (img.width as int, img.height as int);
        assert(0 <= y * w && y * w + w <= w * h) by (nonlinear_arith)
            requires
                0 <= y < h,
                0 <= w,
        ;
    }
    let centre: i32 = img.at(x, y) as i32;

    // Cheap reject on the four compass pixels: fewer than two bright and fewer
    // than two dark ones leave no room for an arc.
    let c0: u8 = class_of(ring_level(img, x, y, 0), centre, t);
    let c4: u8 = class_of(ring_level(img, x, y, 4), centre, t);
    let c8: u8 = class_of(ring_level(img, x, y, 8), centre, t);
    let c12: u8 = class_of(ring_level(img, x, y, 12), centre, t);
    let bright: u8 = (c0 == BRIGHTER) as u8 + (c4 == BRIGHTER) as u8 + (c8 == BRIGHTER) as u8 + (c12 == BRIGHTER) as u8;
    let dark: u8 = (c0 == DARKER) as u8 + (c4 == DARKER) as u8 + (c8 == DARKER) as u8 + (c12 == DARKER) as u8;
    if bright < 2 && dark < 2 {
        proof {
            assert(classes[0] == c0 && classes[4] == c4 && classes[8] == c8 && classes[12] == c12);
            if arc(classes, BRIGHTER) {
                lemma_arc_compass(classes, BRIGHTER);
            }
            if arc(classes, DARKER) {
                lemma_arc_compass(classes, DARKER);
            }
        }
        return None;
    }
    let mut cls: [u8; 16] = [SIMILAR; 16];
    let mut sad: i32 = 0;
    let mut i: usize = 0;
    while i < 16
        invariant
            i <= 16,
            has_ring(*img, x as int, y as int),
            0 <= t <= 255,
            centre == img.pixel(x as int, y as int),
            classes == ring_classes(*img, x as int, y as int, t as int),
            forall|k: int| 0 <= k < i ==> cls@[k] == classes[k],
            sad == ring_sad(*img, x as int, y as int, i as nat),
            0 <= sad <= 255 * i,
        decreases 16 - i,
    {
        let p: i32 = ring_level(img, x, y, i);
        cls[i] = class_of(p, centre, t);
        let d: i32 = p - centre;
        sad = sad + if d < 0 {
            -d
        } else {
            d
        };
        i = i + 1;
    }
    assert(cls@ =~= classes);
    if !has_arc(&cls, BRIGHTER) && !has_arc(&cls, DARKER) {
        return None;
    }
    Some(sad as u16)
}

/// Corners of one row, from left to right.
fn detect_row(img: &GrayImage, y: usize, t: u8) -> (r: Vec<Corner>)
    requires
        img.covers(),
        img.width > 2 * BORDER,
        BORDER <= y < img.height - BORDER,
    ensures
        r@ == row_corners(*img, t as int, y as int, img.width - BORDER),
{
    let mut out: Vec<Corner> = Vec::new();
    let mut x: usize = BORDER;
    while x < img.width - BORDER
        invariant
            img.covers(),
            img.width > 2 * BORDER,
            BORDER <= y < img.height - BORDER,
            BORDER <= x <= img.width - BORDER,
            out@ == row_corners(*img, t as int, y as int, x as int),
        decreases img.width - x,
    {
        if let Some(score) = corner_score(img, x, y, t as i32) {
            out.push(Corner { x: x as u16, y: y as u16, score });
        }
        x = x + 1;
    }
    out
}

fn append(out: &mut Vec<Corner>, tail: &Vec<Corner>)
    ensures
        final(out)@ == old(out)@ + tail@,
{
    let ghost head = out@;
    let mut i: usize = 0;
    while i < tail.len()
        invariant
            i <= tail@.len(),
            out@ == head + tail@.take(i as int),
        decreases tail@.len() - i,
    {
        out.push(tail[i]);
        i = i + 1;
        assert(tail@.take(i as int) =~= tail@.take(i - 1).push(tail@[i - 1]));
    }
    assert(tail@.take(i as int) =~= tail@);
}

/// Corners of the `i`-th row that has full rings.
spec fn scanned_row(img: GrayImage, t: u8, i: usize) -> Seq<Corner> {
    row_corners(img, t as int, i + BORDER, img.width - BORDER)
}

/// Detect FAST-9 corners over the whole image at threshold `t`, in raster
/// order. Rows are scanned in parallel.
pub fn detect(img: &GrayImage, t: u8) -> (r: Vec<Corner>)
    requires
        img.covers(),
    ensures
        r@ == all_corners(*img, t as int),
{
    if img.width <= 2 * BORDER || img.height <= 2 * BORDER {
        return Vec::new();
    }
    let n: usize = img.height - 2 * BORDER;
    let scan_row = |i: usize| -> (row: Vec<Corner>)
        requires
            n > i,
        ensures
            row@ == scanned_row(*img, t, i),
        {
            detect_row(img, i + BORDER, t)
        };
    let rows: Vec<Vec<Corner>> = par_map(n, scan_row);
    let mut out: Vec<Corner> = Vec::new();
    let mut i: usize = 0;
    while i < n
        invariant
            i <= n,
            n == img.height - 2 * BORDER,
            rows@.len() == n,
            forall|j: usize|
                j < n ==> (#[trigger] rows@[j as int])@ == scanned_row(*img, t, j),
            out@ == rows_corners(*img, t as int, i + BORDER),
        decreases n - i,
    {
        append(&mut out, &rows[i]);
        i = i + 1;
    }
    out
}

// ── Laws of detection ─────────────────────────────────────────────────────────

/// A corner at some threshold is one at every lower threshold.
pub proof fn law_corner_monotone(img: GrayImage, x: int, y: int, lo: int, hi: int)
    requires
        0 <= lo <= hi,
        is_corner(img, x, y, hi),
    ensures
        is_corner(img, x, y, lo),
{
    let a = ring_classes(img, x, y, lo);
    let b = ring_classes(img, x, y, hi);
    let want: u8 = if arc(b, BRIGHTER) {
        BRIGHTER
    } else {
        DARKER
    };
    let s = choose|s: int| 0 <= s < 16 && #[trigger] arc_at(b, want, s);
    assert forall|j: int| s <= j < s + 9 implies #[trigger] a[j % 16] == want by {
        assert(b[j % 16] == want);
    }
    assert(arc_at(a, want, s));
}

proof fn lemma_row_fewer(img: GrayImage, y: int, x_end: int, lo: int, hi: int)
    requires
        0 <= lo <= hi,
    ensures
        row_corners(img, hi, y, x_end).len() <= row_corners(img, lo, y, x_end).len(),
    decreases x_end,
{
    if x_end > BORDER {
        lemma_row_fewer(img, y, x_end - 1, lo, hi);
        if is_corner(img, x_end - 1, y, hi) {
            law_corner_monotone(img, x_end - 1, y, lo, hi);
        }
    }
}

proof fn lemma_rows_fewer(img: GrayImage, y_end: int, lo: int, hi: int)
    requires
        0 <= lo <= hi,
    ensures
        rows_corners(img, hi, y_end).len() <= rows_corners(img, lo, y_end).len(),
    decreases y_end,
{
    if y_end > BORDER {
        lemma_rows_fewer(img, y_end - 1, lo, hi);
        lemma_row_fewer(img, y_end - 1, img.width - BORDER, lo, hi);
    }
}

proof fn lemma_row_kept(img: GrayImage, y: int, x_end: int, lo: int, hi: int, c: Corner)
    requires
        0 <= lo <= hi,
        row_corners(img, hi, y, x_end).contains(c),
    ensures
        row_corners(img, lo, y, x_end).contains(c),
    decreases x_end,
{
    let all = row_corners(img, hi, y, x_end);
    let k = choose|k: int| 0 <= k < all.len() && all[k] == c;
    let before = row_corners(img, hi, y, x_end - 1);
    let low = row_corners(img, lo, y, x_end - 1);
    if k < before.len() {
        assert(before[k] == c);
        lemma_row_kept(img, y, x_end - 1, lo, hi, c);
        let m = choose|m: int| 0 <= m < low.len() && low[m] == c;
        assert(row_corners(img, lo, y, x_end)[m] == c);
    } else {
        law_corner_monotone(img, x_end - 1, y, lo, hi);
        assert(row_corners(img, lo, y, x_end)[low.len() as int] == c);
    }
}

proof fn lemma_rows_kept(img: GrayImage, y_end: int, lo: int, hi: int, c: Corner)
    requires
        0 <= lo <= hi,
        rows_corners(img, hi, y_end).contains(c),
    ensures
        rows_corners(img, lo, y_end).contains(c),
    decreases y_end,
{
    let all = rows_corners(img, hi, y_end);
    let k = choose|k: int| 0 <= k < all.len() && all[k] == c;
    let before = rows_corners(img, hi, y_end - 1);
    let row = row_corners(img, hi, y_end - 1, img.width - BORDER);
    let low = rows_corners(img, lo, y_end - 1);
    let low_row = row_corners(img, lo, y_end - 1, img.width - BORDER);
    if k < before.len() {
        assert(before[k] == c);
        lemma_rows_kept(img, y_end - 1, lo, hi, c);
        let m = choose|m: int| 0 <= m < low.len() && low[m] == c;
        assert(rows_corners(img, lo, y_end)[m] == c);
    } else {
        assert(row[k - before.len()] == c);
        lemma_row_kept(img, y_end - 1, img.width - BORDER, lo, hi, c);
        let m = choose|m: int| 0 <= m < low_row.len() && low_row[m] == c;
        assert(rows_corners(img, lo, y_end)[low.len() + m] == c);
    }
}

/// A stricter threshold never detects more corners, and each that it detects is
/// detected at the laxer one too, at the same place and with the same score.
pub proof fn law_higher_threshold_detects_fewer(img: GrayImage, lo: int, hi: int)
    requires
        0 <= lo <= hi,
    ensures
        all_corners(img, hi).len() <= all_corners(img, lo).len(),
        forall|c: Corner|
            #![trigger all_corners(img, hi).contains(c)]
            all_corners(img, hi).contains(c) ==> all_corners(img, lo).contains(c),
{
    lemma_rows_fewer(img, img.height - BORDER, lo, hi);
    assert forall|c: Corner|
        #![trigger all_corners(img, hi).contains(c)]
        all_corners(img, hi).contains(c) implies all_corners(img, lo).contains(c) by {
        lemma_rows_kept(img, img.height - BORDER, lo, hi, c);
    }
}

proof fn lemma_flat_not_corner(img: GrayImage, x: int, y: int, t: int, level: u8)
    requires
        has_ring(img, x, y),
        t >= 1,
        forall|i: int| 0 <= i < img.width * img.height ==> img.data@[i] == level,
    ensures
        !is_corner(img, x, y, t),
{
    let cls = ring_classes(img, x, y, t);
    let (w, h) = (img.width as int, img.height as int);
    assert(0 <= y * w && y * w + w <= w * h) by (nonlinear_arith)
        requires
            0 <= y < h,
            0 <= w,
    ;
    assert forall|k: int| 0 <= k < 16 implies cls[k] == SIMILAR by {
        let yy = y + ring_dy(k);
        assert(0 <= yy * w && yy * w + w <= w * h) by (nonlinear_arith)
            requires
                0 <= yy < h,
                0 <= w,
        ;
    }
    assert forall|s: int, want: u8| 0 <= s < 16 && want != SIMILAR implies !#[trigger] arc_at(
        cls,
        want,
        s,
    ) by {
        assert(cls[s % 16] == SIMILAR);
    }
}

proof fn lemma_flat_row(img: GrayImage, t: int, y: int, x_end: int, level: u8)
    requires
        img.covers(),
        BORDER <= y < img.height - BORDER,
        x_end <= img.width - BORDER,
        t >= 1,
        forall|i: int| 0 <= i < img.width * img.height ==> img.data@[i] == level,
    ensures
        row_corners(img, t, y, x_end) == Seq::<Corner>::empty(),
    decreases x_end,
{
    if x_end > BORDER {
        lemma_flat_row(img, t, y, x_end - 1, level);
        lemma_flat_not_corner(img, x_end - 1, y, t, level);
    }
}

proof fn lemma_flat_rows(img: GrayImage, t: int, y_end: int, level: u8)
    requires
        img.covers(),
        img.width > 2 * BORDER,
        y_end <= img.height - BORDER,
        t >= 1,
        forall|i: int| 0 <= i < img.width * img.height ==> img.data@[i] == level,
    ensures
        rows_corners(img, t, y_end) == Seq::<Corner>::empty(),
    decreases y_end,
{
    if y_end > BORDER {
        lemma_flat_rows(img, t, y_end - 1, level);
        lemma_flat_row(img, t, y_end - 1, img.width - BORDER, level);
        assert(rows_corners(img, t, y_end) =~= Seq::<Corner>::empty());
    }
}

/// A flat image has no corners at any threshold above zero.
pub proof fn law_flat_image_has_no_corners(img: GrayImage, t: int, level: u8)
    requires
        img.covers(),
        t >= 1,
        forall|i: int| 0 <= i < img.width * img.height ==> img.data@[i] == level,
    ensures
        all_corners(img, t) == Seq::<Corner>::empty(),
{
    if img.width > 2 * BORDER && img.height > 2 * BORDER {
        lemma_flat_rows(img, t, img.height - BORDER, level);
    }
}

// ── What a corner is ──────────────────────────────────────────────────────────

/// The ring is the whole circle of radius three: the sixteen pixels whose squared
/// distance from the centre is 8 to 10, each once, in an order in which neighbours touch.
pub proof fn law_ring_is_the_circle(dx: int, dy: int, k: int, m: int)
    requires
        0 <= k < m < 16,
    ensures
        8 <= dx * dx + dy * dy <= 10 <==> exists|j: int|
            0 <= j < 16 && #[trigger] ring_dx(j) == dx && ring_dy(j) == dy,
        ring_dx(k) != ring_dx(m) || ring_dy(k) != ring_dy(m),
        -1 <= ring_dx(m) - ring_dx((m + 1) % 16) <= 1,
        -1 <= ring_dy(m) - ring_dy((m + 1) % 16) <= 1,
        -1 <= ring_dx(0) - ring_dx(1) <= 1,
        -1 <= ring_dy(0) - ring_dy(1) <= 1,
{
    assert forall|j: int| 0 <= j < 16 && #[trigger] ring_dx(j) == dx && ring_dy(j) == dy implies 8
        <= dx * dx + dy * dy <= 10 by {
        lemma_squares(dx);
        lemma_squares(dy);
    }
    if 8 <= dx * dx + dy * dy <= 10 {
        lemma_squares(dx);
        lemma_squares(dy);
        assert(-3 <= dx <= 3 && -3 <= dy <= 3);
        assert(ring_dx(0) == 0 && ring_dy(0) == -3);
        assert(ring_dx(1) == 1 && ring_dy(1) == -3);
        assert(ring_dx(2) == 2 && ring_dy(2) == -2);
        assert(ring_dx(3) == 3 && ring_dy(3) == -1);
        assert(ring_dx(4) == 3 && ring_dy(4) == 0);
        assert(ring_dx(5) == 3 && ring_dy(5) == 1);
        assert(ring_dx(6) == 2 && ring_dy(6) == 2);
        assert(ring_dx(7) == 1 && ring_dy(7) == 3);
        assert(ring_dx(8) == 0 && ring_dy(8) == 3);
        assert(ring_dx(9) == -1 && ring_dy(9) == 3);
        assert(ring_dx(10) == -2 && ring_dy(10) == 2);
        assert(ring_dx(11) == -3 && ring_dy(11) == 1);
        assert(ring_dx(12) == -3 && ring_dy(12) == 0);
        assert(ring_dx(13) == -3 && ring_dy(13) == -1);
        assert(ring_dx(14) == -2 && ring_dy(14) == -2);
        assert(ring_dx(15) == -1 && ring_dy(15) == -3);
    }
}

proof fn lemma_squares(a: int)
    ensures
        a * a >= 0,
        a == 0 ==> a * a == 0,
        a == 1 || a == -1 ==> a * a == 1,
        a == 2 || a == -2 ==> a * a == 4,
        a == 3 || a == -3 ==> a * a == 9,
        a >= 4 || a <= -4 ==> a * a >= 16,
{
    assert(a * a >= 0 && (a >= 4 || a <= -4 ==> a * a >= 16)) by (nonlinear_arith);
    assert((-a) * (-a) == a * a) by (nonlinear_arith);
    let b = -a;
    if a == 1 || a == 2 || a == 3 {
        assert(a * a == if a == 1 {
            1
        } else if a == 2 {
            4
        } else {
            9int
        });
    } else if b == 1 || b == 2 || b == 3 {
        assert(b * b == if b == 1 {
            1
        } else if b == 2 {
            4
        } else {
            9int
        });
    }
}

/// Level of the pixel at an offset from `(x, y)`.
pub open spec fn level_at(img: GrayImage, x: int, y: int, dx: int, dy: int) -> int {
    img.data@[(y + dy) * img.width + x + dx] as int
}

/// Nine ring pixels in a row, from the `s`-th on, are at least `t` above the centre, or,
/// for `sign` -1, at least `t` below it.
pub open spec fn nine_differ(img: GrayImage, x: int, y: int, t: int, s: int, sign: int) -> bool {
    forall|j: int|
        #![trigger ring_dx(j % 16)]
        s <= j < s + 9 ==> sign * (level_at(img, x, y, ring_dx(j % 16), ring_dy(j % 16))
            - level_at(img, x, y, 0, 0)) >= t
}

/// A pixel is found exactly where it has a full ring and nine ring pixels in a row are all
/// brighter, or all darker, by at least the threshold.
pub proof fn law_found_exactly_where_nine_differ(img: GrayImage, t: int, x: int, y: int)
    requires
        img.covers(),
        img.width <= 0x1_0000,
        img.height <= 0x1_0000,
        0 <= x < img.width,
        0 <= y < img.height,
        t >= 1,
    ensures
        (exists|i: int|
            0 <= i < all_corners(img, t).len() && (#[trigger] all_corners(img, t)[i]).x == x
                && all_corners(img, t)[i].y == y) <==> (3 <= x < img.width - 3 && 3 <= y
            < img.height - 3 && exists|s: int, sign: int|
            (sign == 1 || sign == -1) && #[trigger] nine_differ(img, x, y, t, s, sign)),
{
    let all = all_corners(img, t);
    if exists|i: int| 0 <= i < all.len() && (#[trigger] all[i]).x == x && all[i].y == y {
        let i = choose|i: int| 0 <= i < all.len() && (#[trigger] all[i]).x == x && all[i].y == y;
        let at = lemma_rows_from(img, t, img.height - 3, i);
        lemma_corner_has_nine(img, x, y, t);
    }
    if 3 <= x < img.width - 3 && 3 <= y < img.height - 3 && exists|s: int, sign: int|
        (sign == 1 || sign == -1) && #[trigger] nine_differ(img, x, y, t, s, sign) {
        let (s, sign) = choose|s: int, sign: int|
            (sign == 1 || sign == -1) && #[trigger] nine_differ(img, x, y, t, s, sign);
        lemma_nine_make_corner(img, x, y, t, s, sign);
        lemma_rows_has(img, t, img.height - 3, x, y);
        let i = choose|i: int| 0 <= i < all.len() && all[i] == corner_at(img, x, y);
        assert(all[i].x == x && all[i].y == y);
    }
}

proof fn lemma_nine_make_corner(img: GrayImage, x: int, y: int, t: int, s: int, sign: int)
    requires
        t >= 1,
        sign == 1 || sign == -1,
        nine_differ(img, x, y, t, s, sign),
    ensures
        is_corner(img, x, y, t),
{
    let cls = ring_classes(img, x, y, t);
    let want: u8 = if sign == 1 {
        BRIGHTER
    } else {
        DARKER
    };
    let r = s % 16;
    assert forall|j: int| r <= j < r + 9 implies #[trigger] cls[j % 16] == want by {
        let m = j - r + s;
        assert(m % 16 == j % 16);
        let d = level_at(img, x, y, ring_dx(m % 16), ring_dy(m % 16)) - level_at(img, x, y, 0, 0);
        assert(sign * d >= t);
        assert(1 * d == d && -1 * d == -d);
    }
    assert(arc_at(cls, want, r));
}

proof fn lemma_corner_has_nine(img: GrayImage, x: int, y: int, t: int)
    requires
        t >= 1,
        is_corner(img, x, y, t),
    ensures
        exists|s: int, sign: int|
            (sign == 1 || sign == -1) && #[trigger] nine_differ(img, x, y, t, s, sign),
{
    let cls = ring_classes(img, x, y, t);
    let bright = arc(cls, BRIGHTER);
    let want: u8 = if bright {
        BRIGHTER
    } else {
        DARKER
    };
    let sign: int = if bright {
        1
    } else {
        -1
    };
    let s = choose|s: int| 0 <= s < 16 && #[trigger] arc_at(cls, want, s);
    assert forall|j: int|
        #![trigger ring_dx(j % 16)]
        s <= j < s + 9 implies sign * (level_at(img, x, y, ring_dx(j % 16), ring_dy(j % 16))
        - level_at(img, x, y, 0, 0)) >= t by {
        assert(cls[j % 16] == want);
        let d = level_at(img, x, y, ring_dx(j % 16), ring_dy(j % 16)) - level_at(img, x, y, 0, 0);
        assert(1 * d == d && -1 * d == -d);
    }
    assert(nine_differ(img, x, y, t, s, sign));
}

proof fn lemma_row_has(img: GrayImage, t: int, y: int, x_end: int, x: int)
    requires
        3 <= x < x_end,
        is_corner(img, x, y, t),
    ensures
        row_corners(img, t, y, x_end).contains(corner_at(img, x, y)),
    decreases x_end,
{
    let row = row_corners(img, t, y, x_end);
    let before = row_corners(img, t, y, x_end - 1);
    if x == x_end - 1 {
        assert(row[before.len() as int] == corner_at(img, x, y));
    } else {
        lemma_row_has(img, t, y, x_end - 1, x);
        let i = choose|i: int| 0 <= i < before.len() && before[i] == corner_at(img, x, y);
        assert(row[i] == corner_at(img, x, y));
    }
}

proof fn lemma_rows_has(img: GrayImage, t: int, y_end: int, x: int, y: int)
    requires
        3 <= x < img.width - 3,
        3 <= y < y_end,
        is_corner(img, x, y, t),
    ensures
        rows_corners(img, t, y_end).contains(corner_at(img, x, y)),
    decreases y_end,
{
    let c = corner_at(img, x, y);
    let all = rows_corners(img, t, y_end);
    let before = rows_corners(img, t, y_end - 1);
    let row = row_corners(img, t, y_end - 1, img.width - 3);
    if y == y_end - 1 {
        lemma_row_has(img, t, y, img.width - 3, x);
        let i = choose|i: int| 0 <= i < row.len() && row[i] == c;
        assert(all[before.len() + i] == c);
    } else {
        lemma_rows_has(img, t, y_end - 1, x, y);
        let i = choose|i: int| 0 <= i < before.len() && before[i] == c;
        assert(all[i] == c);
    }
}

/// Column of the `i`-th corner of a row.
proof fn lemma_row_from(img: GrayImage, t: int, y: int, x_end: int, i: int) -> (x: int)
    requires
        0 <= i < row_corners(img, t, y, x_end).len(),
    ensures
        3 <= x < x_end,
        is_corner(img, x, y, t),
        row_corners(img, t, y, x_end)[i] == corner_at(img, x, y),
    decreases x_end,
{
    let before = row_corners(img, t, y, x_end - 1);
    if i < before.len() {
        lemma_row_from(img, t, y, x_end - 1, i)
    } else {
        x_end - 1
    }
}

/// Column and row of the `i`-th corner.
proof fn lemma_rows_from(img: GrayImage, t: int, y_end: int, i: int) -> (p: (int, int))
    requires
        0 <= i < rows_corners(img, t, y_end).len(),
    ensures
        3 <= p.0 < img.width - 3,
        3 <= p.1 < y_end,
        is_corner(img, p.0, p.1, t),
        rows_corners(img, t, y_end)[i] == corner_at(img, p.0, p.1),
    decreases y_end,
{
    let before = rows_corners(img, t, y_end - 1);
    if i < before.len() {
        lemma_rows_from(img, t, y_end - 1, i)
    } else {
        let x = lemma_row_from(img, t, y_end - 1, img.width - 3, i - before.len());
        (x, y_end - 1)
    }
}

/// How far the pixel at an offset is from the centre's level.
pub open spec fn contrast(img: GrayImage, x: int, y: int, dx: int, dy: int) -> int {
    let d = level_at(img, x, y, dx, dy) - level_at(img, x, y, 0, 0);
    if d < 0 {
        -d
    } else {
        d
    }
}

/// A corner's score is the contrast summed over the circle.
pub proof fn law_score_sums_the_contrast(img: GrayImage, t: int, i: int)
    requires
        img.covers(),
        img.width <= 0x1_0000,
        img.height <= 0x1_0000,
        0 <= i < all_corners(img, t).len(),
    ensures
        ({
            let c = all_corners(img, t)[i];
            let (x, y) = (c.x as int, c.y as int);
            c.score == contrast(img, x, y, 0, -3) + contrast(img, x, y, 0, 3) + contrast(
                img,
                x,
                y,
                -3,
                0,
            ) + contrast(img, x, y, 3, 0) + contrast(img, x, y, 1, -3) + contrast(img, x, y, -1, -3)
                + contrast(img, x, y, 1, 3) + contrast(img, x, y, -1, 3) + contrast(img, x, y, 3, -1)
                + contrast(img, x, y, 3, 1) + contrast(img, x, y, -3, -1) + contrast(img, x, y, -3, 1)
                + contrast(img, x, y, 2, -2) + contrast(img, x, y, 2, 2) + contrast(img, x, y, -2, -2)
                + contrast(img, x, y, -2, 2)
        }),
{
    let (x, y) = lemma_rows_from(img, t, img.height - 3, i);
    lemma_sad_bound(img, x, y, 16);
    lemma_sad_step(img, x, y, 1, 0, -3);
    lemma_sad_step(img, x, y, 2, 1, -3);
    lemma_sad_step(img, x, y, 3, 2, -2);
    lemma_sad_step(img, x, y, 4, 3, -1);
    lemma_sad_step(img, x, y, 5, 3, 0);
    lemma_sad_step(img, x, y, 6, 3, 1);
    lemma_sad_step(img, x, y, 7, 2, 2);
    lemma_sad_step(img, x, y, 8, 1, 3);
    lemma_sad_step(img, x, y, 9, 0, 3);
    lemma_sad_step(img, x, y, 10, -1, 3);
    lemma_sad_step(img, x, y, 11, -2, 2);
    lemma_sad_step(img, x, y, 12, -3, 1);
    lemma_sad_step(img, x, y, 13, -3, 0);
    lemma_sad_step(img, x, y, 14, -3, -1);
    lemma_sad_step(img, x, y, 15, -2, -2);
    lemma_sad_step(img, x, y, 16, -1, -3);
}

/// One more ring pixel adds its contrast.
proof fn lemma_sad_step(img: GrayImage, x: int, y: int, n: nat, dx: int, dy: int)
    requires
        1 <= n <= 16,
        ring_dx(n - 1) == dx,
        ring_dy(n - 1) == dy,
    ensures
        ring_sad(img, x, y, n) == ring_sad(img, x, y, (n - 1) as nat) + contrast(img, x, y, dx, dy),
        ring_sad(img, x, y, 0) == 0,
{
}

proof fn lemma_sad_bound(img: GrayImage, x: int, y: int, n: nat)
    ensures
        0 <= ring_sad(img, x, y, n) <= 255 * n,
    decreases n,
{
    if n > 0 {
        lemma_sad_bound(img, x, y, (n - 1) as nat);
    }
}

/// Corners come in raster order: top row first, from left to right, none twice.
pub proof fn law_corners_in_raster_order(img: GrayImage, t: int, i: int, j: int)
    requires
        img.width <= 0x1_0000,
        img.height <= 0x1_0000,
        0 <= i < j < all_corners(img, t).len(),
    ensures
        ({
            let (a, b) = (all_corners(img, t)[i], all_corners(img, t)[j]);
            a.y < b.y || a.y == b.y && a.x < b.x
        }),
{
    lemma_rows_ordered(img, t, img.height - 3, i, j);
}

proof fn lemma_row_ordered(img: GrayImage, t: int, y: int, x_end: int, i: int, j: int)
    requires
        x_end <= 0x1_0000,
        0 <= i < j < row_corners(img, t, y, x_end).len(),
    ensures
        row_corners(img, t, y, x_end)[i].x < row_corners(img, t, y, x_end)[j].x,
    decreases x_end,
{
    let before = row_corners(img, t, y, x_end - 1);
    if j < before.len() {
        lemma_row_ordered(img, t, y, x_end - 1, i, j);
    } else {
        let x = lemma_row_from(img, t, y, x_end - 1, i);
    }
}

proof fn lemma_rows_ordered(img: GrayImage, t: int, y_end: int, i: int, j: int)
    requires
        img.width <= 0x1_0000,
        y_end <= 0x1_0000,
        0 <= i < j < rows_corners(img, t, y_end).len(),
    ensures
        ({
            let (a, b) = (rows_corners(img, t, y_end)[i], rows_corners(img, t, y_end)[j]);
            a.y < b.y || a.y == b.y && a.x < b.x
        }),
    decreases y_end,
{
    let before = rows_corners(img, t, y_end - 1);
    let n = before.len() as int;
    if j < n {
        lemma_rows_ordered(img, t, y_end - 1, i, j);
    } else {
        let b = lemma_row_from(img, t, y_end - 1, img.width - 3, j - n);
        if i < n {
            let a = lemma_rows_from(img, t, y_end - 1, i);
        } else {
            lemma_row_ordered(img, t, y_end - 1, img.width - 3, i - n, j - n);
            let a = lemma_row_from(img, t, y_end - 1, img.width - 3, i - n);
        }
    }
}

/// Light and dark are alike: the negative of a picture has the same corners, with the
/// same scores.
pub proof fn law_negative_has_the_same_corners(img: GrayImage, neg: GrayImage, t: int)
    requires
        img.covers(),
        neg.covers(),
        neg.width == img.width,
        neg.height == img.height,
        forall|i: int|
            0 <= i < img.width * img.height ==> #[trigger] neg.data@[i] == 255 - img.data@[i],
        t >= 1,
    ensures
        all_corners(neg, t) == all_corners(img, t),
{
    if img.width > 6 && img.height > 6 {
        lemma_negative_rows(img, neg, t, img.height - 3);
    }
}

proof fn lemma_negative_rows(img: GrayImage, neg: GrayImage, t: int, y_end: int)
    requires
        img.covers(),
        neg.covers(),
        neg.width == img.width,
        neg.height == img.height,
        y_end <= img.height - 3,
        forall|i: int|
            0 <= i < img.width * img.height ==> #[trigger] neg.data@[i] == 255 - img.data@[i],
        t >= 1,
    ensures
        rows_corners(neg, t, y_end) == rows_corners(img, t, y_end),
    decreases y_end,
{
    if y_end > 3 {
        lemma_negative_rows(img, neg, t, y_end - 1);
        lemma_negative_row(img, neg, t, y_end - 1, img.width - 3);
    }
}

proof fn lemma_negative_row(img: GrayImage, neg: GrayImage, t: int, y: int, x_end: int)
    requires
        img.covers(),
        neg.covers(),
        neg.width == img.width,
        neg.height == img.height,
        3 <= y < img.height - 3,
        x_end <= img.width - 3,
        forall|i: int|
            0 <= i < img.width * img.height ==> #[trigger] neg.data@[i] == 255 - img.data@[i],
        t >= 1,
    ensures
        row_corners(neg, t, y, x_end) == row_corners(img, t, y, x_end),
    decreases x_end,
{
    if x_end > 3 {
        let x = x_end - 1;
        lemma_negative_row(img, neg, t, y, x);
        assert forall|k: int| 0 <= k < 16 implies #[trigger] ring_pixel(neg, x, y, k) == 255
            - ring_pixel(img, x, y, k) by {
            lemma_in_picture(img, x + ring_dx(k), y + ring_dy(k));
        }
        lemma_in_picture(img, x, y);
        let (a, b) = (ring_classes(img, x, y, t), ring_classes(neg, x, y, t));
        lemma_swapped_arc(a, b, BRIGHTER, DARKER);
        lemma_swapped_arc(a, b, DARKER, BRIGHTER);
        lemma_swapped_arc(b, a, BRIGHTER, DARKER);
        lemma_swapped_arc(b, a, DARKER, BRIGHTER);
        lemma_negative_sad(img, neg, x, y, 16);
    }
}

proof fn lemma_in_picture(img: GrayImage, x: int, y: int)
    requires
        0 <= x < img.width,
        0 <= y < img.height,
    ensures
        0 <= y * img.width + x < img.width * img.height,
{
    let (w, h) = (img.width as int, img.height as int);
    assert(0 <= y * w && y * w + w <= w * h) by (nonlinear_arith)
        requires
            0 <= y < h,
            0 <= w,
    ;
}

/// An arc of one class in a ring is an arc of the other class in the ring with the
/// classes exchanged.
proof fn lemma_swapped_arc(a: Seq<u8>, b: Seq<u8>, one: u8, other: u8)
    requires
        a.len() == 16,
        b.len() == 16,
        forall|k: int| 0 <= k < 16 && #[trigger] a[k] == one ==> b[k] == other,
    ensures
        arc(a, one) ==> arc(b, other),
{
    if arc(a, one) {
        let s = choose|s: int| 0 <= s < 16 && #[trigger] arc_at(a, one, s);
        assert forall|j: int| s <= j < s + 9 implies #[trigger] b[j % 16] == other by {
            assert(a[j % 16] == one);
        }
        assert(arc_at(b, other, s));
    }
}

proof fn lemma_negative_sad(img: GrayImage, neg: GrayImage, x: int, y: int, n: nat)
    requires
        n <= 16,
        forall|k: int|
            0 <= k < 16 ==> #[trigger] ring_pixel(neg, x, y, k) == 255 - ring_pixel(img, x, y, k),
        neg.pixel(x, y) == 255 - img.pixel(x, y),
    ensures
        ring_sad(neg, x, y, n) == ring_sad(img, x, y, n),
    decreases n,
{
    if n > 0 {
        lemma_negative_sad(img, neg, x, y, (n - 1) as nat);
        assert(ring_pixel(neg, x, y, n - 1) == 255 - ring_pixel(img, x, y, n - 1));
    }
}

// ── Non-maximal suppression ───────────────────────────────────────────────────

/// `a` is one of the eight neighbours of `b`.
pub open spec fn neighbours(a: Corner, b: Corner) -> bool {
    &&& -1 <= a.x - b.x <= 1
    &&& -1 <= a.y - b.y <= 1
    &&& !(a.x == b.x && a.y == b.y)
}

/// The score of `c` is strictly greater than that of every neighbouring corner.
pub open spec fn is_peak(corners: Seq<Corner>, c: Corner) -> bool {
    forall|j: int|
        0 <= j < corners.len() && neighbours(#[trigger] corners[j], c) ==> corners[j].score
            < c.score
}

/// The peaks among the first `n` corners, in order.
pub open spec fn peaks(corners: Seq<Corner>, n: nat) -> Seq<Corner>
    decreases n,
{
    if n == 0 {
        Seq::empty()
    } else {
        let before = peaks(corners, (n - 1) as nat);
        if is_peak(corners, corners[n - 1]) {
            before.push(corners[n - 1])
        } else {
            before
        }
    }
}

spec fn cell(c: Corner, w: int) -> int {
    c.y * w + c.x
}

/// Grid cell `i` tells the best score, plus one, of the first `n` corners
/// there, and 0 where there is none.
spec fn grid_ok(grid: Seq<u32>, corners: Seq<Corner>, n: int, w: int) -> bool {
    &&& forall|j: int| 0 <= j < n ==> grid[cell(#[trigger] corners[j], w)] > corners[j].score
    &&& forall|i: int|
        0 <= i < grid.len() && #[trigger] grid[i] > 0 ==> exists|j: int|
            0 <= j < n && cell(#[trigger] corners[j], w) == i && corners[j].score + 1 == grid[i]
}

/// 3x3 non-maximal suppression: keep a corner only if its score is strictly
/// greater than every 8-neighbour corner's score.
pub fn non_max_suppress(corners: &[Corner], w: usize, h: usize) -> (r: Vec<Corner>)
    requires
        corners@.len() > 0 ==> w * h <= usize::MAX,
        forall|j: int| 0 <= j < corners@.len() ==> (#[trigger] corners@[j]).x < w && corners@[j].y < h,
    ensures
        r@ == peaks(corners@, corners@.len()),
{
    let n: usize = corners.len();
    if n == 0 {
        return Vec::new();
    }
    let mut grid: Vec<u32> = vec![0u32; w * h];
    let mut k: usize = 0;
    while k < n
        invariant
            k <= n,
            n == corners@.len(),
            w * h <= usize::MAX,
            grid@.len() == w * h,
            forall|j: int|
                0 <= j < n ==> (#[trigger] corners@[j]).x < w && corners@[j].y < h,
            grid_ok(grid@, corners@, k as int, w as int),
        decreases n - k,
    {
        let c: Corner = corners[k];
        let ghost before = grid@;
        proof {
            lemma_cell_range(c, w as int, h as int);
        }
        let i: usize = c.y as usize * w + c.x as usize;
        let v: u32 = c.score as u32 + 1;
        if v > grid[i] {
            grid.set(i, v);
        }
        proof {
            assert forall|m: int| 0 <= m < grid@.len() && #[trigger] grid@[m] > 0 implies exists|j: int|
                0 <= j < k + 1 && cell(#[trigger] corners@[j], w as int) == m && corners@[j].score
                    + 1 == grid@[m] by {
                if m == i && grid@[m] == v {
                    assert(cell(corners@[k as int], w as int) == m);
                } else {
                    assert(before[m] > 0);
                    let j = choose|j: int|
                        0 <= j < k && cell(#[trigger] corners@[j], w as int) == m
                            && corners@[j].score + 1 == before[m];
                    assert(cell(corners@[j], w as int) == m);
                }
            }
            assert forall|j: int| 0 <= j < k + 1 implies grid@[cell(
                #[trigger] corners@[j],
                w as int,
            )] > corners@[j].score by {
                lemma_cell_range(corners@[j], w as int, h as int);
                if j < k {
                    assert(before[cell(corners@[j], w as int)] > corners@[j].score);
                }
            }
        }
        k = k + 1;
    }
    let mut out: Vec<Corner> = Vec::new();
    let mut m: usize = 0;
    while m < n
        invariant
            m <= n,
            n == corners@.len(),
            w * h <= usize::MAX,
            grid@.len() == w * h,
            forall|j: int|
                0 <= j < n ==> (#[trigger] corners@[j]).x < w && corners@[j].y < h,
            grid_ok(grid@, corners@, n as int, w as int),
            out@ == peaks(corners@, m as nat),
        decreases n - m,
    {
        let c: Corner = corners[m];
        if peak_in_grid(&grid, w, h, c, Ghost(corners@)) {
            out.push(c);
        }
        m = m + 1;
    }
    out
}

proof fn lemma_cell_range(c: Corner, w: int, h: int)
    requires
        c.x < w,
        c.y < h,
    ensures
        0 <= c.y * w,
        0 <= cell(c, w) < w * h,
{
    let y = c.y as int;
    assert(0 <= y * w && y * w + w <= w * h) by (nonlinear_arith)
        requires
            0 <= y < h,
            0 <= w,
    ;
}

proof fn lemma_cell_injective(a: Corner, x: int, y: int, w: int)
    requires
        a.x < w,
        0 <= x < w,
        cell(a, w) == y * w + x,
    ensures
        a.x == x,
        a.y == y,
{
    vstd::arithmetic::div_mod::lemma_fundamental_div_mod_converse(
        cell(a, w),
        w,
        a.y as int,
        a.x as int,
    );
    vstd::arithmetic::div_mod::lemma_fundamental_div_mod_converse(cell(a, w), w, y, x);
}

/// Whether the grid holds no score as high as that of `c` next to it.
fn peak_in_grid(
    grid: &Vec<u32>,
    w: usize,
    h: usize,
    c: Corner,
    Ghost(corners): Ghost<Seq<Corner>>,
) -> (r: bool)
    requires
        w * h <= usize::MAX,
        grid@.len() == w * h,
        c.x < w,
        c.y < h,
        forall|j: int| 0 <= j < corners.len() ==> (#[trigger] corners[j]).x < w && corners[j].y < h,
        grid_ok(grid@, corners, corners.len() as int, w as int),
    ensures
        r == is_peak(corners, c),
{
    let (cx, cy): (usize, usize) = (c.x as usize, c.y as usize);
    let x_lo: usize = if cx > 0 {
        cx - 1
    } else {
        0
    };
    let y_lo: usize = if cy > 0 {
        cy - 1
    } else {
        0
    };
    let mut ny: usize = y_lo;
    while ny <= cy + 1 && ny < h
        invariant
            w * h <= usize::MAX,
            grid@.len() == w * h,
            cx == c.x,
            cy == c.y,
            cx < w,
            cy < h,
            x_lo == (if cx > 0 { cx - 1 } else { 0 }),
            y_lo == (if cy > 0 { cy - 1 } else { 0 }),
            y_lo <= ny <= cy + 2,
            ny <= h,
            forall|j: int|
                0 <= j < corners.len() ==> (#[trigger] corners[j]).x < w && corners[j].y < h,
            grid_ok(grid@, corners, corners.len() as int, w as int),
            forall|j: int|
                0 <= j < corners.len() && neighbours(#[trigger] corners[j], c) && corners[j].y < ny
                    ==> corners[j].score < c.score,
        decreases cy + 2 - ny,
    {
        let mut nx: usize = x_lo;
        while nx <= cx + 1 && nx < w
            invariant
                w * h <= usize::MAX,
                grid@.len() == w * h,
                cx == c.x,
                cy == c.y,
                cx < w,
                cy < h,
                x_lo == (if cx > 0 { cx - 1 } else { 0 }),
                y_lo == (if cy > 0 { cy - 1 } else { 0 }),
                x_lo <= nx <= cx + 2,
                y_lo <= ny <= cy + 1,
                nx <= w,
                ny < h,
                forall|j: int|
                    0 <= j < corners.len() ==> (#[trigger] corners[j]).x < w && corners[j].y < h,
                grid_ok(grid@, corners, corners.len() as int, w as int),
                forall|j: int|
                    0 <= j < corners.len() && neighbours(#[trigger] corners[j], c) && (
                    corners[j].y < ny || corners[j].y == ny && corners[j].x < nx)
                        ==> corners[j].score < c.score,
            decreases cx + 2 - nx,
        {
            proof {
                let (ww, hh, yy) = (w as int, h as int, ny as int);
                assert(0 <= yy * ww && yy * ww + ww <= ww * hh) by (nonlinear_arith)
                    requires
                        0 <= yy < hh,
                        0 <= ww,
                ;
            }
            let i: usize = ny * w + nx;
            if !(nx == cx && ny == cy) && grid[i] > c.score as u32 {
                proof {
                    let j = choose|j: int|
                        0 <= j < corners.len() && cell(#[trigger] corners[j], w as int) == i
                            && corners[j].score + 1 == grid@[i as int];
                    lemma_cell_injective(corners[j], nx as int, ny as int, w as int);
                    assert(neighbours(corners[j], c));
                }
                return false;
            }
            assert forall|j: int|
                0 <= j < corners.len() && neighbours(#[trigger] corners[j], c) && (corners[j].y < ny
                    || corners[j].y == ny && corners[j].x < nx + 1) implies corners[j].score
                < c.score by {
                if corners[j].y == ny && corners[j].x == nx {
                    assert(cell(corners[j], w as int) == i);
                    assert(grid@[i as int] > corners[j].score);
                }
            }
            nx = nx + 1;
        }
        ny = ny + 1;
    }
    true
}

/// No two corners that suppression keeps are neighbours.
pub proof fn law_no_two_kept_are_neighbours(corners: Seq<Corner>, a: Corner, b: Corner)
    requires
        peaks(corners, corners.len()).contains(a),
        peaks(corners, corners.len()).contains(b),
    ensures
        !neighbours(a, b),
{
    lemma_peaks_members(corners, corners.len(), a);
    lemma_peaks_members(corners, corners.len(), b);
}

proof fn lemma_peaks_members(corners: Seq<Corner>, n: nat, c: Corner)
    requires
        n <= corners.len(),
        peaks(corners, n).contains(c),
    ensures
        is_peak(corners, c),
        exists|j: int| 0 <= j < n && #[trigger] corners[j] == c,
    decreases n,
{
    let all = peaks(corners, n);
    let i = choose|i: int| 0 <= i < all.len() && all[i] == c;
    if n > 0 {
        let before = peaks(corners, (n - 1) as nat);
        if is_peak(corners, corners[n - 1]) && i == before.len() {
            assert(corners[n - 1] == c);
        } else {
            assert(before[i] == c);
            lemma_peaks_members(corners, (n - 1) as nat, c);
        }
    }
}

/// Suppression only thins out: what it keeps was among the corners, and it
/// keeps no more than there were.
pub proof fn law_kept_corners_were_detected(corners: Seq<Corner>, n: nat)
    requires
        n <= corners.len(),
    ensures
        peaks(corners, n).len() <= n,
        forall|c: Corner| #[trigger] peaks(corners, n).contains(c) ==> corners.contains(c),
    decreases n,
{
    if n > 0 {
        law_kept_corners_were_detected(corners, (n - 1) as nat);
    }
    assert forall|c: Corner| #[trigger] peaks(corners, n).contains(c) implies corners.contains(
        c,
    ) by {
        lemma_peaks_members(corners, n, c);
    }
}

/// Suppression keeps a corner exactly if no other corner in the three by three pixels
/// round it scores as high, and keeps the order.
pub proof fn law_kept_exactly_where_strongest(corners: Seq<Corner>, c: Corner)
    ensures
        peaks(corners, corners.len()).contains(c) <==> corners.contains(c) && forall|j: int|
            0 <= j < corners.len() && -1 <= (#[trigger] corners[j]).x - c.x <= 1 && -1 <= corners[j].y
                - c.y <= 1 && !(corners[j].x == c.x && corners[j].y == c.y) ==> corners[j].score
                < c.score,
{
    let kept = peaks(corners, corners.len());
    if kept.contains(c) {
        lemma_peaks_members(corners, corners.len(), c);
        assert forall|j: int|
            0 <= j < corners.len() && -1 <= (#[trigger] corners[j]).x - c.x <= 1 && -1 <= corners[j].y
                - c.y <= 1 && !(corners[j].x == c.x && corners[j].y == c.y) implies corners[j].score
            < c.score by {
            assert(neighbours(corners[j], c));
        }
    }
    if corners.contains(c) && forall|j: int|
        0 <= j < corners.len() && -1 <= (#[trigger] corners[j]).x - c.x <= 1 && -1 <= corners[j].y
            - c.y <= 1 && !(corners[j].x == c.x && corners[j].y == c.y) ==> corners[j].score
            < c.score {
        assert(is_peak(corners, c));
        let k = choose|k: int| 0 <= k < corners.len() && corners[k] == c;
        lemma_peak_kept(corners, corners.len(), k);
    }
}

proof fn lemma_peak_kept(corners: Seq<Corner>, n: nat, k: int)
    requires
        0 <= k < n <= corners.len(),
        is_peak(corners, corners[k]),
    ensures
        peaks(corners, n).contains(corners[k]),
    decreases n,
{
    let before = peaks(corners, (n - 1) as nat);
    let all = peaks(corners, n);
    if k == n - 1 {
        assert(all[before.len() as int] == corners[k]);
    } else {
        lemma_peak_kept(corners, (n - 1) as nat, k);
        let i = choose|i: int| 0 <= i < before.len() && before[i] == corners[k];
        assert(all[i] == corners[k]);
    }
}

/// What suppression keeps of a raster scan is in raster order too.
pub proof fn law_suppression_keeps_order(corners: Seq<Corner>, i: int, j: int)
    requires
        forall|a: int, b: int|
            0 <= a < b < corners.len() ==> (#[trigger] corners[a]).y < (#[trigger] corners[b]).y
                || corners[a].y == corners[b].y && corners[a].x < corners[b].x,
        0 <= i < j < peaks(corners, corners.len()).len(),
    ensures
        ({
            let (a, b) = (
                peaks(corners, corners.len())[i],
                peaks(corners, corners.len())[j],
            );
            a.y < b.y || a.y == b.y && a.x < b.x
        }),
{
    let (a, b) = lemma_peaks_order(corners, corners.len(), i, j);
}

/// Where two kept corners were among all.
proof fn lemma_peaks_order(corners: Seq<Corner>, n: nat, i: int, j: int) -> (p: (int, int))
    requires
        n <= corners.len(),
        0 <= i < j < peaks(corners, n).len(),
    ensures
        0 <= p.0 < p.1 < n,
        peaks(corners, n)[i] == corners[p.0],
        peaks(corners, n)[j] == corners[p.1],
    decreases n,
{
    let before = peaks(corners, (n - 1) as nat);
    if j < before.len() {
        lemma_peaks_order(corners, (n - 1) as nat, i, j)
    } else {
        lemma_peaks_members_at(corners, (n - 1) as nat, i);
        let a = choose|a: int| 0 <= a < n - 1 && corners[a] == before[i];
        (a, n - 1)
    }
}

proof fn lemma_peaks_members_at(corners: Seq<Corner>, n: nat, i: int)
    requires
        n <= corners.len(),
        0 <= i < peaks(corners, n).len(),
    ensures
        exists|a: int| 0 <= a < n && corners[a] == peaks(corners, n)[i],
{
    let c = peaks(corners, n)[i];
    assert(peaks(corners, n).contains(c));
    lemma_peaks_members(corners, n, c);
}

} // verus!
