//! Image to keypoints: FAST over a scale pyramid, then a selection that takes
//! the strongest first and spreads them over a grid.
use super::brief;
use super::fast::{self, Corner};
use super::image::{
    build_pyramid, is_level, lemma_level_side, level_too_small, GrayImage, PyramidLevel,
};
use crate::single::{
    law_nearest, law_single_is_near, lemma_is_single, nearest, round, single,
};
use vstd::prelude::*;

verus! {

/// Pyramid depth.
pub const N_LEVELS: usize = 8;

/// Each pyramid level is 6/5 times smaller than the one before.
pub const SCALE_NUM: u32 = 6;

pub const SCALE_DEN: u32 = 5;

/// FAST intensity threshold (0..=255).
pub const FAST_THRESHOLD: u8 = 20;

/// Grid cell (level-0 px).
pub const CELL_PX: u16 = 24;

/// Most features kept per cell, so that they do not all clump on the strongest
/// texture.
pub const PER_CELL: usize = 6;

/// Hard cap on features kept.
pub const MAX_FEATURES: usize = 500;

/// A descriptor-verified correspondence from the previous frame (`x0, y0`) to
/// this frame (`x1, y1`), in level-0 pixel coordinates.
#[derive(Clone, Copy, Debug, PartialEq, Eq, Structural)]
pub struct Match {
    pub x0: u16,
    pub y0: u16,
    pub x1: u16,
    pub y1: u16,
}

/// One keypoint: level-0 coordinates plus the level and the level-local
/// coordinates that are needed to orient and describe it.
#[derive(Clone, Copy, Debug, PartialEq, Eq, Structural)]
pub struct Cand {
    pub x: u16,
    pub y: u16,
    pub level: u8,
    pub score: u16,
    pub lx: i32,
    pub ly: i32,
}

// ── Candidates ────────────────────────────────────────────────────────────────

/// A level coordinate mapped back onto level 0 in single precision, to the nearest
/// pixel, where it stays inside a side of `side` pixels.
pub open spec fn to_level0(c: u16, scale: u64, side: int) -> int {
    let v = nearest(single(c * scale), 0x80_0000);
    if v < side - 1 {
        v
    } else {
        side - 1
    }
}

/// The candidate of a corner of level `lvl`.
pub open spec fn cand_of(c: Corner, level: PyramidLevel, lvl: int, w: int, h: int) -> Cand {
    Cand {
        x: to_level0(c.x, level.scale, w) as u16,
        y: to_level0(c.y, level.scale, h) as u16,
        level: lvl as u8,
        score: c.score,
        lx: c.x as i32,
        ly: c.y as i32,
    }
}

/// The corner is far enough from the edge of its level to be described.
pub open spec fn describable(c: Corner, level: PyramidLevel) -> bool {
    brief::BORDER <= c.x < level.image.width - brief::BORDER && brief::BORDER <= c.y
        < level.image.height - brief::BORDER
}

/// Candidates of the first `n` of a level's corners, in order.
pub open spec fn level_cands(
    corners: Seq<Corner>,
    level: PyramidLevel,
    lvl: int,
    w: int,
    h: int,
    n: nat,
) -> Seq<Cand>
    decreases n,
{
    if n == 0 {
        Seq::empty()
    } else {
        let before = level_cands(corners, level, lvl, w, h, (n - 1) as nat);
        if describable(corners[n - 1], level) {
            before.push(cand_of(corners[n - 1], level, lvl, w, h))
        } else {
            before
        }
    }
}

/// The corners of a level that survive non-maximal suppression.
pub open spec fn level_corners(level: PyramidLevel) -> Seq<Corner> {
    let raw = fast::all_corners(level.image, FAST_THRESHOLD as int);
    fast::peaks(raw, raw.len())
}

/// Candidates of the first `n` levels.
pub open spec fn candidates(levels: Seq<PyramidLevel>, w: int, h: int, n: nat) -> Seq<Cand>
    decreases n,
{
    if n == 0 {
        Seq::empty()
    } else {
        let corners = level_corners(levels[n - 1]);
        candidates(levels, w, h, (n - 1) as nat) + level_cands(
            corners,
            levels[n - 1],
            n - 1,
            w,
            h,
            corners.len(),
        )
    }
}

// ── Selection ─────────────────────────────────────────────────────────────────

/// No candidate is weaker than one after it.
pub open spec fn strongest_first(s: Seq<Cand>) -> bool {
    forall|i: int, j: int| 0 <= i < j < s.len() ==> (#[trigger] s[i]).score >= (#[trigger] s[j]).score
}

/// The two candidates fall into the same grid cell.
pub open spec fn same_cell(a: Cand, b: Cand) -> bool {
    a.x / CELL_PX == b.x / CELL_PX && a.y / CELL_PX == b.y / CELL_PX
}

/// How many of `s` fall into the cell of `c`.
pub open spec fn in_cell(s: Seq<Cand>, c: Cand) -> nat
    decreases s.len(),
{
    if s.len() == 0 {
        0
    } else {
        in_cell(s.drop_last(), c) + if same_cell(s.last(), c) {
            1nat
        } else {
            0nat
        }
    }
}

/// What the first `n` candidates leave: each is kept unless the cap is reached
/// or its cell is full.
pub open spec fn selected(s: Seq<Cand>, n: nat) -> Seq<Cand>
    decreases n,
{
    if n == 0 {
        Seq::empty()
    } else {
        let before = selected(s, (n - 1) as nat);
        if before.len() < MAX_FEATURES && in_cell(before, s[n - 1]) < PER_CELL {
            before.push(s[n - 1])
        } else {
            before
        }
    }
}

/// `s` holds the same candidates as `all`, strongest first.
pub open spec fn ranking(all: Seq<Cand>, s: Seq<Cand>) -> bool {
    s.to_multiset() == all.to_multiset() && strongest_first(s)
}

/// Orders candidates by descending score.
///
/// The call is `sort_unstable_by_key` of slices with the reversed score as the
/// key. What is taken on trust: the slice is permuted and comes out ordered by
/// that key. The order among equal scores is left open.
#[verifier::external_body]
fn rank(all: &mut Vec<Cand>)
    ensures
        ranking(old(all)@, final(all)@),
{
    all.sort_unstable_by_key(|c| std::cmp::Reverse(c.score))
}

proof fn lemma_member(all: Seq<Cand>, s: Seq<Cand>, i: int)
    requires
        all.to_multiset() == s.to_multiset(),
        0 <= i < s.len(),
    ensures
        all.contains(s[i]),
{
    broadcast use vstd::seq_lib::group_to_multiset_ensures;

    assert(s.to_multiset().count(s[i]) > 0);
    assert(all.to_multiset().count(s[i]) > 0);
}

proof fn lemma_in_cell_push(s: Seq<Cand>, x: Cand, c: Cand)
    ensures
        in_cell(s.push(x), c) == in_cell(s, c) + if same_cell(x, c) {
            1nat
        } else {
            0nat
        },
{
    assert(s.push(x).drop_last() =~= s);
}

proof fn lemma_in_cell_same(s: Seq<Cand>, c: Cand, d: Cand)
    requires
        same_cell(c, d),
    ensures
        in_cell(s, c) == in_cell(s, d),
    decreases s.len(),
{
    if s.len() > 0 {
        lemma_in_cell_same(s.drop_last(), c, d);
    }
}

spec fn cell_index(c: Cand, cells_x: int) -> int {
    (c.y / CELL_PX) * cells_x + c.x / CELL_PX
}

proof fn lemma_cell_index(c: Cand, d: Cand, w: int, h: int, cells_x: int)
    requires
        c.x < w,
        c.y < h,
        d.x < w,
        d.y < h,
        cells_x == w / 24 + 1,
    ensures
        0 <= (c.y / CELL_PX) * cells_x,
        0 <= cell_index(c, cells_x) < cells_x * (h / 24 + 1),
        cell_index(c, cells_x) == cell_index(d, cells_x) <==> same_cell(c, d),
{
    let (cx, cy) = ((c.x / CELL_PX) as int, (c.y / CELL_PX) as int);
    let (dx, dy) = ((d.x / CELL_PX) as int, (d.y / CELL_PX) as int);
    let rows = h / 24 + 1;
    assert(0 <= cy * cells_x && cy * cells_x + cells_x <= cells_x * rows) by (nonlinear_arith)
        requires
            0 <= cy < rows,
            0 <= cells_x,
    ;
    if cell_index(c, cells_x) == cell_index(d, cells_x) {
        vstd::arithmetic::div_mod::lemma_fundamental_div_mod_converse(
            cell_index(c, cells_x),
            cells_x,
            cy,
            cx,
        );
        vstd::arithmetic::div_mod::lemma_fundamental_div_mod_converse(
            cell_index(c, cells_x),
            cells_x,
            dy,
            dx,
        );
    }
}

/// Selection from ranked candidates: cap and grid spread.
fn spread(ranked: &Vec<Cand>, w: usize, h: usize) -> (r: Vec<Cand>)
    requires
        w <= u16::MAX,
        h <= u16::MAX,
        forall|i: int| 0 <= i < ranked@.len() ==> (#[trigger] ranked@[i]).x < w && ranked@[i].y < h,
    ensures
        r@ == selected(ranked@, ranked@.len()),
{
    let cells_x: usize = w / CELL_PX as usize + 1;
    let rows: usize = h / CELL_PX as usize + 1;
    assert(cells_x * rows <= 2732 * 2732) by (nonlinear_arith)
        requires
            0 <= cells_x <= 2732,
            0 <= rows <= 2732,
    ;
    let mut count: Vec<u8> = vec![0u8; cells_x * rows];
    let mut kept: Vec<Cand> = Vec::new();
    let mut i: usize = 0;
    assert forall|c: Cand| c.x < w && c.y < h implies count@[cell_index(c, cells_x as int)]
        == #[trigger] in_cell(kept@, c) && in_cell(kept@, c) <= PER_CELL by {
        lemma_cell_index(c, c, w as int, h as int, cells_x as int);
    }
    while i < ranked.len()
        invariant
            i <= ranked@.len(),
            cells_x * rows <= 2732 * 2732,
            w <= u16::MAX,
            h <= u16::MAX,
            cells_x == w / 24 + 1,
            rows == h / 24 + 1,
            count@.len() == cells_x * rows,
            forall|k: int|
                0 <= k < ranked@.len() ==> (#[trigger] ranked@[k]).x < w && ranked@[k].y < h,
            kept@ == selected(ranked@, i as nat),
            kept@.len() <= MAX_FEATURES,
            forall|c: Cand|
                c.x < w && c.y < h ==> count@[cell_index(c, cells_x as int)] == #[trigger] in_cell(
                    kept@,
                    c,
                ) && in_cell(kept@, c) <= PER_CELL,
        decreases ranked@.len() - i,
    {
        let c: Cand = ranked[i];
        proof {
            lemma_cell_index(c, c, w as int, h as int, cells_x as int);
            assert(ranked@[i as int].x < w);
        }
        let ci: usize = (c.y / CELL_PX) as usize * cells_x + (c.x / CELL_PX) as usize;
        assert(count@[ci as int] == in_cell(kept@, c));
        if kept.len() < MAX_FEATURES && (count[ci] as usize) < PER_CELL {
            let ghost before = kept@;
            let ghost counted = count@;
            let n: u8 = count[ci];
            count.set(ci, n + 1);
            kept.push(c);
            assert forall|d: Cand| d.x < w && d.y < h implies count@[cell_index(d, cells_x as int)]
                == #[trigger] in_cell(kept@, d) && in_cell(kept@, d) <= PER_CELL by {
                lemma_in_cell_push(before, c, d);
                lemma_cell_index(c, d, w as int, h as int, cells_x as int);
                lemma_cell_index(d, c, w as int, h as int, cells_x as int);
                assert(counted[cell_index(d, cells_x as int)] == in_cell(before, d));
                if same_cell(c, d) {
                    lemma_in_cell_same(before, c, d);
                }
            }
        }
        i = i + 1;
    }
    kept
}

/// Selects keypoints: strongest first, at most [`PER_CELL`] in a grid cell and
/// [`MAX_FEATURES`] in all.
pub fn select_features(all: Vec<Cand>, w: usize, h: usize) -> (r: Vec<Cand>)
    requires
        w <= u16::MAX,
        h <= u16::MAX,
        forall|i: int| 0 <= i < all@.len() ==> (#[trigger] all@[i]).x < w && all@[i].y < h,
    ensures
        exists|s: Seq<Cand>| #[trigger] ranking(all@, s) && r@ == selected(s, s.len()),
{
    let ghost given = all@;
    let mut ranked: Vec<Cand> = all;
    rank(&mut ranked);
    assert forall|i: int| 0 <= i < ranked@.len() implies (#[trigger] ranked@[i]).x < w
        && ranked@[i].y < h by {
        lemma_member(given, ranked@, i);
        let j = choose|j: int| 0 <= j < given.len() && given[j] == ranked@[i];
        assert(given[j].x < w);
    }
    let r: Vec<Cand> = spread(&ranked, w, h);
    assert(ranking(given, ranked@));
    r
}

// ── Laws of selection ─────────────────────────────────────────────────────────

/// The selection keeps at most 500 candidates and no more than it was given,
/// and at most 6 in any grid cell.
pub proof fn law_selection_is_capped(s: Seq<Cand>, n: nat, c: Cand)
    requires
        n <= s.len(),
    ensures
        selected(s, n).len() <= MAX_FEATURES,
        selected(s, n).len() <= n,
        in_cell(selected(s, n), c) <= PER_CELL,
    decreases n,
{
    if n > 0 {
        law_selection_is_capped(s, (n - 1) as nat, c);
        let before = selected(s, (n - 1) as nat);
        lemma_in_cell_push(before, s[n - 1], c);
        if same_cell(s[n - 1], c) {
            lemma_in_cell_same(before, s[n - 1], c);
        }
    }
}

proof fn lemma_selected_from(s: Seq<Cand>, n: nat, i: int)
    requires
        n <= s.len(),
        0 <= i < selected(s, n).len(),
    ensures
        exists|j: int| 0 <= j < n && #[trigger] s[j] == selected(s, n)[i],
    decreases n,
{
    if n > 0 {
        let before = selected(s, (n - 1) as nat);
        if i < before.len() {
            lemma_selected_from(s, (n - 1) as nat, i);
            let j = choose|j: int| 0 <= j < n - 1 && #[trigger] s[j] == before[i];
            assert(s[j] == selected(s, n)[i]);
        } else {
            assert(s[n - 1] == selected(s, n)[i]);
        }
    }
}

/// The selection comes out strongest first.
pub proof fn law_selection_keeps_order(s: Seq<Cand>, n: nat)
    requires
        n <= s.len(),
        strongest_first(s),
    ensures
        strongest_first(selected(s, n)),
    decreases n,
{
    if n > 0 {
        law_selection_keeps_order(s, (n - 1) as nat);
        let before = selected(s, (n - 1) as nat);
        let now = selected(s, n);
        assert forall|i: int, j: int| 0 <= i < j < now.len() implies (#[trigger] now[i]).score >= (
        #[trigger] now[j]).score by {
            if j < before.len() {
                assert(before[i].score >= before[j].score);
            } else {
                lemma_selected_from(s, (n - 1) as nat, i);
                let k = choose|k: int| 0 <= k < n - 1 && #[trigger] s[k] == before[i];
                assert(s[k].score >= s[n - 1].score);
            }
        }
    }
}

// ── Pipeline ──────────────────────────────────────────────────────────────────

proof fn lemma_row_in_image(img: GrayImage, t: int, y: int, x_end: int)
    requires
        img.width <= u16::MAX,
        img.height <= u16::MAX,
        0 <= y < img.height,
        x_end <= img.width,
    ensures
        forall|i: int|
            0 <= i < fast::row_corners(img, t, y, x_end).len() ==> (#[trigger] fast::row_corners(
                img,
                t,
                y,
                x_end,
            )[i]).x < img.width && fast::row_corners(img, t, y, x_end)[i].y < img.height,
    decreases x_end,
{
    if x_end > fast::BORDER {
        lemma_row_in_image(img, t, y, x_end - 1);
        let before = fast::row_corners(img, t, y, x_end - 1);
        let all = fast::row_corners(img, t, y, x_end);
        assert forall|i: int| 0 <= i < all.len() implies (#[trigger] all[i]).x < img.width
            && all[i].y < img.height by {
            if i < before.len() {
                assert(all[i] == before[i]);
            } else {
                assert(all[i] == fast::corner_at(img, x_end - 1, y));
            }
        }
    }
}

proof fn lemma_rows_in_image(img: GrayImage, t: int, y_end: int)
    requires
        img.width <= u16::MAX,
        img.height <= u16::MAX,
        y_end <= img.height,
    ensures
        forall|i: int|
            0 <= i < fast::rows_corners(img, t, y_end).len() ==> (#[trigger] fast::rows_corners(
                img,
                t,
                y_end,
            )[i]).x < img.width && fast::rows_corners(img, t, y_end)[i].y < img.height,
    decreases y_end,
{
    if y_end > fast::BORDER {
        lemma_rows_in_image(img, t, y_end - 1);
        let row = fast::row_corners(img, t, y_end - 1, img.width - fast::BORDER);
        let before = fast::rows_corners(img, t, y_end - 1);
        lemma_row_in_image(img, t, y_end - 1, img.width - fast::BORDER);
        let all = fast::rows_corners(img, t, y_end);
        assert forall|i: int| 0 <= i < all.len() implies (#[trigger] all[i]).x < img.width
            && all[i].y < img.height by {
            if i < before.len() {
                assert(all[i] == before[i]);
            } else {
                assert(all[i] == row[i - before.len()]);
            }
        }
    }
}

fn map_back(c: u16, scale: u64, side: usize) -> (r: u16)
    requires
        1 <= side <= u16::MAX,
    ensures
        r == to_level0(c, scale, side as int),
        r < side,
{
    proof {
        assert(0 <= c * scale <= u16::MAX * u64::MAX) by (nonlinear_arith)
            requires
                0 <= c <= u16::MAX,
                0 <= scale <= u64::MAX,
        ;
    }
    let p: i128 = round(c as i128 * scale as i128);
    let v: i128 = (2 * p + 0x80_0000) / 0x100_0000;
    if v < (side - 1) as i128 {
        v as u16
    } else {
        (side - 1) as u16
    }
}

/// A level image is in order.
spec fn level_ok(level: PyramidLevel) -> bool {
    &&& level.image.covers()
    &&& level.image.width <= u16::MAX
    &&& level.image.height <= u16::MAX
}

fn scan_level(level: &PyramidLevel, lvl: u8, w: usize, h: usize, out: &mut Vec<Cand>)
    requires
        level_ok(*level),
        1 <= w <= u16::MAX,
        1 <= h <= u16::MAX,
        forall|i: int|
            0 <= i < old(out)@.len() ==> (#[trigger] old(out)@[i]).x < w && old(out)@[i].y < h,
    ensures
        final(out)@ == old(out)@ + level_cands(
            level_corners(*level),
            *level,
            lvl as int,
            w as int,
            h as int,
            level_corners(*level).len(),
        ),
        forall|i: int|
            0 <= i < final(out)@.len() ==> (#[trigger] final(out)@[i]).x < w && final(out)@[i].y < h,
{
    let (lw, lh): (usize, usize) = (level.image.width, level.image.height);
    let raw: Vec<Corner> = fast::detect(&level.image, FAST_THRESHOLD);
    proof {
        lemma_rows_in_image(level.image, FAST_THRESHOLD as int, lh - fast::BORDER);
    }
    assert forall|j: int| 0 <= j < raw@.len() implies (#[trigger] raw@[j]).x < lw && raw@[j].y
        < lh by {
        assert(raw@[j] == fast::rows_corners(
            level.image,
            FAST_THRESHOLD as int,
            lh - fast::BORDER,
        )[j]);
    }
    let len: usize = level.image.data.len();
    let kept: Vec<Corner> = fast::non_max_suppress(raw.as_slice(), lw, lh);
    let ghost before = out@;
    let ghost corners = level_corners(*level);
    let mut i: usize = 0;
    assert(out@ =~= before + level_cands(corners, *level, lvl as int, w as int, h as int, 0));
    while i < kept.len()
        invariant
            i <= kept@.len(),
            kept@ == corners,
            level_ok(*level),
            lw == level.image.width,
            lh == level.image.height,
            1 <= w <= u16::MAX,
            1 <= h <= u16::MAX,
            out@ == before + level_cands(
                corners,
                *level,
                lvl as int,
                w as int,
                h as int,
                i as nat,
            ),
            forall|k: int| 0 <= k < out@.len() ==> (#[trigger] out@[k]).x < w && out@[k].y < h,
        decreases kept@.len() - i,
    {
        let c: Corner = kept[i];
        let (lx, ly): (i32, i32) = (c.x as i32, c.y as i32);
        if brief::in_bounds(lw, lh, lx, ly) {
            let x: u16 = map_back(c.x, level.scale, w);
            let y: u16 = map_back(c.y, level.scale, h);
            let cand = Cand { x, y, level: lvl, score: c.score, lx, ly };
            assert(cand == cand_of(c, *level, lvl as int, w as int, h as int));
            let ghost part = level_cands(
                corners,
                *level,
                lvl as int,
                w as int,
                h as int,
                i as nat,
            );
            out.push(cand);
            assert(out@ =~= before + part.push(cand));
        }
        i = i + 1;
    }
}

/// `levels` is the scale pyramid over an image.
pub open spec fn is_pyramid(gray: GrayImage, levels: Seq<PyramidLevel>) -> bool {
    &&& 1 <= levels.len() <= N_LEVELS
    &&& forall|l: int|
        0 <= l < levels.len() ==> #[trigger] is_level(
            gray,
            SCALE_NUM as int,
            SCALE_DEN as int,
            l as nat,
            levels[l],
        )
    &&& forall|l: int|
        1 <= l < levels.len() ==> !#[trigger] level_too_small(
            gray,
            SCALE_NUM as int,
            SCALE_DEN as int,
            l as nat,
        )
    &&& levels.len() < N_LEVELS ==> level_too_small(
        gray,
        SCALE_NUM as int,
        SCALE_DEN as int,
        levels.len(),
    )
}

/// `kept` is a selection, and `total` the number, of the candidates of the
/// pyramid `levels` over `gray`, ranked as in `s`.
pub open spec fn detection(
    gray: GrayImage,
    levels: Seq<PyramidLevel>,
    s: Seq<Cand>,
    kept: Seq<Cand>,
    total: u32,
) -> bool {
    let all = candidates(levels, gray.width as int, gray.height as int, levels.len());
    &&& is_pyramid(gray, levels)
    &&& ranking(all, s)
    &&& kept == selected(s, s.len())
    &&& total == all.len() as u32
}

proof fn lemma_level_ok(gray: GrayImage, level: PyramidLevel, l: nat)
    requires
        gray.covers(),
        gray.width <= u16::MAX,
        gray.height <= u16::MAX,
        is_level(gray, 6, 5, l, level),
    ensures
        level_ok(level),
{
    if l > 0 {
        lemma_level_side(gray.width as int, 6, 5, l);
        lemma_level_side(gray.height as int, 6, 5, l);
        let (a, b) = (level.image.width as int, level.image.height as int);
        let (w, h) = (gray.width as int, gray.height as int);
        assert(a * b <= w * h) by (nonlinear_arith)
            requires
                0 <= a <= w,
                0 <= b <= h,
        ;
    }
}

/// Run FAST over the pyramid and select keypoints, in level-0 coordinates, with
/// the total before the selection. Corners too close to the edge of their level
/// to be described are dropped during the scan.
pub fn detect_features(gray: &GrayImage) -> (r: (Vec<Cand>, u32))
    requires
        gray.covers(),
        1 <= gray.width <= u16::MAX,
        1 <= gray.height <= u16::MAX,
    ensures
        exists|levels: Seq<PyramidLevel>, s: Seq<Cand>| #[trigger]
            detection(*gray, levels, s, r.0@, r.1),
{
    let (w, h): (usize, usize) = (gray.width, gray.height);
    let base: GrayImage = gray.copy();
    let ghost copied = base;
    let pyramid: Vec<PyramidLevel> = build_pyramid(base, N_LEVELS, SCALE_NUM, SCALE_DEN);
    proof {
        assert forall|l: int| 0 <= l < pyramid@.len() implies #[trigger] is_level(
            *gray,
            6,
            5,
            l as nat,
            pyramid@[l],
        ) by {
            assert(is_level(copied, 6, 5, l as nat, pyramid@[l]));
        }
        assert forall|l: int| 1 <= l < pyramid@.len() implies !#[trigger] level_too_small(
            *gray,
            6,
            5,
            l as nat,
        ) by {
            assert(!level_too_small(copied, 6, 5, l as nat));
        }
        assert(is_pyramid(*gray, pyramid@));
    }
    let mut all: Vec<Cand> = Vec::new();
    let mut lvl: usize = 0;
    while lvl < pyramid.len()
        invariant
            lvl <= pyramid@.len() <= N_LEVELS,
            gray.covers(),
            1 <= w <= u16::MAX,
            1 <= h <= u16::MAX,
            w == gray.width,
            h == gray.height,
            is_pyramid(*gray, pyramid@),
            all@ == candidates(pyramid@, w as int, h as int, lvl as nat),
            forall|i: int| 0 <= i < all@.len() ==> (#[trigger] all@[i]).x < w && all@[i].y < h,
        decreases pyramid@.len() - lvl,
    {
        proof {
            let l: int = lvl as int;
            assert(is_level(*gray, SCALE_NUM as int, SCALE_DEN as int, l as nat, pyramid@[l]));
            lemma_level_ok(*gray, pyramid@[l], l as nat);
        }
        scan_level(&pyramid[lvl], lvl as u8, w, h, &mut all);
        lvl = lvl + 1;
    }
    let total: u32 = all.len() as u32;
    let ghost given = all@;
    let kept: Vec<Cand> = select_features(all, w, h);
    let found: (Vec<Cand>, u32) = (kept, total);
    proof {
        let s = choose|s: Seq<Cand>| #[trigger]
            ranking(given, s) && found.0@ == selected(s, s.len());
        assert(detection(*gray, pyramid@, s, found.0@, found.1));
    }
    found
}

// ── What a candidate and a selection are ──────────────────────────────────────

/// A coordinate of a level is carried to level 0 by the level's factor, to the nearest pixel
/// but for one part in 2^24 of the way; what would lie beyond the last pixel goes onto it.
/// On level 0 itself it stays where it is.
pub proof fn law_back_to_level0(c: u16, scale: u64, side: int)
    requires
        side >= 1,
    ensures
        ({
            let v = to_level0(c, scale, side);
            let way = c * scale;
            &&& v <= side - 1
            &&& v >= 0
            &&& 0x100_0000 * (0x80_0000 * v - way) <= 0x4000_0000_0000 + way
            &&& v < side - 1 ==> 0x100_0000 * (way - 0x80_0000 * v) <= 0x4000_0000_0000 + way
            &&& scale == 0x80_0000 && c < side ==> v == c
        }),
{
    let way = c * scale;
    assert(way >= 0) by (nonlinear_arith)
        requires
            way == c * scale,
    ;
    law_single_is_near(way);
    law_nearest(single(way), 0x80_0000);
    if scale == 0x80_0000 {
        vstd::arithmetic::power2::lemma2_to64();
        lemma_is_single(c as nat, 23);
    }
}

/// A candidate keeps the corner's own coordinates, its level and its score; it needs 16
/// pixels of room on every side of the corner in the level's image.
pub proof fn law_candidate_of_a_corner(c: Corner, level: PyramidLevel, lvl: int, w: int, h: int)
    requires
        0 <= lvl < 8,
    ensures
        ({
            let k = cand_of(c, level, lvl, w, h);
            &&& k.lx == c.x && k.ly == c.y && k.level == lvl && k.score == c.score
            &&& 1 <= w <= 0x1_0000 ==> k.x == to_level0(c.x, level.scale, w)
            &&& 1 <= h <= 0x1_0000 ==> k.y == to_level0(c.y, level.scale, h)
        }),
        describable(c, level) <==> c.x >= 16 && c.y >= 16 && c.x + 16 < level.image.width && c.y + 16
            < level.image.height,
{
    if w >= 1 {
        law_back_to_level0(c.x, level.scale, w);
    }
    if h >= 1 {
        law_back_to_level0(c.y, level.scale, h);
    }
}

proof fn lemma_level_cands(
    corners: Seq<Corner>,
    level: PyramidLevel,
    lvl: int,
    w: int,
    h: int,
    n: nat,
    i: int,
)
    requires
        0 <= i < n <= corners.len(),
    ensures
        describable(corners[i], level) ==> level_cands(corners, level, lvl, w, h, n).contains(
            cand_of(corners[i], level, lvl, w, h),
        ),
    decreases n,
{
    let before = level_cands(corners, level, lvl, w, h, (n - 1) as nat);
    let now = level_cands(corners, level, lvl, w, h, n);
    if i < n - 1 {
        lemma_level_cands(corners, level, lvl, w, h, (n - 1) as nat, i);
        if describable(corners[i], level) {
            let c = cand_of(corners[i], level, lvl, w, h);
            let k = choose|k: int| 0 <= k < before.len() && before[k] == c;
            assert(now[k] == c);
        }
    } else if describable(corners[i], level) {
        assert(now[now.len() - 1] == cand_of(corners[i], level, lvl, w, h));
    }
}

proof fn lemma_cand_source(
    corners: Seq<Corner>,
    level: PyramidLevel,
    lvl: int,
    w: int,
    h: int,
    n: nat,
    k: int,
)
    requires
        n <= corners.len(),
        0 <= k < level_cands(corners, level, lvl, w, h, n).len(),
    ensures
        exists|i: int|
            0 <= i < n && describable(#[trigger] corners[i], level) && level_cands(
                corners,
                level,
                lvl,
                w,
                h,
                n,
            )[k] == cand_of(corners[i], level, lvl, w, h),
    decreases n,
{
    if n > 0 {
        let before = level_cands(corners, level, lvl, w, h, (n - 1) as nat);
        if k < before.len() {
            lemma_cand_source(corners, level, lvl, w, h, (n - 1) as nat, k);
            let i = choose|i: int|
                0 <= i < n - 1 && describable(#[trigger] corners[i], level) && before[k] == cand_of(
                    corners[i],
                    level,
                    lvl,
                    w,
                    h,
                );
            assert(describable(corners[i], level));
        } else {
            assert(describable(corners[n - 1], level));
        }
    }
}

proof fn lemma_candidates(levels: Seq<PyramidLevel>, w: int, h: int, n: nat, l: int, i: int)
    requires
        0 <= l < n <= levels.len(),
        0 <= i < level_corners(levels[l]).len(),
        describable(level_corners(levels[l])[i], levels[l]),
    ensures
        candidates(levels, w, h, n).contains(cand_of(level_corners(levels[l])[i], levels[l], l, w, h)),
    decreases n,
{
    let before = candidates(levels, w, h, (n - 1) as nat);
    let now = candidates(levels, w, h, n);
    let c = cand_of(level_corners(levels[l])[i], levels[l], l, w, h);
    let corners = level_corners(levels[n - 1]);
    let own = level_cands(corners, levels[n - 1], n - 1, w, h, corners.len());
    if l < n - 1 {
        lemma_candidates(levels, w, h, (n - 1) as nat, l, i);
        let k = choose|k: int| 0 <= k < before.len() && before[k] == c;
        assert(now[k] == c);
    } else {
        lemma_level_cands(corners, levels[l], l, w, h, corners.len(), i);
        let k = choose|k: int| 0 <= k < own.len() && own[k] == c;
        assert(now[before.len() + k] == c);
    }
}

/// Every corner of every level that has room around it is a candidate, under the number of
/// its level.
pub proof fn law_no_corner_is_missed(levels: Seq<PyramidLevel>, w: int, h: int, l: int, i: int)
    requires
        0 <= l < levels.len(),
        0 <= i < level_corners(levels[l]).len(),
        describable(level_corners(levels[l])[i], levels[l]),
    ensures
        candidates(levels, w, h, levels.len()).contains(
            cand_of(level_corners(levels[l])[i], levels[l], l, w, h),
        ),
{
    lemma_candidates(levels, w, h, levels.len(), l, i);
}

/// Every candidate is that of a corner of some level with room around it.
pub proof fn law_candidates_are_corners(levels: Seq<PyramidLevel>, w: int, h: int, n: nat, k: int)
    requires
        n <= levels.len(),
        0 <= k < candidates(levels, w, h, n).len(),
    ensures
        exists|l: int, i: int|
            0 <= l < n && 0 <= i < level_corners(levels[l]).len() && describable(
                #[trigger] level_corners(levels[l])[i],
                levels[l],
            ) && candidates(levels, w, h, n)[k] == cand_of(
                level_corners(levels[l])[i],
                levels[l],
                l,
                w,
                h,
            ),
    decreases n,
{
    if n > 0 {
        let before = candidates(levels, w, h, (n - 1) as nat);
        let corners = level_corners(levels[n - 1]);
        if k < before.len() {
            law_candidates_are_corners(levels, w, h, (n - 1) as nat, k);
            let (l, i) = choose|l: int, i: int|
                0 <= l < n - 1 && 0 <= i < level_corners(levels[l]).len() && describable(
                    #[trigger] level_corners(levels[l])[i],
                    levels[l],
                ) && before[k] == cand_of(level_corners(levels[l])[i], levels[l], l, w, h);
            assert(describable(level_corners(levels[l])[i], levels[l]));
        } else {
            lemma_cand_source(
                corners,
                levels[n - 1],
                n - 1,
                w,
                h,
                corners.len(),
                k - before.len(),
            );
            let i = choose|i: int|
                0 <= i < corners.len() && describable(#[trigger] corners[i], levels[n - 1])
                    && level_cands(corners, levels[n - 1], n - 1, w, h, corners.len())[k
                    - before.len()] == cand_of(corners[i], levels[n - 1], n - 1, w, h);
            assert(describable(level_corners(levels[n - 1])[i], levels[n - 1]));
        }
    }
}

/// Grid cells are squares of 24 pixels that start at the corner of the image.
pub proof fn law_cells_are_squares(a: Cand, b: Cand, i: int, j: int)
    requires
        24 * i <= a.x < 24 * i + 24,
        24 * j <= a.y < 24 * j + 24,
    ensures
        same_cell(a, b) <==> 24 * i <= b.x < 24 * i + 24 && 24 * j <= b.y < 24 * j + 24,
{
    assert(a.x / CELL_PX == i && a.y / CELL_PX == j);
}

proof fn lemma_selected_grows(s: Seq<Cand>, m: nat, n: nat)
    requires
        m <= n <= s.len(),
    ensures
        selected(s, m).len() <= selected(s, n).len(),
        selected(s, m) == selected(s, n).take(selected(s, m).len() as int),
    decreases n,
{
    if m < n {
        lemma_selected_grows(s, m, (n - 1) as nat);
        let first = selected(s, m);
        assert(first =~= selected(s, n).take(first.len() as int));
    } else {
        assert(selected(s, m) =~= selected(s, m).take(selected(s, m).len() as int));
    }
}

/// The strongest 500 are kept, but no more than six in a cell: a candidate is left out only
/// where, of those before it, 500 were kept or six in its cell; otherwise it is kept behind
/// them.
pub proof fn law_left_out_only_where_full(s: Seq<Cand>, k: nat)
    requires
        k < s.len(),
    ensures
        ({
            let before = selected(s, k);
            let all = selected(s, s.len());
            &&& before.len() <= 500 && in_cell(before, s[k as int]) <= 6
            &&& before.len() == 500 || in_cell(before, s[k as int]) == 6 ==> selected(s, k + 1)
                == before
            &&& before.len() < 500 && in_cell(before, s[k as int]) < 6 ==> before.len() < all.len()
                && all[before.len() as int] == s[k as int]
            &&& before == all.take(before.len() as int)
        }),
        all_kept(s),
{
    law_selection_is_capped(s, k, s[k as int]);
    lemma_selected_grows(s, k, s.len());
    lemma_selected_grows(s, k + 1, s.len());
    let before = selected(s, k);
    let all = selected(s, s.len());
    if before.len() < 500 && in_cell(before, s[k as int]) < 6 {
        let next = selected(s, k + 1);
        assert(next[before.len() as int] == s[k as int]);
        assert(all.take(next.len() as int)[before.len() as int] == s[k as int]);
    }
    lemma_all_kept(s);
}

/// Where there are at most 500 and no cell has more than six, all are kept.
pub open spec fn all_kept(s: Seq<Cand>) -> bool {
    s.len() <= 500 && (forall|i: int| 0 <= i < s.len() ==> in_cell(s, #[trigger] s[i]) <= 6)
        ==> selected(s, s.len()) == s
}

proof fn lemma_in_cell_grows(s: Seq<Cand>, n: nat, c: Cand)
    requires
        n <= s.len(),
    ensures
        in_cell(s.take(n as int), c) <= in_cell(s, c),
    decreases s.len(),
{
    if n < s.len() {
        lemma_in_cell_grows(s.drop_last(), n, c);
        assert(s.drop_last().take(n as int) =~= s.take(n as int));
    } else {
        assert(s.take(n as int) =~= s);
    }
}

proof fn lemma_prefix_kept(s: Seq<Cand>, n: nat)
    requires
        n <= s.len() <= 500,
        forall|i: int| 0 <= i < s.len() ==> in_cell(s, #[trigger] s[i]) <= 6,
    ensures
        selected(s, n) == s.take(n as int),
    decreases n,
{
    if n > 0 {
        lemma_prefix_kept(s, (n - 1) as nat);
        let c = s[n - 1];
        assert(s.take(n as int).drop_last() =~= s.take(n - 1));
        assert(s.take(n as int).last() == c);
        lemma_in_cell_grows(s, n, c);
        assert(in_cell(s.take(n as int), c) == in_cell(s.take(n - 1), c) + 1);
        assert(s.take(n - 1).push(c) =~= s.take(n as int));
    } else {
        assert(s.take(0) =~= Seq::<Cand>::empty());
    }
}

proof fn lemma_all_kept(s: Seq<Cand>)
    ensures
        all_kept(s),
{
    if s.len() <= 500 && (forall|i: int| 0 <= i < s.len() ==> in_cell(s, #[trigger] s[i]) <= 6) {
        lemma_prefix_kept(s, s.len());
        assert(s.take(s.len() as int) =~= s);
    }
}

/// A detection works on at most eight levels, each 6/5 times smaller than the one before,
/// with the corners that differ from their centre by more than 20 levels.
pub proof fn law_levels_of_a_detection(gray: GrayImage, levels: Seq<PyramidLevel>, l: int)
    requires
        is_pyramid(gray, levels),
        0 <= l < levels.len(),
    ensures
        levels.len() <= 8,
        is_level(gray, 6, 5, l as nat, levels[l]),
        levels.len() < 8 ==> level_too_small(gray, 6, 5, levels.len()),
        ({
            let raw = fast::all_corners(levels[l].image, 20);
            level_corners(levels[l]) == fast::peaks(raw, raw.len())
        }),
{
    assert(is_level(gray, SCALE_NUM as int, SCALE_DEN as int, l as nat, levels[l]));
}

/// A ranking loses no candidate and adds none, and no candidate in it is weaker than a later
/// one.
pub proof fn law_what_a_ranking_is(all: Seq<Cand>, s: Seq<Cand>, c: Cand, i: int, j: int)
    requires
        ranking(all, s),
    ensures
        s.to_multiset().count(c) == all.to_multiset().count(c),
        s.len() == all.len(),
        0 <= i <= j < s.len() ==> s[i].score >= s[j].score,
{
    broadcast use vstd::seq_lib::group_to_multiset_ensures;

    assert(s.len() == s.to_multiset().len());
    assert(all.len() == all.to_multiset().len());
}

/// What a detection keeps are candidates of the pyramid, at most 500 of them and the
/// strongest first; the total counts every candidate.
pub proof fn law_what_a_detection_keeps(
    gray: GrayImage,
    levels: Seq<PyramidLevel>,
    s: Seq<Cand>,
    kept: Seq<Cand>,
    total: u32,
    i: int,
)
    requires
        detection(gray, levels, s, kept, total),
        0 <= i < kept.len(),
    ensures
        ({
            let all = candidates(levels, gray.width as int, gray.height as int, levels.len());
            &&& all.contains(kept[i])
            &&& kept.len() <= 500
            &&& kept.len() <= all.len()
            &&& strongest_first(kept)
            &&& all.len() <= u32::MAX ==> total == all.len()
            &&& all.len() <= 500 && (forall|k: int|
                0 <= k < s.len() ==> in_cell(s, #[trigger] s[k]) <= 6) ==> kept == s
        }),
{
    let all = candidates(levels, gray.width as int, gray.height as int, levels.len());
    law_selection_is_capped(s, s.len(), kept[i]);
    law_selection_keeps_order(s, s.len());
    lemma_selected_from(s, s.len(), i);
    let j = choose|j: int| 0 <= j < s.len() && #[trigger] s[j] == kept[i];
    lemma_member(all, s, j);
    law_what_a_ranking_is(all, s, kept[i], 0, 0);
    lemma_all_kept(s);
}

} // verus!
