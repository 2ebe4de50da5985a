//! Frame-ID marker codec: a small high-contrast block burned into the luma
//! plane before H.264 encode, so that a browser can read back which camera
//! frame a displayed video frame is.
//!
//! Geometry: a data grid of 48x16 px made of 4x4 px cells (12 columns, 4 rows,
//! row-major), a one-cell black border around it, and a 4 px black quiet zone.
//! The whole 64x32 region sits flush in the bottom-right frame corner. Cell
//! luma is 16 (bit 0) or 235 (bit 1).
//!
//! Bit layout of the 48 cells, most significant bit first: 12 cells of sync
//! prefix `0xA5C`, 8 cells with the low byte of the frame id, 8 cells with the
//! CRC-8 (poly 0x07, init 0x00) of that byte, 20 spare black cells.
use crate::single::{
    divide, lemma_quotient, lemma_single, lemma_spacing, quotient, round, single, spacing,
};
use vstd::arithmetic::div_mod::{lemma_fundamental_div_mod, lemma_fundamental_div_mod_converse};
use vstd::prelude::*;

verus! {

pub const MARKER_W: usize = 48;

pub const MARKER_H: usize = 16;

/// Side of one square cell, in pixels.
pub const CELL: usize = 4;

pub const COLS: usize = 12;

pub const ROWS: usize = 4;

pub const N_CELLS: usize = 48;

/// Black ring of one cell around the grid.
pub const BORDER: usize = 4;

/// Black quiet zone on all sides.
pub const MARGIN: usize = 4;

/// Full reserved rectangle: grid, border and quiet zone.
pub const ROI_W: usize = 64;

pub const ROI_H: usize = 32;

pub const BLACK: u8 = 16;

pub const WHITE: u8 = 235;

pub const SYNC: u16 = 0xA5C;

pub const SYNC_BITS: usize = 12;

pub const ID_BITS: usize = 8;

pub const CRC_BITS: usize = 8;

// ── Model ─────────────────────────────────────────────────────────────────────

/// One shift of the CRC register.
pub open spec fn crc_step(c: u8) -> u8 {
    if c & 0x80u8 != 0 {
        (c << 1u8) ^ 0x07u8
    } else {
        c << 1u8
    }
}

/// CRC-8 (poly 0x07, init 0x00, no reflection) of one byte.
pub open spec fn crc8_of(byte: u8) -> u8 {
    crc_step(crc_step(crc_step(crc_step(crc_step(crc_step(crc_step(crc_step(byte))))))))
}

/// Bit `k` of a byte, counted from the most significant one.
pub open spec fn byte_bit(b: u8, k: int) -> bool {
    (b >> ((7 - k) as u8)) & 1u8 != 0
}

/// Bit `k` of the 12-bit sync prefix, counted from the most significant one.
pub open spec fn sync_bit(k: int) -> bool {
    (SYNC >> ((11 - k) as u16)) & 1u16 != 0
}

/// The cell bits that carry the id byte `id`.
pub open spec fn marker_bits(id: u8) -> Seq<bool> {
    Seq::new(
        N_CELLS as nat,
        |c: int|
            if c < 12 {
                sync_bit(c)
            } else if c < 20 {
                byte_bit(id, c - 12)
            } else if c < 28 {
                byte_bit(crc8_of(id), c - 20)
            } else {
                false
            },
    )
}

/// The low byte of a frame id: all that travels in the marker.
pub open spec fn id_byte(frame_id: u64) -> u8 {
    (frame_id % 256) as u8
}

/// Number of a bit.
pub open spec fn bit_value(b: bool) -> u8 {
    if b {
        1
    } else {
        0
    }
}

/// The byte whose bits are the eight cells from `start` on, most significant first.
pub open spec fn byte_of_cells(cells: Seq<bool>, start: int) -> u8 {
    ((bit_value(cells[start]) << 7u8) | (bit_value(cells[start + 1]) << 6u8) | (bit_value(
        cells[start + 2],
    ) << 5u8) | (bit_value(cells[start + 3]) << 4u8) | (bit_value(cells[start + 4]) << 3u8) | (
    bit_value(cells[start + 5]) << 2u8) | (bit_value(cells[start + 6]) << 1u8) | bit_value(
        cells[start + 7],
    ))
}

/// The id that 48 cells carry: none unless the sync prefix is there and the
/// checksum agrees.
pub open spec fn decoded_cells(cells: Seq<bool>) -> Option<u64> {
    if (forall|k: int| 0 <= k < 12 ==> cells[k] == #[trigger] sync_bit(k)) && crc8_of(
        byte_of_cells(cells, 12),
    ) == byte_of_cells(cells, 20) {
        Some(byte_of_cells(cells, 12) as u64)
    } else {
        None
    }
}

// ── Rectangles ────────────────────────────────────────────────────────────────

/// Bottom-right rectangle of the 48x16 data grid within a frame, as
/// `(x, y, width, height)`.
pub fn data_grid_rect(frame_w: usize, frame_h: usize) -> (r: (usize, usize, usize, usize))
    requires
        frame_w >= MARGIN + BORDER + MARKER_W,
        frame_h >= MARGIN + BORDER + MARKER_H,
    ensures
        r.0 == frame_w - 56,
        r.1 == frame_h - 24,
        r.2 == MARKER_W,
        r.3 == MARKER_H,
{
    let x: usize = frame_w - MARGIN - BORDER - MARKER_W;
    let y: usize = frame_h - MARGIN - BORDER - MARKER_H;
    (x, y, MARKER_W, MARKER_H)
}

/// Bottom-right rectangle that feature detection must leave out (grid, border
/// and quiet zone), as `(x, y, width, height)`.
pub fn roi_rect(frame_w: usize, frame_h: usize) -> (r: (usize, usize, usize, usize))
    requires
        frame_w >= ROI_W,
        frame_h >= ROI_H,
    ensures
        r.0 == frame_w - ROI_W,
        r.1 == frame_h - ROI_H,
        r.2 == ROI_W,
        r.3 == ROI_H,
{
    (frame_w - ROI_W, frame_h - ROI_H, ROI_W, ROI_H)
}

// ── Cells ─────────────────────────────────────────────────────────────────────

/// CRC-8 (poly 0x07, init 0x00, no reflection) of one byte.
pub fn crc8(byte: u8) -> (r: u8)
    ensures
        r == crc8_of(byte),
{
    let mut c: u8 = byte;
    let mut i: usize = 0;
    while i < 8
        invariant
            i <= 8,
            crc_after(c, 8 - i) == crc_after(byte, 8),
        decreases 8 - i,
    {
        c = if c & 0x80 != 0 {
            (c << 1) ^ 0x07
        } else {
            c << 1
        };
        i = i + 1;
    }
    proof {
        reveal_with_fuel(crc_after, 9);
    }
    c
}

/// The register after `n` further shifts.
spec fn crc_after(c: u8, n: int) -> u8
    decreases n,
{
    if n <= 0 {
        c
    } else {
        crc_after(crc_step(c), n - 1)
    }
}

/// The 48 cell bits for `frame_id` (white is `true`). Only the low 8 bits of
/// `frame_id` are encoded.
pub fn marker_cells(frame_id: u64) -> (r: [bool; N_CELLS])
    ensures
        r@ == marker_bits(id_byte(frame_id)),
{
    let id: u8 = (frame_id % 256) as u8;
    let crc: u8 = crc8(id);
    let mut cells: [bool; N_CELLS] = [false; N_CELLS];
    let mut i: usize = 0;
    while i < SYNC_BITS
        invariant
            i <= SYNC_BITS,
            forall|c: int| 0 <= c < i ==> cells@[c] == marker_bits(id)[c],
            forall|c: int| i <= c < N_CELLS ==> cells@[c] == false,
        decreases SYNC_BITS - i,
    {
        let shift: u16 = (SYNC_BITS - 1 - i) as u16;
        cells[i] = (SYNC >> shift) & 1 != 0;
        i = i + 1;
    }
    let mut k: usize = 0;
    while k < ID_BITS
        invariant
            k <= ID_BITS,
            crc == crc8_of(id),
            forall|c: int| 0 <= c < 12 + k ==> cells@[c] == marker_bits(id)[c],
            forall|c: int| 12 + k <= c < N_CELLS ==> cells@[c] == false,
        decreases ID_BITS - k,
    {
        let shift: u8 = (ID_BITS - 1 - k) as u8;
        cells[SYNC_BITS + k] = (id >> shift) & 1 != 0;
        k = k + 1;
    }
    let mut m: usize = 0;
    while m < CRC_BITS
        invariant
            m <= CRC_BITS,
            crc == crc8_of(id),
            forall|c: int| 0 <= c < 20 + m ==> cells@[c] == marker_bits(id)[c],
            forall|c: int| 20 + m <= c < N_CELLS ==> cells@[c] == false,
        decreases CRC_BITS - m,
    {
        let shift: u8 = (CRC_BITS - 1 - m) as u8;
        cells[SYNC_BITS + ID_BITS + m] = (crc >> shift) & 1 != 0;
        m = m + 1;
    }
    assert(cells@ =~= marker_bits(id));
    cells
}

/// Reads the byte in the eight cells from `start` on.
fn cells_byte(cells: &[bool; N_CELLS], start: usize) -> (r: u8)
    requires
        start + 8 <= N_CELLS,
    ensures
        r == byte_of_cells(cells@, start as int),
{
    ((cells[start] as u8) << 7) | ((cells[start + 1] as u8) << 6) | ((cells[start + 2] as u8) << 5)
        | ((cells[start + 3] as u8) << 4) | ((cells[start + 4] as u8) << 3) | ((cells[start
        + 5] as u8) << 2) | ((cells[start + 6] as u8) << 1) | (cells[start + 7] as u8)
}

/// Decodes 48 cell bits to the 8-bit frame id, or `None` if they are no marker.
pub fn cells_to_id(cells: &[bool; N_CELLS]) -> (r: Option<u64>)
    ensures
        r == decoded_cells(cells@),
{
    let mut i: usize = 0;
    while i < SYNC_BITS
        invariant
            i <= SYNC_BITS,
            forall|k: int| 0 <= k < i ==> cells@[k] == #[trigger] sync_bit(k),
        decreases SYNC_BITS - i,
    {
        let shift: u16 = (SYNC_BITS - 1 - i) as u16;
        let want: bool = (SYNC >> shift) & 1 != 0;
        assert(want == sync_bit(i as int));
        if cells[i] != want {
            return None;
        }
        i = i + 1;
    }
    let id: u8 = cells_byte(cells, SYNC_BITS);
    let crc: u8 = cells_byte(cells, SYNC_BITS + ID_BITS);
    if crc8(id) == crc {
        Some(id as u64)
    } else {
        None
    }
}

proof fn lemma_byte_roundtrip(b: u8, cells: Seq<bool>, start: int)
    requires
        forall|k: int| 0 <= k < 8 ==> cells[start + k] == #[trigger] byte_bit(b, k),
    ensures
        byte_of_cells(cells, start) == b,
{
    let b0: u8 = bit_value(cells[start]);
    let b1: u8 = bit_value(cells[start + 1]);
    let b2: u8 = bit_value(cells[start + 2]);
    let b3: u8 = bit_value(cells[start + 3]);
    let b4: u8 = bit_value(cells[start + 4]);
    let b5: u8 = bit_value(cells[start + 5]);
    let b6: u8 = bit_value(cells[start + 6]);
    let b7: u8 = bit_value(cells[start + 7]);
    assert(cells[start + 0] == byte_bit(b, 0));
    assert(cells[start + 1] == byte_bit(b, 1));
    assert(cells[start + 2] == byte_bit(b, 2));
    assert(cells[start + 3] == byte_bit(b, 3));
    assert(cells[start + 4] == byte_bit(b, 4));
    assert(cells[start + 5] == byte_bit(b, 5));
    assert(cells[start + 6] == byte_bit(b, 6));
    assert(cells[start + 7] == byte_bit(b, 7));
    assert(((b0 << 7u8) | (b1 << 6u8) | (b2 << 5u8) | (b3 << 4u8) | (b4 << 3u8) | (b5 << 2u8) | (b6
        << 1u8) | b7) == b) by (bit_vector)
        requires
            b0 == (if (b >> 7u8) & 1u8 != 0 { 1u8 } else { 0u8 }),
            b1 == (if (b >> 6u8) & 1u8 != 0 { 1u8 } else { 0u8 }),
            b2 == (if (b >> 5u8) & 1u8 != 0 { 1u8 } else { 0u8 }),
            b3 == (if (b >> 4u8) & 1u8 != 0 { 1u8 } else { 0u8 }),
            b4 == (if (b >> 3u8) & 1u8 != 0 { 1u8 } else { 0u8 }),
            b5 == (if (b >> 2u8) & 1u8 != 0 { 1u8 } else { 0u8 }),
            b6 == (if (b >> 1u8) & 1u8 != 0 { 1u8 } else { 0u8 }),
            b7 == (if (b >> 0u8) & 1u8 != 0 { 1u8 } else { 0u8 }),
    ;
}

/// What the eight cells from `start` on say after one of them was flipped: the
/// byte with that bit inverted.
proof fn lemma_byte_flip(cells: Seq<bool>, start: int, k: int)
    requires
        0 <= k < 8,
        0 <= start,
        start + 8 <= cells.len(),
    ensures
        byte_of_cells(cells.update(start + k, !cells[start + k]), start) == byte_of_cells(
            cells,
            start,
        ) ^ (1u8 << ((7 - k) as u8)),
{
    let f = cells.update(start + k, !cells[start + k]);
    let a0: u8 = bit_value(cells[start]);
    let a1: u8 = bit_value(cells[start + 1]);
    let a2: u8 = bit_value(cells[start + 2]);
    let a3: u8 = bit_value(cells[start + 3]);
    let a4: u8 = bit_value(cells[start + 4]);
    let a5: u8 = bit_value(cells[start + 5]);
    let a6: u8 = bit_value(cells[start + 6]);
    let a7: u8 = bit_value(cells[start + 7]);
    let kk: u8 = k as u8;
    let sh: u8 = (7 - k) as u8;
    let n0: u8 = bit_value(f[start]);
    let n1: u8 = bit_value(f[start + 1]);
    let n2: u8 = bit_value(f[start + 2]);
    let n3: u8 = bit_value(f[start + 3]);
    let n4: u8 = bit_value(f[start + 4]);
    let n5: u8 = bit_value(f[start + 5]);
    let n6: u8 = bit_value(f[start + 6]);
    let n7: u8 = bit_value(f[start + 7]);
    assert(((n0 << 7u8) | (n1 << 6u8) | (n2 << 5u8) | (n3 << 4u8) | (n4 << 3u8) | (n5 << 2u8) | (n6
        << 1u8) | n7) == (((a0 << 7u8) | (a1 << 6u8) | (a2 << 5u8) | (a3 << 4u8) | (a4 << 3u8) | (a5
        << 2u8) | (a6 << 1u8) | a7) ^ (1u8 << sh))) by (bit_vector)
        requires
            kk < 8,
            sh == 7 - kk,
            a0 <= 1,
            a1 <= 1,
            a2 <= 1,
            a3 <= 1,
            a4 <= 1,
            a5 <= 1,
            a6 <= 1,
            a7 <= 1,
            n0 == (if kk == 0 { 1 - a0 } else { a0 as int }),
            n1 == (if kk == 1 { 1 - a1 } else { a1 as int }),
            n2 == (if kk == 2 { 1 - a2 } else { a2 as int }),
            n3 == (if kk == 3 { 1 - a3 } else { a3 as int }),
            n4 == (if kk == 4 { 1 - a4 } else { a4 as int }),
            n5 == (if kk == 5 { 1 - a5 } else { a5 as int }),
            n6 == (if kk == 6 { 1 - a6 } else { a6 as int }),
            n7 == (if kk == 7 { 1 - a7 } else { a7 as int }),
    ;
}

/// The cells of an id decode to that id.
pub proof fn law_cells_roundtrip(id: u8)
    ensures
        decoded_cells(marker_bits(id)) == Some(id as u64),
{
    let cells = marker_bits(id);
    assert forall|k: int| 0 <= k < 8 implies cells[12 + k] == #[trigger] byte_bit(id, k) by {}
    assert forall|k: int| 0 <= k < 8 implies cells[20 + k] == #[trigger] byte_bit(crc8_of(id), k) by {
    }
    lemma_byte_roundtrip(id, cells, 12);
    lemma_byte_roundtrip(crc8_of(id), cells, 20);
}

/// Flipping any one of the 48 cells never makes a marker read as another id:
/// it reads as its own id or as nothing.
pub proof fn law_single_flip_never_wrong(id: u8, c: int)
    requires
        0 <= c < N_CELLS,
    ensures
        ({
            let flipped = marker_bits(id).update(c, !marker_bits(id)[c]);
            decoded_cells(flipped) == None::<u64> || decoded_cells(flipped) == Some(id as u64)
        }),
{
    let cells = marker_bits(id);
    let f = cells.update(c, !cells[c]);
    let crc = crc8_of(id);
    assert forall|k: int| 0 <= k < 8 implies cells[12 + k] == #[trigger] byte_bit(id, k) by {}
    assert forall|k: int| 0 <= k < 8 implies cells[20 + k] == #[trigger] byte_bit(crc, k) by {}
    lemma_byte_roundtrip(id, cells, 12);
    lemma_byte_roundtrip(crc, cells, 20);
    if c < 12 {
        assert(f[c] != sync_bit(c));
    } else if c < 20 {
        lemma_byte_flip(cells, 12, c - 12);
        assert forall|k: int| 0 <= k < 8 implies f[20 + k] == #[trigger] byte_bit(crc, k) by {}
        lemma_byte_roundtrip(crc, f, 20);
        let sh: u8 = (7 - (c - 12)) as u8;
        let other: u8 = id ^ (1u8 << sh);
        assert(crc8_of(other) != crc8_of(id)) by (bit_vector)
            requires
                sh < 8,
                other == id ^ (1u8 << sh),
        ;
    } else if c < 28 {
        lemma_byte_flip(cells, 20, c - 20);
        assert forall|k: int| 0 <= k < 8 implies f[12 + k] == #[trigger] byte_bit(id, k) by {}
        lemma_byte_roundtrip(id, f, 12);
        let sh: u8 = (7 - (c - 20)) as u8;
        let other: u8 = crc ^ (1u8 << sh);
        assert(other != crc) by (bit_vector)
            requires
                sh < 8,
                other == crc ^ (1u8 << sh),
        ;
    } else {
        assert forall|k: int| 0 <= k < 8 implies f[12 + k] == #[trigger] byte_bit(id, k) by {}
        lemma_byte_roundtrip(id, f, 12);
    }
}

// ── Painting ──────────────────────────────────────────────────────────────────

/// Pixel `(x, y)` lies in the reserved rectangle.
pub open spec fn in_roi(frame_w: int, frame_h: int, x: int, y: int) -> bool {
    frame_w - ROI_W <= x < frame_w && frame_h - ROI_H <= y < frame_h
}

/// Pixel `(x, y)` lies in a white cell of the marker for `id`.
pub open spec fn is_white(frame_w: int, frame_h: int, id: u8, x: int, y: int) -> bool {
    let gx = frame_w - 56;
    let gy = frame_h - 24;
    &&& gx <= x < gx + MARKER_W
    &&& gy <= y < gy + MARKER_H
    &&& marker_bits(id)[((y - gy) / 4) * 12 + (x - gx) / 4]
}

/// Where the luma sample of pixel `(x, y)` stands in a buffer whose rows are
/// `stride` samples apart, `step` bytes to a sample.
pub open spec fn luma_index(stride: int, step: int, x: int, y: int) -> int {
    (y * stride + x) * step
}

/// Byte `p` is the luma sample of a white pixel.
pub open spec fn white_at(
    frame_w: int,
    frame_h: int,
    stride: int,
    step: int,
    id: u8,
    p: int,
) -> bool {
    exists|x: int, y: int|
        is_white(frame_w, frame_h, id, x, y) && p == #[trigger] luma_index(stride, step, x, y)
}

/// Byte `p` is the luma sample of a pixel in the reserved rectangle.
pub open spec fn roi_at(frame_w: int, frame_h: int, stride: int, step: int, p: int) -> bool {
    exists|x: int, y: int|
        in_roi(frame_w, frame_h, x, y) && p == #[trigger] luma_index(stride, step, x, y)
}

/// The buffer with the marker painted over it: white cells, the rest of the
/// reserved rectangle black, every other byte as it was. A frame too small for
/// the rectangle is left alone.
pub open spec fn painted(
    buf: Seq<u8>,
    frame_w: int,
    frame_h: int,
    stride: int,
    step: int,
    id: u8,
) -> Seq<u8> {
    if frame_w < ROI_W || frame_h < ROI_H {
        buf
    } else {
        Seq::new(
            buf.len(),
            |p: int|
                if white_at(frame_w, frame_h, stride, step, id, p) {
                    WHITE
                } else if roi_at(frame_w, frame_h, stride, step, p) {
                    BLACK
                } else {
                    buf[p]
                },
        )
    }
}

proof fn lemma_index_bound(stride: int, step: int, x: int, y: int, mx: int, my: int)
    requires
        0 <= stride,
        0 <= step,
        0 <= x <= mx,
        0 <= y <= my,
    ensures
        0 <= y * stride,
        0 <= y * stride + x <= my * stride + mx,
        0 <= luma_index(stride, step, x, y) <= luma_index(stride, step, mx, my),
        y * stride + x <= luma_index(stride, step, x, y) || step == 0,
{
    assert(0 <= y * stride <= my * stride) by (nonlinear_arith)
        requires
            0 <= stride,
            0 <= y <= my,
    ;
    let a = y * stride + x;
    let b = my * stride + mx;
    assert(0 <= a * step <= b * step) by (nonlinear_arith)
        requires
            0 <= a <= b,
            0 <= step,
    ;
    if step > 0 {
        assert(a <= a * step) by (nonlinear_arith)
            requires
                0 <= a,
                1 <= step,
        ;
    }
}

/// Paints the marker over the luma samples of the bottom-right rectangle:
/// quiet zone and border black, data cells black or white.
fn paint_marker(
    buf: &mut [u8],
    stride: usize,
    step: usize,
    frame_w: usize,
    frame_h: usize,
    frame_id: u64,
)
    requires
        step >= 1,
        frame_w >= ROI_W && frame_h >= ROI_H ==> luma_index(
            stride as int,
            step as int,
            frame_w - 1,
            frame_h - 1,
        ) <= usize::MAX,
    ensures
        final(buf)@ == painted(
            old(buf)@,
            frame_w as int,
            frame_h as int,
            stride as int,
            step as int,
            id_byte(frame_id),
        ),
{
    if frame_w < ROI_W || frame_h < ROI_H {
        return ;
    }
    let len: usize = buf.len();
    let ghost before = buf@;
    let ghost w: int = frame_w as int;
    let ghost h: int = frame_h as int;
    let ghost st: int = stride as int;
    let ghost sp: int = step as int;
    let ghost id: u8 = id_byte(frame_id);
    let (rx, ry, _, _) = roi_rect(frame_w, frame_h);
    let mut y: usize = ry;
    while y < frame_h
        invariant
            step >= 1,
            w == frame_w,
            h == frame_h,
            st == stride,
            sp == step,
            frame_w >= ROI_W,
            frame_h >= ROI_H,
            rx == frame_w - ROI_W,
            ry == frame_h - ROI_H,
            ry <= y <= frame_h,
            luma_index(st, sp, w - 1, h - 1) <= usize::MAX,
            buf@.len() == len,
            before.len() == len,
            forall|p: int|
                0 <= p < len ==> #[trigger] buf@[p] == (if roi_rows(w, h, st, sp, y as int, p) {
                    BLACK
                } else {
                    before[p]
                }),
        decreases frame_h - y,
    {
        let ghost row = buf@;
        let mut x: usize = rx;
        while x < frame_w
            invariant
                step >= 1,
                w == frame_w,
                h == frame_h,
                st == stride,
                sp == step,
                rx == frame_w - ROI_W,
                ry == frame_h - ROI_H,
                rx <= x <= frame_w,
                ry <= y < frame_h,
                luma_index(st, sp, w - 1, h - 1) <= usize::MAX,
                buf@.len() == len,
                row.len() == len,
                forall|p: int|
                    0 <= p < len ==> #[trigger] buf@[p] == (if roi_cols(
                        w,
                        st,
                        sp,
                        x as int,
                        y as int,
                        p,
                    ) {
                        BLACK
                    } else {
                        row[p]
                    }),
            decreases frame_w - x,
        {
            proof {
                lemma_index_bound(st, sp, x as int, y as int, w - 1, h - 1);
            }
            let idx: usize = (y * stride + x) * step;
            assert(idx == luma_index(st, sp, x as int, y as int));
            if idx < len {
                buf[idx] = BLACK;
            }
            assert forall|p: int| 0 <= p < len implies #[trigger] buf@[p] == (if roi_cols(
                w,
                st,
                sp,
                x + 1,
                y as int,
                p,
            ) {
                BLACK
            } else {
                row[p]
            }) by {
                if roi_cols(w, st, sp, x + 1, y as int, p) && p != idx {
                    let c = choose|c: int|
                        w - ROI_W <= c < x + 1 && p == #[trigger] luma_index(st, sp, c, y as int);
                    assert(c < x);
                    assert(roi_cols(w, st, sp, x as int, y as int, p));
                }
                if roi_cols(w, st, sp, x as int, y as int, p) {
                    let c = choose|c: int|
                        w - ROI_W <= c < x && p == #[trigger] luma_index(st, sp, c, y as int);
                    assert(roi_cols(w, st, sp, x + 1, y as int, p));
                }
            }
            x = x + 1;
        }
        assert forall|p: int| 0 <= p < len implies #[trigger] buf@[p] == (if roi_rows(
            w,
            h,
            st,
            sp,
            y + 1,
            p,
        ) {
            BLACK
        } else {
            before[p]
        }) by {
            assert(row[p] == row[p]);
            if roi_rows(w, h, st, sp, y + 1, p) && !roi_rows(w, h, st, sp, y as int, p) {
                let (c, r) = choose|c: int, r: int|
                    w - ROI_W <= c < w && h - ROI_H <= r < y + 1 && p == #[trigger] luma_index(
                        st,
                        sp,
                        c,
                        r,
                    );
                assert(r == y);
                assert(roi_cols(w, st, sp, w, y as int, p));
            }
            if roi_cols(w, st, sp, w, y as int, p) {
                let c = choose|c: int|
                    w - ROI_W <= c < w && p == #[trigger] luma_index(st, sp, c, y as int);
                assert(roi_rows(w, h, st, sp, y + 1, p));
            }
            if roi_rows(w, h, st, sp, y as int, p) {
                let (c, r) = choose|c: int, r: int|
                    w - ROI_W <= c < w && h - ROI_H <= r < y && p == #[trigger] luma_index(
                        st,
                        sp,
                        c,
                        r,
                    );
                assert(roi_rows(w, h, st, sp, y + 1, p));
            }
        }
        y = y + 1;
    }
    let ghost blacked = buf@;
    let (gx, gy, _, _) = data_grid_rect(frame_w, frame_h);
    let cells: [bool; N_CELLS] = marker_cells(frame_id);
    let mut j: usize = 0;
    while j < MARKER_H
        invariant
            step >= 1,
            w == frame_w,
            h == frame_h,
            st == stride,
            sp == step,
            id == id_byte(frame_id),
            cells@ == marker_bits(id),
            frame_w >= ROI_W,
            frame_h >= ROI_H,
            gx == frame_w - 56,
            gy == frame_h - 24,
            j <= MARKER_H,
            luma_index(st, sp, w - 1, h - 1) <= usize::MAX,
            buf@.len() == len,
            blacked.len() == len,
            forall|p: int|
                0 <= p < len ==> #[trigger] buf@[p] == (if white_rows(
                    w,
                    h,
                    st,
                    sp,
                    id,
                    gy + j,
                    p,
                ) {
                    WHITE
                } else {
                    blacked[p]
                }),
        decreases MARKER_H - j,
    {
        let ghost row = buf@;
        let ghost yy: int = gy + j;
        let mut i: usize = 0;
        while i < MARKER_W
            invariant
                step >= 1,
                w == frame_w,
                h == frame_h,
                st == stride,
                sp == step,
                id == id_byte(frame_id),
                cells@ == marker_bits(id),
                frame_w >= ROI_W,
                frame_h >= ROI_H,
                gx == frame_w - 56,
                gy == frame_h - 24,
                i <= MARKER_W,
                j < MARKER_H,
                yy == gy + j,
                luma_index(st, sp, w - 1, h - 1) <= usize::MAX,
                buf@.len() == len,
                row.len() == len,
                forall|p: int|
                    0 <= p < len ==> #[trigger] buf@[p] == (if white_cols(
                        w,
                        h,
                        st,
                        sp,
                        id,
                        gx + i,
                        yy,
                        p,
                    ) {
                        WHITE
                    } else {
                        row[p]
                    }),
            decreases MARKER_W - i,
        {
            let ghost xx: int = gx + i;
            proof {
                lemma_index_bound(st, sp, xx, yy, w - 1, h - 1);
            }
            let idx: usize = ((gy + j) * stride + (gx + i)) * step;
            assert(idx == luma_index(st, sp, xx, yy));
            let on: bool = cells[(j / CELL) * COLS + i / CELL];
            assert(on == is_white(w, h, id, xx, yy));
            if on && idx < len {
                buf[idx] = WHITE;
            }
            assert forall|p: int| 0 <= p < len implies #[trigger] buf@[p] == (if white_cols(
                w,
                h,
                st,
                sp,
                id,
                xx + 1,
                yy,
                p,
            ) {
                WHITE
            } else {
                row[p]
            }) by {
                if white_cols(w, h, st, sp, id, xx + 1, yy, p) && !(p == idx && on) {
                    let c = choose|c: int|
                        c < xx + 1 && is_white(w, h, id, c, yy) && p == #[trigger] luma_index(
                            st,
                            sp,
                            c,
                            yy,
                        );
                    assert(c < xx);
                    assert(white_cols(w, h, st, sp, id, xx, yy, p));
                }
                if white_cols(w, h, st, sp, id, xx, yy, p) {
                    let c = choose|c: int|
                        c < xx && is_white(w, h, id, c, yy) && p == #[trigger] luma_index(
                            st,
                            sp,
                            c,
                            yy,
                        );
                    assert(white_cols(w, h, st, sp, id, xx + 1, yy, p));
                }
            }
            i = i + 1;
        }
        assert forall|p: int| 0 <= p < len implies #[trigger] buf@[p] == (if white_rows(
            w,
            h,
            st,
            sp,
            id,
            yy + 1,
            p,
        ) {
            WHITE
        } else {
            blacked[p]
        }) by {
            assert(row[p] == row[p]);
            if white_rows(w, h, st, sp, id, yy + 1, p) && !white_rows(w, h, st, sp, id, yy, p) {
                let (c, r) = choose|c: int, r: int|
                    r < yy + 1 && is_white(w, h, id, c, r) && p == #[trigger] luma_index(
                        st,
                        sp,
                        c,
                        r,
                    );
                assert(r == yy);
                assert(white_cols(w, h, st, sp, id, gx + 48, yy, p));
            }
            if white_cols(w, h, st, sp, id, gx + 48, yy, p) {
                let c = choose|c: int|
                    c < gx + 48 && is_white(w, h, id, c, yy) && p == #[trigger] luma_index(
                        st,
                        sp,
                        c,
                        yy,
                    );
                assert(white_rows(w, h, st, sp, id, yy + 1, p));
            }
            if white_rows(w, h, st, sp, id, yy, p) {
                let (c, r) = choose|c: int, r: int|
                    r < yy && is_white(w, h, id, c, r) && p == #[trigger] luma_index(st, sp, c, r);
                assert(white_rows(w, h, st, sp, id, yy + 1, p));
            }
        }
        j = j + 1;
    }
    proof {
        let want = painted(before, w, h, st, sp, id);
        assert forall|p: int| 0 <= p < len implies #[trigger] buf@[p] == want[p] by {
            assert(blacked[p] == blacked[p]);
            assert(white_rows(w, h, st, sp, id, gy + 16, p) == white_at(w, h, st, sp, id, p)) by {
                if white_at(w, h, st, sp, id, p) {
                    let (c, r) = choose|c: int, r: int|
                        is_white(w, h, id, c, r) && p == #[trigger] luma_index(st, sp, c, r);
                    assert(r < gy + 16);
                }
            }
            assert(roi_rows(w, h, st, sp, h, p) == roi_at(w, h, st, sp, p)) by {
                if roi_at(w, h, st, sp, p) {
                    let (c, r) = choose|c: int, r: int|
                        in_roi(w, h, c, r) && p == #[trigger] luma_index(st, sp, c, r);
                    assert(w - ROI_W <= c < w && h - ROI_H <= r < h);
                }
                if roi_rows(w, h, st, sp, h, p) {
                    let (c, r) = choose|c: int, r: int|
                        w - ROI_W <= c < w && h - ROI_H <= r < h && p == #[trigger] luma_index(
                            st,
                            sp,
                            c,
                            r,
                        );
                    assert(in_roi(w, h, c, r));
                }
            }
        }
        assert(buf@ =~= want);
    }
}

spec fn roi_rows(w: int, h: int, stride: int, step: int, rows: int, p: int) -> bool {
    exists|x: int, y: int|
        w - ROI_W <= x < w && h - ROI_H <= y < rows && p == #[trigger] luma_index(stride, step, x, y)
}

spec fn roi_cols(w: int, stride: int, step: int, cols: int, y: int, p: int) -> bool {
    exists|x: int| w - ROI_W <= x < cols && p == #[trigger] luma_index(stride, step, x, y)
}

spec fn white_rows(w: int, h: int, stride: int, step: int, id: u8, rows: int, p: int) -> bool {
    exists|x: int, y: int|
        y < rows && is_white(w, h, id, x, y) && p == #[trigger] luma_index(stride, step, x, y)
}

spec fn white_cols(
    w: int,
    h: int,
    stride: int,
    step: int,
    id: u8,
    cols: int,
    y: int,
    p: int,
) -> bool {
    exists|x: int|
        x < cols && is_white(w, h, id, x, y) && p == #[trigger] luma_index(stride, step, x, y)
}

/// Burns the `frame_id` marker into a packed luma plane
/// (`y_plane[y * stride + x]`).
pub fn encode_marker(
    y_plane: &mut [u8],
    stride: usize,
    frame_w: usize,
    frame_h: usize,
    frame_id: u64,
)
    requires
        frame_w >= ROI_W && frame_h >= ROI_H ==> (frame_h - 1) * stride + (frame_w - 1) < old(
            y_plane,
        )@.len(),
    ensures
        final(y_plane)@ == painted(
            old(y_plane)@,
            frame_w as int,
            frame_h as int,
            stride as int,
            1,
            id_byte(frame_id),
        ),
{
    let len: usize = y_plane.len();
    assert(len == y_plane@.len());
    paint_marker(y_plane, stride, 1, frame_w, frame_h, frame_id);
}

/// Burns the `frame_id` marker into a YUYV buffer in place (luma is every even
/// byte, a row is `frame_w * 2` bytes). Samples beyond the end of a short
/// buffer are left out.
pub fn encode_marker_yuyv(yuyv: &mut [u8], frame_w: usize, frame_h: usize, frame_id: u64)
    requires
        frame_w >= ROI_W && frame_h >= ROI_H ==> frame_w * frame_h * 2 <= usize::MAX,
    ensures
        final(yuyv)@ == painted(
            old(yuyv)@,
            frame_w as int,
            frame_h as int,
            frame_w as int,
            2,
            id_byte(frame_id),
        ),
{
    proof {
        let w = frame_w as int;
        let h = frame_h as int;
        assert((h - 1) * w + (w - 1) <= w * h) by (nonlinear_arith)
            requires
                w >= 0,
                h >= 0,
        ;
    }
    paint_marker(yuyv, frame_w, 2, frame_w, frame_h, frame_id);
}

// ── Reading back ──────────────────────────────────────────────────────────────

/// Pixel at the fraction `n / d` of a side, in single precision; never past the
/// last one.
pub open spec fn pixel_at(n: int, d: int, side: int) -> int {
    let p = single(quotient(n * 0x4000_0000, d) * single(side)) / 0x4000_0000;
    if p < side {
        p
    } else {
        side - 1
    }
}

/// Start of the RGBA pixel in which the centre of cell `c` lies.
pub open spec fn centre_index(w: int, h: int, c: int) -> int {
    let px = pixel_at(2 * (c % 12) + 1, 24, w);
    let py = pixel_at(2 * (c / 12) + 1, 8, h);
    (py * w + px) * 4
}

/// Rec. 601 luma of the RGBA pixel that starts at `i`.
pub open spec fn pixel_luma(rgba: Seq<u8>, i: int) -> int {
    (rgba[i] * 299 + rgba[i + 1] * 587 + rgba[i + 2] * 114) / 1000
}

/// The cells that an RGBA picture of the data grid shows: white where the
/// pixel at the cell centre is brighter than the middle of the two levels.
pub open spec fn sampled_cells(rgba: Seq<u8>, w: int, h: int) -> Seq<bool> {
    Seq::new(
        N_CELLS as nat,
        |c: int| pixel_luma(rgba, centre_index(w, h, c)) > (BLACK + WHITE) / 2,
    )
}

/// What a picture of the data grid decodes to.
pub open spec fn decoded(rgba: Seq<u8>, w: int, h: int) -> Option<u64> {
    if w < COLS || h < ROWS || rgba.len() < w * h * 4 {
        None
    } else {
        decoded_cells(sampled_cells(rgba, w, h))
    }
}

/// The pixel at a fraction of a side.
fn fraction_of(n: u32, d: u32, side: usize) -> (r: usize)
    requires
        n < d <= 24,
        side >= 1,
    ensures
        r == pixel_at(n as int, d as int, side as int),
        r < side,
{
    proof {
        lemma_quotient(n * 0x4000_0000, d as int);
        lemma_fundamental_div_mod(n * 0x4000_0000, d as int);
        let (m, e) = (n * 0x4000_0000, d as int);
        let q = m / e;
        assert(q <= m) by (nonlinear_arith)
            requires
                m == e * q + m % e,
                m % e >= 0,
                e >= 1,
                q >= 0,
        ;
        lemma_single(side as int);
        let f = quotient(m, e);
        let w = single(side as int);
        assert(0 <= f * w <= 0x10_0000_0000 * 0x2_0000_0000_0000_0000) by (nonlinear_arith)
            requires
                0 <= f <= 0x10_0000_0000,
                0 <= w <= 0x2_0000_0000_0000_0000,
        ;
        lemma_single(f * w);
    }
    let f: i128 = divide(n as u128 * 0x4000_0000, d as u128) as i128;
    let p: i128 = round(f * round(side as i128)) / 0x4000_0000;
    if p < side as i128 {
        p as usize
    } else {
        side - 1
    }
}

/// At two pixels to each unit of the fraction, the pixel is the exact one or the one
/// before it.
proof fn lemma_pixel_at(n: int, d: int)
    requires
        1 <= n < d <= 24,
    ensures
        2 * n - 1 <= pixel_at(n, d, 2 * d) <= 2 * n,
{
    let m = n * 0x4000_0000;
    lemma_quotient(m, d);
    lemma_fundamental_div_mod(m, d);
    let q = m / d;
    assert(q <= 0x4000_0000) by (nonlinear_arith)
        requires
            m == d * q + m % d,
            m % d >= 0,
            m <= d * 0x4000_0000,
            d >= 1,
    ;
    lemma_spacing(q as nat);
    let u = spacing(q as nat) as int;
    let f = quotient(m, d);
    assert(-64 * d <= d * f - m <= 64 * d) by (nonlinear_arith)
        requires
            -d * u <= 2 * (d * f - m) <= d * u,
            u <= 128,
            d >= 1,
    ;
    lemma_single(2 * d);
    let p = f * (2 * d);
    assert(p == 2 * (d * f)) by (nonlinear_arith)
        requires
            p == f * (2 * d),
    ;
    lemma_quotient(p, 1);
    lemma_spacing(p as nat);
    let t = spacing(p as nat) as int;
    assert(-1 * t == -t && 1 * t == t);
    let v = single(p);
    assert(-0x1_0000 <= v - 2 * m <= 0x1_0000);
}

/// In the picture of the data grid, the pixel sampled for a cell is one of the four by
/// four that the cell spans.
proof fn lemma_centre_in_cell(c: int) -> (p: (int, int))
    requires
        0 <= c < N_CELLS,
    ensures
        0 <= p.0 < MARKER_W,
        0 <= p.1 < MARKER_H,
        (p.1 / 4) * 12 + p.0 / 4 == c,
        centre_index(48, 16, c) == (p.1 * 48 + p.0) * 4,
{
    let (col, row) = (c % 12, c / 12);
    lemma_pixel_at(2 * col + 1, 24);
    lemma_pixel_at(2 * row + 1, 8);
    (pixel_at(2 * col + 1, 24, 48), pixel_at(2 * row + 1, 8, 16))
}

proof fn lemma_centre_in_range(w: int, h: int, px: int, py: int)
    requires
        0 <= px < w,
        0 <= py < h,
    ensures
        0 <= py * w,
        0 <= (py * w + px) * 4,
        (py * w + px) * 4 + 4 <= w * h * 4,
{
    assert(0 <= py * w && py * w + w <= w * h) by (nonlinear_arith)
        requires
            0 <= py < h,
            w >= 1,
    ;
}

/// Decodes the 8-bit frame id from an RGBA buffer that spans exactly the data
/// grid, at any size of at least one pixel per cell: cell centres are sampled
/// proportionally, so display-scaled crops work too.
pub fn decode_marker(rgba: &[u8], rgba_w: usize, rgba_h: usize) -> (r: Option<u64>)
    ensures
        r == decoded(rgba@, rgba_w as int, rgba_h as int),
{
    if rgba_w < COLS || rgba_h < ROWS {
        return None;
    }
    let len: usize = rgba.len();
    proof {
        let (w, h) = (rgba_w as int, rgba_h as int);
        assert(0 <= w * h <= u64::MAX * u64::MAX) by (nonlinear_arith)
            requires
                0 <= w <= u64::MAX,
                0 <= h <= u64::MAX,
        ;
    }
    let need: u128 = (rgba_w as u128) * (rgba_h as u128);
    if (len as u128) / 4 < need {
        return None;
    }
    let mut cells: [bool; N_CELLS] = [false; N_CELLS];
    let mut c: usize = 0;
    while c < N_CELLS
        invariant
            c <= N_CELLS,
            rgba_w >= COLS,
            rgba_h >= ROWS,
            rgba_w * rgba_h * 4 <= rgba@.len() <= usize::MAX,
            rgba@.len() == len,
            forall|k: int|
                0 <= k < c ==> cells@[k] == sampled_cells(
                    rgba@,
                    rgba_w as int,
                    rgba_h as int,
                )[k],
        decreases N_CELLS - c,
    {
        let px: usize = fraction_of((2 * (c % COLS) + 1) as u32, 24, rgba_w);
        let py: usize = fraction_of((2 * (c / COLS) + 1) as u32, 8, rgba_h);
        proof {
            lemma_centre_in_range(rgba_w as int, rgba_h as int, px as int, py as int);
        }
        let i: usize = (py * rgba_w + px) * 4;
        assert(i == centre_index(rgba_w as int, rgba_h as int, c as int));
        let luma: u32 = (rgba[i] as u32 * 299 + rgba[i + 1] as u32 * 587 + rgba[i + 2] as u32 * 114)
            / 1000;
        cells[c] = luma > (BLACK as u32 + WHITE as u32) / 2;
        c = c + 1;
    }
    assert(cells@ =~= sampled_cells(rgba@, rgba_w as int, rgba_h as int));
    cells_to_id(&cells)
}

proof fn lemma_index_injective(stride: int, x1: int, y1: int, x2: int, y2: int)
    requires
        0 <= x1 < stride,
        0 <= x2 < stride,
        y1 * stride + x1 == y2 * stride + x2,
    ensures
        x1 == x2,
        y1 == y2,
{
    lemma_fundamental_div_mod_converse(y1 * stride + x1, stride, y1, x1);
    lemma_fundamental_div_mod_converse(y2 * stride + x2, stride, y2, x2);
}

/// Where the rows of a plane do not overlap, painting sets each pixel of the
/// reserved rectangle by its cell alone and leaves every other pixel as it was.
pub proof fn law_painted_pixel(
    buf: Seq<u8>,
    frame_w: int,
    frame_h: int,
    stride: int,
    step: int,
    id: u8,
    x: int,
    y: int,
)
    requires
        frame_w >= ROI_W,
        frame_h >= ROI_H,
        stride >= frame_w,
        step >= 1,
        0 <= x < frame_w,
        0 <= y < frame_h,
        luma_index(stride, step, x, y) < buf.len(),
    ensures
        painted(buf, frame_w, frame_h, stride, step, id)[luma_index(stride, step, x, y)] == (
        if is_white(frame_w, frame_h, id, x, y) {
            WHITE
        } else if in_roi(frame_w, frame_h, x, y) {
            BLACK
        } else {
            buf[luma_index(stride, step, x, y)]
        }),
{
    let p = luma_index(stride, step, x, y);
    lemma_index_bound(stride, step, x, y, x, y);
    if white_at(frame_w, frame_h, stride, step, id, p) {
        let (a, b) = choose|a: int, b: int|
            is_white(frame_w, frame_h, id, a, b) && p == #[trigger] luma_index(stride, step, a, b);
        assert(y * stride + x == b * stride + a) by (nonlinear_arith)
            requires
                (y * stride + x) * step == (b * stride + a) * step,
                step >= 1,
        ;
        lemma_index_injective(stride, x, y, a, b);
    }
    if roi_at(frame_w, frame_h, stride, step, p) {
        let (a, b) = choose|a: int, b: int|
            in_roi(frame_w, frame_h, a, b) && p == #[trigger] luma_index(stride, step, a, b);
        assert(y * stride + x == b * stride + a) by (nonlinear_arith)
            requires
                (y * stride + x) * step == (b * stride + a) * step,
                step >= 1,
        ;
        lemma_index_injective(stride, x, y, a, b);
    }
}

/// An RGBA picture shows the data grid of a luma plane: pixel `(c, r)` of the
/// picture is grey with the luma of the plane there.
pub open spec fn shows_grid(
    rgba: Seq<u8>,
    plane: Seq<u8>,
    frame_w: int,
    frame_h: int,
    stride: int,
    step: int,
) -> bool {
    &&& rgba.len() >= MARKER_W * MARKER_H * 4
    &&& forall|r: int, c: int|
        #![trigger luma_index(stride, step, frame_w - 56 + c, frame_h - 24 + r)]
        0 <= r < MARKER_H && 0 <= c < MARKER_W ==> {
            let v = plane[luma_index(stride, step, frame_w - 56 + c, frame_h - 24 + r)];
            let o = (r * 48 + c) * 4;
            rgba[o] == v && rgba[o + 1] == v && rgba[o + 2] == v
        }
}

/// Reading back gives what was written: the picture of the data grid of a
/// painted plane decodes to the low 8 bits of the frame id, for every id, frame
/// size and row stride that hold the marker.
pub proof fn law_marker_roundtrip(
    buf: Seq<u8>,
    frame_w: int,
    frame_h: int,
    stride: int,
    step: int,
    frame_id: u64,
    rgba: Seq<u8>,
)
    requires
        frame_w >= ROI_W,
        frame_h >= ROI_H,
        stride >= frame_w,
        step >= 1,
        luma_index(stride, step, frame_w - 1, frame_h - 1) < buf.len(),
        shows_grid(
            rgba,
            painted(buf, frame_w, frame_h, stride, step, id_byte(frame_id)),
            frame_w,
            frame_h,
            stride,
            step,
        ),
    ensures
        decoded(rgba, MARKER_W as int, MARKER_H as int) == Some((frame_id % 256) as u64),
{
    let id = id_byte(frame_id);
    let plane = painted(buf, frame_w, frame_h, stride, step, id);
    let cells = sampled_cells(rgba, 48, 16);
    assert forall|c: int| 0 <= c < N_CELLS implies cells[c] == marker_bits(id)[c] by {
        let (px, py) = lemma_centre_in_cell(c);
        let x = frame_w - 56 + px;
        let y = frame_h - 24 + py;
        lemma_index_bound(stride, step, x, y, frame_w - 1, frame_h - 1);
        law_painted_pixel(buf, frame_w, frame_h, stride, step, id, x, y);
        let v = plane[luma_index(stride, step, frame_w - 56 + px, frame_h - 24 + py)];
        assert(rgba[(py * 48 + px) * 4] == v);
    }
    assert(cells =~= marker_bits(id));
    law_cells_roundtrip(id);
}

/// The checksum is the remainder of polynomial division by x^8 + x^2 + x + 1: it is linear
/// over exclusive or, that of one is 7, and doubling a byte doubles it, less the polynomial
/// where it overflows.
pub proof fn law_checksum_is_a_remainder(a: u8, b: u8)
    ensures
        crc8_of(a ^ b) == crc8_of(a) ^ crc8_of(b),
        crc8_of(1) == 7,
        a < 128 ==> crc8_of((2 * a) as u8) == (if crc8_of(a) < 128 {
            (2 * crc8_of(a)) as u8
        } else {
            ((2 * crc8_of(a) - 256) as u8) ^ 7u8
        }),
{
    assert(crc8_of(a ^ b) == crc8_of(a) ^ crc8_of(b)) by (bit_vector);
    assert(crc8_of(1) == 7) by (bit_vector);
    let d: u8 = crc8_of(a);
    assert(a < 128 ==> crc8_of((2 * a) as u8) == (if crc8_of(a) < 128 {
        (2 * crc8_of(a)) as u8
    } else {
        ((2 * crc8_of(a) - 256) as u8) ^ 7u8
    })) by (bit_vector);
}

/// The number that cells from `start` on spell, most significant first.
pub open spec fn cells_value(cells: Seq<bool>, start: int, n: nat) -> int
    decreases n,
{
    if n == 0 {
        0
    } else {
        2 * cells_value(cells, start, (n - 1) as nat) + if cells[start + n - 1] {
            1int
        } else {
            0
        }
    }
}

/// A marker spells the sync word 0xA5C, then the id and then its checksum; the cells after
/// that are black.
pub proof fn law_marker_spells_id_and_checksum(id: u8)
    ensures
        ({
            let cells = marker_bits(id);
            &&& cells.len() == 48
            &&& cells_value(cells, 0, 12) == 0xA5C
            &&& cells_value(cells, 12, 8) == id
            &&& cells_value(cells, 20, 8) == crc8_of(id)
            &&& forall|c: int| 28 <= c < 48 ==> !#[trigger] cells[c]
        }),
{
    let cells = marker_bits(id);
    reveal_with_fuel(cells_value, 13);
    lemma_byte_value(id);
    lemma_byte_value(crc8_of(id));
    lemma_sync_bits();
}

proof fn lemma_sync_bits()
    ensures
        sync_bit(0) && !sync_bit(1) && sync_bit(2) && !sync_bit(3) && !sync_bit(4) && sync_bit(5)
            && !sync_bit(6) && sync_bit(7) && sync_bit(8) && sync_bit(9) && !sync_bit(10) && !sync_bit(
            11,
        ),
{
    let s: u16 = SYNC;
    assert((s >> 11u16) & 1u16 != 0 && (s >> 10u16) & 1u16 == 0 && (s >> 9u16) & 1u16 != 0 && (s
        >> 8u16) & 1u16 == 0 && (s >> 7u16) & 1u16 == 0 && (s >> 6u16) & 1u16 != 0 && (s >> 5u16)
        & 1u16 == 0 && (s >> 4u16) & 1u16 != 0 && (s >> 3u16) & 1u16 != 0 && (s >> 2u16) & 1u16 != 0
        && (s >> 1u16) & 1u16 == 0 && (s >> 0u16) & 1u16 == 0) by (bit_vector)
        requires
            s == 0xA5Cu16,
    ;
}

proof fn lemma_byte_value(b: u8)
    ensures
        ({
            let v = |k: int|
                if byte_bit(b, k) {
                    1int
                } else {
                    0
                };
            b == 128 * v(0) + 64 * v(1) + 32 * v(2) + 16 * v(3) + 8 * v(4) + 4 * v(5) + 2 * v(6) + v(7)
        }),
{
    assert(b == ((b >> 7u8) & 1u8) * 128 + ((b >> 6u8) & 1u8) * 64 + ((b >> 5u8) & 1u8) * 32 + ((b
        >> 4u8) & 1u8) * 16 + ((b >> 3u8) & 1u8) * 8 + ((b >> 2u8) & 1u8) * 4 + ((b >> 1u8) & 1u8)
        * 2 + ((b >> 0u8) & 1u8)) by (bit_vector);
    assert(forall|s: u8| #[trigger] (b >> s) & 1u8 == 0 || (b >> s) & 1u8 == 1) by (bit_vector);
}

/// What decodes to an id carries it: the sync word, the id and its checksum. The spare
/// cells do not matter.
pub proof fn law_what_decodes_is_a_marker(cells: Seq<bool>, id: u64)
    requires
        cells.len() == 48,
        decoded_cells(cells) == Some(id),
    ensures
        id < 256,
        cells.take(28) == marker_bits(id as u8).take(28),
{
    lemma_cells_to_byte(cells, 12);
    lemma_cells_to_byte(cells, 20);
    assert forall|c: int| 0 <= c < 28 implies cells[c] == #[trigger] marker_bits(id as u8)[c] by {
        if c < 12 {
            assert(cells[c] == sync_bit(c));
        } else if c < 20 {
            assert(cells[12 + (c - 12)] == byte_bit(byte_of_cells(cells, 12), c - 12));
        } else {
            assert(cells[20 + (c - 20)] == byte_bit(byte_of_cells(cells, 20), c - 20));
        }
    }
    assert(cells.take(28) =~= marker_bits(id as u8).take(28));
}

proof fn lemma_cells_to_byte(cells: Seq<bool>, start: int)
    requires
        0 <= start,
        start + 8 <= cells.len(),
    ensures
        forall|k: int|
            0 <= k < 8 ==> #[trigger] byte_bit(byte_of_cells(cells, start), k) == cells[start + k],
{
    let b: u8 = byte_of_cells(cells, start);
    let b0: u8 = bit_value(cells[start]);
    let b1: u8 = bit_value(cells[start + 1]);
    let b2: u8 = bit_value(cells[start + 2]);
    let b3: u8 = bit_value(cells[start + 3]);
    let b4: u8 = bit_value(cells[start + 4]);
    let b5: u8 = bit_value(cells[start + 5]);
    let b6: u8 = bit_value(cells[start + 6]);
    let b7: u8 = bit_value(cells[start + 7]);
    assert((b >> 7u8) & 1u8 == b0 && (b >> 6u8) & 1u8 == b1 && (b >> 5u8) & 1u8 == b2 && (b >> 4u8)
        & 1u8 == b3 && (b >> 3u8) & 1u8 == b4 && (b >> 2u8) & 1u8 == b5 && (b >> 1u8) & 1u8 == b6
        && (b >> 0u8) & 1u8 == b7) by (bit_vector)
        requires
            b == ((b0 << 7u8) | (b1 << 6u8) | (b2 << 5u8) | (b3 << 4u8) | (b4 << 3u8) | (b5 << 2u8)
                | (b6 << 1u8) | b7),
            b0 <= 1,
            b1 <= 1,
            b2 <= 1,
            b3 <= 1,
            b4 <= 1,
            b5 <= 1,
            b6 <= 1,
            b7 <= 1,
    ;
    assert forall|k: int| 0 <= k < 8 implies #[trigger] byte_bit(b, k) == cells[start + k] by {
        assert(k == 0 || k == 1 || k == 2 || k == 3 || k == 4 || k == 5 || k == 6 || k == 7);
    }
}

/// Where the marker stands: in the bottom right 64 by 32 pixels, whose background is
/// black; the grid of 12 by 4 cells, each 4 by 4 pixels, starts 56 pixels from the right
/// and 24 from the bottom, first row first, and a cell that is set is white. Nothing else
/// of the picture changes.
pub proof fn law_marker_geometry(
    buf: Seq<u8>,
    frame_w: int,
    frame_h: int,
    stride: int,
    step: int,
    id: u8,
    x: int,
    y: int,
)
    requires
        64 <= frame_w <= stride,
        32 <= frame_h,
        step >= 1,
        0 <= x < frame_w,
        0 <= y < frame_h,
        (y * stride + x) * step < buf.len(),
    ensures
        ({
            let p = painted(buf, frame_w, frame_h, stride, step, id)[(y * stride + x) * step];
            let (gx, gy) = (x - frame_w + 56, y - frame_h + 24);
            &&& 0 <= gx < 48 && 0 <= gy < 16 && marker_bits(id)[12 * (gy / 4) + gx / 4] ==> p == 235
            &&& 0 <= gx < 48 && 0 <= gy < 16 && !marker_bits(id)[12 * (gy / 4) + gx / 4] ==> p == 16
            &&& gx >= -8 && gy >= -8 && !(0 <= gx < 48 && 0 <= gy < 16) ==> p == 16
            &&& gx < -8 || gy < -8 ==> p == buf[(y * stride + x) * step]
        }),
{
    law_painted_pixel(buf, frame_w, frame_h, stride, step, id, x, y);
    assert(luma_index(stride, step, x, y) == (y * stride + x) * step);
}

/// A cell is read as white where the pixel at its centre is brighter than the middle, 125:
/// by its luma, of which red makes 299 parts in a thousand, green 587 and blue 114, rounded
/// down. So a grey pixel counts by its own level.
pub proof fn law_cells_are_read_by_luma(rgba: Seq<u8>, w: int, h: int, c: int)
    requires
        0 <= c < 48,
    ensures
        ({
            let i = centre_index(w, h, c);
            let sum = 299 * rgba[i] + 587 * rgba[i + 1] + 114 * rgba[i + 2];
            &&& 1000 * pixel_luma(rgba, i) <= sum < 1000 * pixel_luma(rgba, i) + 1000
            &&& rgba[i] == rgba[i + 1] == rgba[i + 2] ==> pixel_luma(rgba, i) == rgba[i]
            &&& sampled_cells(rgba, w, h)[c] <==> sum >= 126_000
        }),
        sampled_cells(rgba, w, h).len() == 48,
{
}

/// A picture narrower than twelve pixels, lower than four, or without four bytes for each of
/// its pixels decodes to nothing.
pub proof fn law_small_pictures_hold_no_marker(rgba: Seq<u8>, w: int, h: int)
    requires
        w >= 0,
        h >= 0,
    ensures
        w < 12 ==> decoded(rgba, w, h) is None,
        h < 4 ==> decoded(rgba, w, h) is None,
        rgba.len() < w * h * 4 ==> decoded(rgba, w, h) is None,
        w >= 12 && h >= 4 && rgba.len() >= w * h * 4 ==> decoded(rgba, w, h) == decoded_cells(
            sampled_cells(rgba, w, h),
        ),
{
}

} // verus!
