//! Feeding the hardware H.264 encoder: planar conversion and pending controls.
use vstd::arithmetic::div_mod::lemma_fundamental_div_mod_converse;
use vstd::prelude::*;

verus! {

/// Raw buffers of the encoder, used in turn.
pub const NUM_OUT_BUFFERS: usize = 4;

/// A pixel format code from its four letters.
pub fn fourcc(a: u8, b: u8, c: u8, d: u8) -> (r: u32)
    ensures
        r == a + 256 * b + 65536 * c + 16777216 * d,
{
    a as u32 + 256 * b as u32 + 65536 * c as u32 + 16777216 * d as u32
}

// ── Planar conversion ─────────────────────────────────────────────────────────

/// Chroma stride of a luma stride.
pub open spec fn chroma_stride(ys: int) -> int {
    ys / 2
}

/// Bytes of the three planes.
pub open spec fn planes_len(h: int, ys: int) -> int {
    ys * h + chroma_stride(ys) * (h / 2) * 2
}

/// Byte `p` of the planar picture of YUYV data with width `w`, height `h` and
/// luma stride `ys`: the Y plane, then U and V at half width and height, taken
/// from the even rows. Padding keeps what was there.
pub open spec fn planar_byte(yuyv: Seq<u8>, before: Seq<u8>, w: int, h: int, ys: int, p: int) -> u8 {
    let cs = chroma_stride(ys);
    let u_off = ys * h;
    let v_off = u_off + cs * (h / 2);
    if p < u_off {
        let (row, col) = (p / ys, p % ys);
        if col < (w / 2) * 2 {
            yuyv[row * (w * 2) + (col / 2) * 4 + 2 * (col % 2)]
        } else {
            before[p]
        }
    } else if p < v_off {
        let (row, col) = ((p - u_off) / cs, (p - u_off) % cs);
        if col < w / 2 {
            yuyv[2 * row * (w * 2) + col * 4 + 1]
        } else {
            before[p]
        }
    } else if p < v_off + cs * (h / 2) {
        let (row, col) = ((p - v_off) / cs, (p - v_off) % cs);
        if col < w / 2 {
            yuyv[2 * row * (w * 2) + col * 4 + 3]
        } else {
            before[p]
        }
    } else {
        before[p]
    }
}

proof fn lemma_place(row: int, col: int, stride: int, rows: int)
    requires
        0 <= col < stride,
        0 <= row < rows,
    ensures
        0 <= row * stride,
        row * stride + col < stride * rows,
        (row * stride + col) / stride == row,
        (row * stride + col) % stride == col,
{
    assert(0 <= row * stride && row * stride + stride <= stride * rows) by (nonlinear_arith)
        requires
            0 <= row < rows,
            0 <= stride,
    ;
    lemma_fundamental_div_mod_converse(row * stride + col, stride, row, col);
}

/// A source index lies in the data.
proof fn lemma_source(row: int, col: int, w: int, h: int)
    requires
        0 <= row < h,
        0 <= col < w / 2,
    ensures
        0 <= row * (w * 2),
        row * (w * 2) + col * 4 + 3 < w * h * 2,
        w * 2 <= w * h * 2,
{
    assert(w * 2 <= w * h * 2) by (nonlinear_arith)
        requires
            1 <= h,
            0 <= w,
    ;
    assert(0 <= row * (w * 2) && row * (w * 2) + w * 2 <= w * h * 2) by (nonlinear_arith)
        requires
            0 <= row < h,
            0 <= w,
    ;
}

/// Fills one chroma plane that starts at `off`: sample `ch` (1 for U, 3 for V)
/// of the groups in the even rows.
fn write_chroma(dst: &mut [u8], off: usize, w: usize, h: usize, cs: usize, ch: usize, yuyv: &[u8])
    requires
        w / 2 <= cs,
        off + cs * (h / 2) <= old(dst)@.len(),
        w * h * 2 <= yuyv@.len(),
        ch == 1 || ch == 3,
    ensures
        final(dst)@.len() == old(dst)@.len(),
        forall|p: int|
            0 <= p < old(dst)@.len() ==> #[trigger] final(dst)@[p] == (if off <= p < off + cs * (h / 2)
                && (p - off) % (cs as int) < w / 2 {
                yuyv@[2 * ((p - off) / (cs as int)) * (w * 2) + ((p - off) % (cs as int)) * 4 + ch]
            } else {
                old(dst)@[p]
            }),
{
    let ghost before = dst@;
    let len: usize = dst.len();
    let src_len: usize = yuyv.len();
    let rows: usize = h / 2;
    let groups: usize = w / 2;
    let mut row: usize = 0;
    while row < rows
        invariant
            row <= rows,
            rows == h / 2,
            groups == w / 2,
            groups <= cs,
            len == before.len(),
            dst@.len() == len,
            off + cs * rows <= len,
            src_len == yuyv@.len(),
            w * h * 2 <= yuyv@.len(),
            ch == 1 || ch == 3,
            forall|p: int| off + row * cs <= p < len ==> #[trigger] dst@[p] == before[p],
            forall|p: int| 0 <= p < off ==> #[trigger] dst@[p] == before[p],
            forall|p: int|
                off <= p < off + row * cs ==> #[trigger] dst@[p] == chroma_byte(
                    yuyv@,
                    before,
                    off as int,
                    w as int,
                    cs as int,
                    ch as int,
                    p,
                ),
        decreases rows - row,
    {
        proof {
            assert(0 <= row * cs && row * cs + cs <= cs * rows) by (nonlinear_arith)
                requires
                    0 <= row < rows,
                    0 <= cs,
            ;
        }
        let mut col: usize = 0;
        while col < groups
            invariant
                col <= groups,
                row < rows,
                rows == h / 2,
                groups == w / 2,
                groups <= cs,
                len == before.len(),
                dst@.len() == len,
                0 <= row * cs,
                row * cs + cs <= cs * rows,
                off + cs * rows <= len,
                src_len == yuyv@.len(),
                w * h * 2 <= yuyv@.len(),
                ch == 1 || ch == 3,
                forall|p: int| off + row * cs + col <= p < len ==> #[trigger] dst@[p] == before[p],
                forall|p: int| 0 <= p < off ==> #[trigger] dst@[p] == before[p],
                forall|p: int|
                    off <= p < off + row * cs + col ==> #[trigger] dst@[p] == chroma_byte(
                        yuyv@,
                        before,
                        off as int,
                        w as int,
                        cs as int,
                        ch as int,
                        p,
                    ),
            decreases groups - col,
        {
            proof {
                lemma_place(row as int, col as int, cs as int, rows as int);
                lemma_source(2 * row as int, col as int, w as int, h as int);
            }
            let v: u8 = yuyv[2 * row * (w * 2) + col * 4 + ch];
            dst[off + row * cs + col] = v;
            col = col + 1;
        }
        proof {
            assert forall|p: int| off <= p < off + (row + 1) * cs implies #[trigger] dst@[p]
                == chroma_byte(
                yuyv@,
                before,
                off as int,
                w as int,
                cs as int,
                ch as int,
                p,
            ) by {
                if p >= off + row * cs + groups {
                    let c = p - off - row * cs;
                    assert((row + 1) * cs == row * cs + cs) by (nonlinear_arith);
                    lemma_place(row as int, c, cs as int, rows as int);
                }
            }
            assert((row + 1) * cs == row * cs + cs) by (nonlinear_arith);
        }
        row = row + 1;
    }
    assert(rows * cs == cs * rows) by (nonlinear_arith);
}

spec fn chroma_byte(
    yuyv: Seq<u8>,
    before: Seq<u8>,
    off: int,
    w: int,
    cs: int,
    ch: int,
    p: int,
) -> u8 {
    if (p - off) % cs < w / 2 {
        yuyv[2 * ((p - off) / cs) * (w * 2) + ((p - off) % cs) * 4 + ch]
    } else {
        before[p]
    }
}

spec fn luma_byte(yuyv: Seq<u8>, before: Seq<u8>, w: int, ys: int, p: int) -> u8 {
    let (row, col) = (p / ys, p % ys);
    if col < (w / 2) * 2 {
        yuyv[row * (w * 2) + (col / 2) * 4 + 2 * (col % 2)]
    } else {
        before[p]
    }
}

fn write_luma(dst: &mut [u8], w: usize, h: usize, ys: usize, yuyv: &[u8])
    requires
        (w / 2) * 2 <= ys,
        ys * h <= old(dst)@.len(),
        w * h * 2 <= yuyv@.len(),
    ensures
        final(dst)@.len() == old(dst)@.len(),
        forall|p: int|
            0 <= p < old(dst)@.len() ==> #[trigger] final(dst)@[p] == (if p < ys * h {
                luma_byte(yuyv@, old(dst)@, w as int, ys as int, p)
            } else {
                old(dst)@[p]
            }),
{
    let ghost before = dst@;
    let len: usize = dst.len();
    let src_len: usize = yuyv.len();
    let cols: usize = (w / 2) * 2;
    let mut row: usize = 0;
    while row < h
        invariant
            row <= h,
            cols == (w / 2) * 2,
            cols <= ys,
            len == before.len(),
            dst@.len() == len,
            ys * h <= len,
            src_len == yuyv@.len(),
            w * h * 2 <= yuyv@.len(),
            forall|p: int| row * ys <= p < len ==> #[trigger] dst@[p] == before[p],
            forall|p: int|
                0 <= p < row * ys ==> #[trigger] dst@[p] == luma_byte(
                    yuyv@,
                    before,
                    w as int,
                    ys as int,
                    p,
                ),
        decreases h - row,
    {
        proof {
            assert(0 <= row * ys && row * ys + ys <= ys * h) by (nonlinear_arith)
                requires
                    0 <= row < h,
                    0 <= ys,
            ;
        }
        let mut col: usize = 0;
        while col < cols
            invariant
                col <= cols,
                row < h,
                cols == (w / 2) * 2,
                cols <= ys,
                len == before.len(),
                dst@.len() == len,
                0 <= row * ys,
                row * ys + ys <= ys * h,
                ys * h <= len,
                src_len == yuyv@.len(),
                w * h * 2 <= yuyv@.len(),
                forall|p: int| row * ys + col <= p < len ==> #[trigger] dst@[p] == before[p],
                forall|p: int|
                    0 <= p < row * ys + col ==> #[trigger] dst@[p] == luma_byte(
                        yuyv@,
                        before,
                        w as int,
                        ys as int,
                        p,
                    ),
            decreases cols - col,
        {
            proof {
                lemma_place(row as int, col as int, ys as int, h as int);
                lemma_source(row as int, (col / 2) as int, w as int, h as int);
            }
            let v: u8 = yuyv[row * (w * 2) + (col / 2) * 4 + 2 * (col % 2)];
            dst[row * ys + col] = v;
            col = col + 1;
        }
        proof {
            assert((row + 1) * ys == row * ys + ys) by (nonlinear_arith);
            assert forall|p: int| 0 <= p < (row + 1) * ys implies #[trigger] dst@[p] == luma_byte(
                yuyv@,
                before,
                w as int,
                ys as int,
                p,
            ) by {
                if p >= row * ys + cols {
                    lemma_place(row as int, p - row * ys, ys as int, h as int);
                }
            }
        }
        row = row + 1;
    }
    assert(h * ys == ys * h) by (nonlinear_arith);
}

/// Convert packed YUYV to planar I420 in `dst`, with the luma stride `ys` that
/// the driver chose and half of it for chroma. Chroma is vertically subsampled
/// by taking even rows.
pub fn write_i420(dst: &mut [u8], width: u32, height: u32, ys: usize, yuyv: &[u8])
    requires
        width <= ys,
        planes_len(height as int, ys as int) <= old(dst)@.len(),
        width * height * 2 <= yuyv@.len(),
    ensures
        final(dst)@.len() == old(dst)@.len(),
        forall|p: int|
            0 <= p < old(dst)@.len() ==> #[trigger] final(dst)@[p] == planar_byte(
                yuyv@,
                old(dst)@,
                width as int,
                height as int,
                ys as int,
                p,
            ),
{
    let (w, h): (usize, usize) = (width as usize, height as usize);
    let len: usize = dst.len();
    let cs: usize = ys / 2;
    proof {
        let (c, r) = (cs as int, (h / 2) as int);
        assert(0 <= c * r) by (nonlinear_arith)
            requires
                0 <= c,
                0 <= r,
        ;
        let (y, hh) = (ys as int, h as int);
        assert(0 <= y * hh) by (nonlinear_arith)
            requires
                0 <= y,
                0 <= hh,
        ;
    }
    let u_off: usize = ys * h;
    let v_off: usize = u_off + cs * (h / 2);
    let ghost before = dst@;
    write_luma(dst, w, h, ys, yuyv);
    let ghost a = dst@;
    write_chroma(dst, u_off, w, h, cs, 1, yuyv);
    let ghost b = dst@;
    write_chroma(dst, v_off, w, h, cs, 3, yuyv);
    assert forall|p: int| 0 <= p < before.len() implies #[trigger] dst@[p] == planar_byte(
        yuyv@,
        before,
        width as int,
        height as int,
        ys as int,
        p,
    ) by {
        assert(b[p] == b[p]);
        assert(a[p] == a[p]);
    }
}

// ── Encoder state ─────────────────────────────────────────────────────────────

/// State of the encoder feed.
#[derive(Debug, Clone, Copy, PartialEq, Eq, Structural)]
pub struct EncoderState {
    pub width: u32,
    pub height: u32,
    /// Raw buffer to use next.
    pub next_out: usize,
    /// Bitrate that the encoder runs at.
    pub applied_bitrate: u32,
}

impl EncoderState {
    pub open spec fn wf(&self) -> bool {
        self.next_out < NUM_OUT_BUFFERS
    }

    pub fn new(width: u32, height: u32, bitrate: u32) -> (r: Self)
        ensures
            r.wf(),
            r == (EncoderState { width, height, next_out: 0, applied_bitrate: bitrate }),
    {
        EncoderState { width, height, next_out: 0, applied_bitrate: bitrate }
    }

    /// The bitrate to set where `want` is wanted, if any.
    pub open spec fn to_apply(&self, want: u32) -> Option<u32> {
        if want != self.applied_bitrate && want > 0 {
            Some(want)
        } else {
            None
        }
    }

    /// The bitrate to set before the next frame, if the wanted one is new and
    /// not zero.
    pub fn pending_bitrate(&self, want: u32) -> (r: Option<u32>)
        ensures
            r == self.to_apply(want),
    {
        if want != self.applied_bitrate && want > 0 {
            Some(want)
        } else {
            None
        }
    }

    /// The encoder accepted a bitrate.
    pub fn bitrate_applied(&mut self, bps: u32)
        requires
            old(self).wf(),
        ensures
            final(self).wf(),
            *final(self) == (EncoderState { applied_bitrate: bps, ..*old(self) }),
    {
        self.applied_bitrate = bps;
    }

    /// Takes the raw buffer for a frame of `len` bytes: the buffers go round,
    /// also past a frame that is refused because it is too small.
    pub fn begin_frame(&mut self, len: usize) -> (r: Option<usize>)
        requires
            old(self).wf(),
            old(self).width * old(self).height * 2 <= usize::MAX,
        ensures
            final(self).wf(),
            *final(self) == (EncoderState {
                next_out: ((old(self).next_out + 1) % NUM_OUT_BUFFERS as int) as usize,
                ..*old(self)
            }),
            r == (if len < old(self).width * old(self).height * 2 {
                None
            } else {
                Some(old(self).next_out)
            }),
    {
        let idx: usize = self.next_out;
        self.next_out = (self.next_out + 1) % NUM_OUT_BUFFERS;
        let (w, h): (usize, usize) = (self.width as usize, self.height as usize);
        proof {
            assert(w * h <= w * h * 2) by (nonlinear_arith)
                requires
                    0 <= w,
                    0 <= h,
            ;
        }
        if len < w * h * 2 {
            None
        } else {
            Some(idx)
        }
    }
}

/// What other threads ask of the encoder before its next frame.
#[derive(Debug, Clone, Copy, PartialEq, Eq, Structural)]
pub struct EncoderControl {
    pub desired_bitrate: u32,
    pub force_keyframe: bool,
}

impl EncoderControl {
    /// Nothing but the initial bitrate.
    pub fn new(bitrate: u32) -> (r: Self)
        ensures
            r == (EncoderControl { desired_bitrate: bitrate, force_keyframe: false }),
    {
        EncoderControl { desired_bitrate: bitrate, force_keyframe: false }
    }

    /// Asks for a bitrate (bits per second).
    pub fn set_bitrate(&mut self, bps: u32)
        ensures
            *final(self) == (EncoderControl { desired_bitrate: bps, ..*old(self) }),
    {
        self.desired_bitrate = bps;
    }

    /// Asks for a keyframe.
    pub fn request_keyframe(&mut self)
        ensures
            *final(self) == (EncoderControl { force_keyframe: true, ..*old(self) }),
    {
        self.force_keyframe = true;
    }

    /// Takes the request for a keyframe; it is then no longer there.
    pub fn take_keyframe(&mut self) -> (asked: bool)
        ensures
            asked == old(self).force_keyframe,
            *final(self) == (EncoderControl { force_keyframe: false, ..*old(self) }),
    {
        let asked: bool = self.force_keyframe;
        self.force_keyframe = false;
        asked
    }
}

/// One encoded access unit.
#[derive(Debug)]
pub struct Encoded {
    pub data: Vec<u8>,
    pub keyframe: bool,
}

/// Flag of a capture buffer that holds a keyframe.
pub const KEYFRAME_FLAG: u32 = 8;

/// The bytes of a buffer that were used.
pub open spec fn unit_in(buffer: Seq<u8>, bytes_used: u32) -> Seq<u8> {
    buffer.take(
        if bytes_used < buffer.len() {
            bytes_used as int
        } else {
            buffer.len() as int
        },
    )
}

/// The flags of a buffer mark a keyframe.
pub open spec fn marks_keyframe(flags: u32) -> bool {
    flags & KEYFRAME_FLAG != 0
}

/// The access unit in a capture buffer: the bytes that were used, as far as the
/// buffer goes.
pub fn encoded(buffer: &[u8], bytes_used: u32, flags: u32) -> (r: Encoded)
    ensures
        r.data@ == unit_in(buffer@, bytes_used),
        r.keyframe == marks_keyframe(flags),
{
    let n: usize = payload_len(bytes_used, buffer.len());
    let mut data: Vec<u8> = Vec::new();
    let mut i: usize = 0;
    while i < n
        invariant
            i <= n <= buffer@.len(),
            data@ == buffer@.take(i as int),
        decreases n - i,
    {
        data.push(buffer[i]);
        i = i + 1;
        assert(buffer@.take(i as int) =~= buffer@.take(i - 1).push(buffer@[i - 1]));
    }
    Encoded { data, keyframe: flags & KEYFRAME_FLAG != 0 }
}

/// Bytes of an access unit to copy out of a capture buffer.
pub fn payload_len(bytes_used: u32, buffer_len: usize) -> (r: usize)
    ensures
        r == (if bytes_used < buffer_len {
            bytes_used as usize
        } else {
            buffer_len
        }),
{
    if (bytes_used as u64) < buffer_len as u64 {
        bytes_used as usize
    } else {
        buffer_len
    }
}

/// Where the samples of a picture go: luma to the first plane, row by row at the stride,
/// the chroma of every even row to the two planes after it, U first, at half the stride.
/// Column `x` of row `y` has its luma at twice its number in the packed picture, and each
/// pair of columns its U and its V in the two odd bytes between.
pub proof fn law_samples_go_to_their_planes(
    yuyv: Seq<u8>,
    before: Seq<u8>,
    w: int,
    h: int,
    ys: int,
    x: int,
    y: int,
)
    requires
        2 <= w <= ys,
        0 <= x < 2 * (w / 2),
        0 <= y < h,
    ensures
        planar_byte(yuyv, before, w, h, ys, y * ys + x) == yuyv[2 * (y * w + x)],
        y % 2 == 0 && y < 2 * (h / 2) ==> {
            let c = (y / 2) * (ys / 2) + x / 2;
            let pair = 2 * (y * w + x - x % 2);
            &&& planar_byte(yuyv, before, w, h, ys, ys * h + c) == yuyv[pair + 1]
            &&& planar_byte(yuyv, before, w, h, ys, ys * h + (ys / 2) * (h / 2) + c) == yuyv[pair + 3]
        },
{
    let p = y * ys + x;
    lemma_row_and_column(x, y, ys, h);
    assert(y * (w * 2) + (x / 2) * 4 + 2 * (x % 2) == 2 * (y * w + x)) by {
        assert(y * (w * 2) == 2 * (y * w)) by (nonlinear_arith);
        assert(x == 2 * (x / 2) + x % 2);
    }
    if y % 2 == 0 && y < 2 * (h / 2) {
        let (cs, cy, cx, ch) = (ys / 2, y / 2, x / 2, h / 2);
        lemma_row_and_column(cx, cy, cs, ch);
        let c = cy * cs + cx;
        assert(0 <= c < cs * ch);
        assert(cs * ch == ch * cs) by (nonlinear_arith);
        assert(2 * cy * (w * 2) + cx * 4 == 2 * (y * w + x - x % 2)) by {
            assert(2 * cy * (w * 2) == 2 * (y * w)) by (nonlinear_arith)
                requires
                    y == 2 * cy,
            ;
            assert(x == 2 * cx + x % 2);
        }
    }
}

proof fn lemma_row_and_column(x: int, y: int, w: int, h: int)
    requires
        0 <= x < w,
        0 <= y < h,
    ensures
        0 <= y * w + x < w * h,
        (y * w + x) / w == y,
        (y * w + x) % w == x,
{
    assert(0 <= y * w && y * w + w <= w * h) by (nonlinear_arith)
        requires
            0 <= y < h,
            0 < w,
    ;
    vstd::arithmetic::div_mod::lemma_fundamental_div_mod_converse(y * w + x, w, y, x);
}

/// The planes take the luma stride for each row and, for every two rows, the chroma stride
/// twice.
pub proof fn law_size_of_the_planes(h: int, ys: int)
    requires
        h >= 0,
        ys >= 0,
    ensures
        h % 2 == 0 && ys % 2 == 0 ==> 2 * planes_len(h, ys) == 3 * (ys * h),
{
    let (a, b) = (ys / 2, h / 2);
    if h % 2 == 0 && ys % 2 == 0 {
        assert(2 * (ys * h + a * b * 2) == 3 * (ys * h)) by (nonlinear_arith)
            requires
                ys == 2 * a,
                h == 2 * b,
        ;
    }
}

/// An access unit is the beginning of its buffer, as long as was used and never longer than
/// the buffer. Bit 3 of the flags alone marks a keyframe.
pub proof fn law_unit_in_a_buffer(buffer: Seq<u8>, bytes_used: u32, flags: u32)
    ensures
        unit_in(buffer, bytes_used).is_prefix_of(buffer),
        bytes_used <= buffer.len() ==> unit_in(buffer, bytes_used).len() == bytes_used,
        bytes_used >= buffer.len() ==> unit_in(buffer, bytes_used) == buffer,
        marks_keyframe(flags) <==> (flags / 8) % 2 == 1,
{
    assert(flags & 8u32 != 0 <==> (flags / 8) % 2 == 1) by (bit_vector);
    assert(unit_in(buffer, bytes_used) =~= buffer.take(unit_in(buffer, bytes_used).len() as int));
}

/// A wanted bitrate is set once: none that is set already, and never zero.
pub proof fn law_bitrate_is_set_once(c: EncoderState, want: u32)
    ensures
        c.to_apply(c.applied_bitrate) is None,
        c.to_apply(0) is None,
        want != 0 && want != c.applied_bitrate ==> c.to_apply(want) == Some(want),
{
}

} // verus!
