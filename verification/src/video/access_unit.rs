//! Splitting an H.264 Annex B byte stream into access units.
//!
//! Each access unit starts at an access unit delimiter (NAL type 9), which the
//! encoder is asked to insert. Bytes before the first delimiter are part of the
//! first access unit.
use vstd::prelude::*;

verus! {

/// Length of the start code of a delimiter at `i`: 4 for `00 00 00 01`, 3 for
/// `00 00 01`, each followed by a NAL byte of type 9; 0 where none starts.
pub open spec fn aud_at(buf: Seq<u8>, i: int) -> int {
    if 0 <= i && i + 5 <= buf.len() && buf[i] == 0 && buf[i + 1] == 0 && buf[i + 2] == 0 && buf[i + 3]
        == 1 {
        if buf[i + 4] & 0x1f == 9 {
            4
        } else {
            0
        }
    } else if 0 <= i && i + 4 <= buf.len() && buf[i] == 0 && buf[i + 1] == 0 && buf[i + 2] == 1 && buf[i
        + 3] & 0x1f == 9 {
        3
    } else {
        0
    }
}

/// Positions of the delimiters from `i` on.
pub open spec fn auds(buf: Seq<u8>, i: int) -> Seq<int>
    decreases buf.len() - i,
{
    if i + 4 > buf.len() {
        Seq::empty()
    } else if aud_at(buf, i) > 0 {
        seq![i] + auds(buf, i + aud_at(buf, i) + 1)
    } else {
        auds(buf, i + 1)
    }
}

/// Complete access units in a buffer: one ends where the next delimiter starts,
/// so the last delimiter ends none of its own.
pub open spec fn units(buf: Seq<u8>) -> Seq<Seq<u8>> {
    let p = auds(buf, 0);
    Seq::new(
        if p.len() == 0 {
            0
        } else {
            (p.len() - 1) as nat
        },
        |k: int|
            buf.subrange(
                if k == 0 {
                    0
                } else {
                    p[k]
                },
                p[k + 1],
            ),
    )
}

/// Where the part of a buffer starts that is not a complete unit yet.
pub open spec fn rest_start(buf: Seq<u8>) -> int {
    let p = auds(buf, 0);
    if p.len() <= 1 {
        0
    } else {
        p.last()
    }
}

/// What a buffer keeps after its complete units are taken out.
pub open spec fn rest(buf: Seq<u8>) -> Seq<u8> {
    buf.subrange(rest_start(buf), buf.len() as int)
}

proof fn lemma_auds_ordered(buf: Seq<u8>, i: int)
    requires
        0 <= i,
    ensures
        forall|k: int|
            0 <= k < auds(buf, i).len() ==> i <= #[trigger] auds(buf, i)[k] && auds(buf, i)[k] + 4
                <= buf.len(),
        forall|k: int, l: int|
            0 <= k < l < auds(buf, i).len() ==> #[trigger] auds(buf, i)[k] < #[trigger] auds(
                buf,
                i,
            )[l],
    decreases buf.len() - i,
{
    if i + 4 <= buf.len() {
        if aud_at(buf, i) > 0 {
            let next = i + aud_at(buf, i) + 1;
            lemma_auds_ordered(buf, next);
            let tail = auds(buf, next);
            let all = auds(buf, i);
            assert(all =~= seq![i] + tail);
            assert forall|k: int| 0 <= k < all.len() implies i <= #[trigger] all[k] && all[k] + 4
                <= buf.len() by {
                if k > 0 {
                    assert(all[k] == tail[k - 1]);
                }
            }
            assert forall|k: int, l: int| 0 <= k < l < all.len() implies #[trigger] all[k]
                < #[trigger] all[l] by {
                assert(all[l] == tail[l - 1]);
                if k > 0 {
                    assert(all[k] == tail[k - 1]);
                }
            }
        } else {
            lemma_auds_ordered(buf, i + 1);
        }
    }
}

/// Copies `buf[from..to]`.
fn slice_of(buf: &Vec<u8>, from: usize, to: usize) -> (r: Vec<u8>)
    requires
        from <= to <= buf@.len(),
    ensures
        r@ == buf@.subrange(from as int, to as int),
{
    let mut out: Vec<u8> = Vec::new();
    let mut i: usize = from;
    while i < to
        invariant
            from <= i <= to <= buf@.len(),
            out@ == buf@.subrange(from as int, i as int),
        decreases to - i,
    {
        out.push(buf[i]);
        i = i + 1;
        assert(buf@.subrange(from as int, i as int) =~= buf@.subrange(from as int, i - 1).push(
            buf@[i - 1],
        ));
    }
    out
}

fn start_code(buf: &Vec<u8>, i: usize) -> (r: usize)
    requires
        i + 4 <= buf@.len(),
    ensures
        r == aud_at(buf@, i as int),
        r <= 4,
{
    let len: usize = buf.len();
    if buf[i] != 0 || buf[i + 1] != 0 {
        return 0;
    }
    if len - i >= 5 && buf[i + 2] == 0 && buf[i + 3] == 1 {
        if buf[i + 4] & 0x1f == 9 {
            4
        } else {
            0
        }
    } else if buf[i + 2] == 1 && buf[i + 3] & 0x1f == 9 {
        3
    } else {
        0
    }
}

/// Views of byte vectors.
pub open spec fn views(v: Seq<Vec<u8>>) -> Seq<Seq<u8>> {
    Seq::new(v.len(), |i: int| v[i]@)
}

/// Splits an H.264 Annex B byte stream into access units.
#[derive(Debug)]
pub struct AccessUnitSplitter {
    pub pending: Vec<u8>,
}

impl AccessUnitSplitter {
    pub fn new() -> (r: Self)
        ensures
            r.pending@ == Seq::<u8>::empty(),
    {
        AccessUnitSplitter { pending: Vec::new() }
    }

    /// Takes in the next bytes of the stream and returns the access units that
    /// they complete, in order. What is not complete stays for the next call.
    pub fn feed(&mut self, chunk: &[u8]) -> (r: Vec<Vec<u8>>)
        ensures
            views(r@) == units(old(self).pending@ + chunk@),
            final(self).pending@ == rest(old(self).pending@ + chunk@),
    {
        let ghost head = self.pending@;
        let mut n: usize = 0;
        while n < chunk.len()
            invariant
                n <= chunk@.len(),
                self.pending@ == head + chunk@.take(n as int),
            decreases chunk@.len() - n,
        {
            self.pending.push(chunk[n]);
            n = n + 1;
            assert(chunk@.take(n as int) =~= chunk@.take(n - 1).push(chunk@[n - 1]));
        }
        assert(chunk@.take(n as int) =~= chunk@);
        let ghost buf = self.pending@;
        let ghost p = auds(buf, 0);
        proof {
            lemma_auds_ordered(buf, 0);
        }
        let len: usize = self.pending.len();
        let mut out: Vec<Vec<u8>> = Vec::new();
        let mut seen: usize = 0;
        let mut last_cut: usize = 0;
        let mut i: usize = 0;
        while i < len && len - i >= 4
            invariant
                i <= len,
                seen <= i,
                len == buf.len(),
                self.pending@ == buf,
                p == auds(buf, 0),
                seen <= p.len(),
                p.skip(seen as int) == auds(buf, i as int),
                forall|k: int| 0 <= k < p.len() ==> 0 <= #[trigger] p[k] <= buf.len(),
                forall|k: int, l: int| 0 <= k < l < p.len() ==> #[trigger] p[k] < #[trigger] p[l],
                seen <= 1 ==> last_cut == 0,
                seen > 1 ==> last_cut == p[seen - 1],
                out@.len() == (if seen == 0 { 0 } else { seen - 1 }),
                forall|k: int|
                    0 <= k < out@.len() ==> (#[trigger] out@[k])@ == units(buf)[k],
            decreases len - i,
        {
            let sc: usize = start_code(&self.pending, i);
            if sc > 0 {
                proof {
                    let tail = p.skip(seen as int);
                    assert(tail =~= seq![i as int] + auds(buf, i + sc + 1));
                    assert(tail.len() > 0 && seen < p.len());
                    assert(p[seen as int] == tail[0]);
                    assert(p.skip(seen + 1) =~= tail.skip(1));
                    assert(tail.skip(1) =~= auds(buf, i + sc + 1));
                }
                if seen >= 1 {
                    let au: Vec<u8> = slice_of(&self.pending, last_cut, i);
                    assert(au@ == units(buf)[seen - 1]);
                    out.push(au);
                    last_cut = i;
                }
                seen = seen + 1;
                i = i + sc + 1;
            } else {
                i = i + 1;
            }
        }
        assert(p.skip(seen as int) =~= Seq::<int>::empty());
        assert(seen == p.len());
        assert(views(out@) =~= units(buf));
        if last_cut > 0 {
            let tail: Vec<u8> = slice_of(&self.pending, last_cut, len);
            self.pending = tail;
        }
        assert(self.pending@ =~= rest(buf));
        out
    }
}

// ── Laws ──────────────────────────────────────────────────────────────────────

/// The first `n` units one after the other.
pub open spec fn joined(u: Seq<Seq<u8>>, n: nat) -> Seq<u8>
    decreases n,
{
    if n == 0 {
        Seq::empty()
    } else {
        joined(u, (n - 1) as nat) + u[n - 1]
    }
}

proof fn lemma_joined(buf: Seq<u8>, n: nat)
    requires
        n <= units(buf).len(),
    ensures
        joined(units(buf), n) == buf.subrange(
            0,
            if n == 0 {
                0
            } else {
                auds(buf, 0)[n as int]
            },
        ),
    decreases n,
{
    lemma_auds_ordered(buf, 0);
    let p = auds(buf, 0);
    if n == 0 {
        assert(joined(units(buf), 0) =~= buf.subrange(0, 0));
    } else {
        lemma_joined(buf, (n - 1) as nat);
        assert(joined(units(buf), n) =~= buf.subrange(0, p[n as int]));
    }
}

/// No byte is lost, added or moved: the units and what stays pending are the
/// stream.
pub proof fn law_nothing_is_lost(buf: Seq<u8>)
    ensures
        joined(units(buf), units(buf).len()) + rest(buf) == buf,
{
    lemma_auds_ordered(buf, 0);
    lemma_joined(buf, units(buf).len());
    assert(joined(units(buf), units(buf).len()) + rest(buf) =~= buf);
}

/// Every unit but the first of a stream starts with a delimiter.
pub proof fn law_units_start_at_delimiters(buf: Seq<u8>, k: int)
    requires
        1 <= k < units(buf).len(),
    ensures
        aud_at(buf, auds(buf, 0)[k]) > 0,
        units(buf)[k] == buf.subrange(auds(buf, 0)[k], auds(buf, 0)[k + 1]),
{
    lemma_is_aud(buf, 0, k);
}

proof fn lemma_is_aud(buf: Seq<u8>, i: int, k: int)
    requires
        0 <= i,
        0 <= k < auds(buf, i).len(),
    ensures
        aud_at(buf, auds(buf, i)[k]) > 0,
    decreases buf.len() - i,
{
    if i + 4 <= buf.len() {
        if aud_at(buf, i) > 0 {
            let tail = auds(buf, i + aud_at(buf, i) + 1);
            assert(auds(buf, i) =~= seq![i] + tail);
            if k > 0 {
                lemma_is_aud(buf, i + aud_at(buf, i) + 1, k - 1);
            }
        } else {
            lemma_is_aud(buf, i + 1, k);
        }
    }
}

/// A delimiter seen in a buffer is seen in every continuation of it.
proof fn lemma_aud_prefix(a: Seq<u8>, b: Seq<u8>, i: int)
    requires
        0 <= i,
        aud_at(a, i) > 0,
    ensures
        aud_at(a + b, i) == aud_at(a, i),
{
}

/// The delimiters of a buffer come first among those of a continuation.
proof fn lemma_auds_prefix(a: Seq<u8>, b: Seq<u8>, i: int)
    requires
        0 <= i,
    ensures
        auds(a, i).len() <= auds(a + b, i).len(),
        forall|k: int|
            0 <= k < auds(a, i).len() ==> #[trigger] auds(a, i)[k] == auds(a + b, i)[k],
    decreases a.len() - i,
{
    let l = a + b;
    if i + 4 <= a.len() {
        let s = aud_at(a, i);
        if s > 0 {
            lemma_aud_prefix(a, b, i);
            lemma_auds_prefix(a, b, i + s + 1);
            let ta = auds(a, i + s + 1);
            let tl = auds(l, i + s + 1);
            assert(auds(a, i) =~= seq![i] + ta);
            assert(auds(l, i) =~= seq![i] + tl);
            assert forall|k: int| 0 <= k < auds(a, i).len() implies #[trigger] auds(a, i)[k]
                == auds(l, i)[k] by {
                if k > 0 {
                    assert(ta[k - 1] == tl[k - 1]);
                }
            }
        } else {
            lemma_auds_prefix(a, b, i + 1);
            if aud_at(l, i) > 0 {
                // Only a 4-byte start code that ends with the buffer can do
                // this, and then the buffer holds no delimiter behind it.
                assert(i + 5 > a.len());
                assert(auds(a, i + 1) =~= Seq::<int>::empty());
            }
        }
    }
}

/// Scanning from a delimiter finds that one and those behind it.
proof fn lemma_auds_from(buf: Seq<u8>, i: int, k: int)
    requires
        0 <= i,
        0 <= k < auds(buf, i).len(),
    ensures
        auds(buf, auds(buf, i)[k]) == auds(buf, i).skip(k),
    decreases buf.len() - i,
{
    if i + 4 <= buf.len() {
        let s = aud_at(buf, i);
        if s > 0 {
            let tail = auds(buf, i + s + 1);
            let all = auds(buf, i);
            assert(all =~= seq![i] + tail);
            if k == 0 {
                assert(all.skip(0) =~= all);
            } else {
                lemma_auds_from(buf, i + s + 1, k - 1);
                assert(all.skip(k) =~= tail.skip(k - 1));
            }
        } else {
            lemma_auds_from(buf, i + 1, k);
        }
    }
}

/// Delimiters do not depend on what stands before the place of scanning.
proof fn lemma_auds_shift(buf: Seq<u8>, c: int, i: int)
    requires
        0 <= c <= buf.len(),
        0 <= i,
    ensures
        auds(buf.skip(c), i).len() == auds(buf, i + c).len(),
        forall|k: int|
            0 <= k < auds(buf.skip(c), i).len() ==> #[trigger] auds(buf.skip(c), i)[k] + c == auds(
                buf,
                i + c,
            )[k],
    decreases buf.len() - c - i,
{
    let t = buf.skip(c);
    if i + 4 <= t.len() {
        assert(aud_at(t, i) == aud_at(buf, i + c));
        let s = aud_at(t, i);
        if s > 0 {
            lemma_auds_shift(buf, c, i + s + 1);
            let tt = auds(t, i + s + 1);
            let tb = auds(buf, i + c + s + 1);
            assert(i + s + 1 + c == i + c + s + 1);
            assert(auds(t, i) =~= seq![i] + tt);
            assert(auds(buf, i + c) =~= seq![i + c] + tb);
            assert forall|k: int| 0 <= k < auds(t, i).len() implies #[trigger] auds(t, i)[k] + c
                == auds(buf, i + c)[k] by {
                if k > 0 {
                    assert(tt[k - 1] + c == tb[k - 1]);
                }
            }
        } else {
            lemma_auds_shift(buf, c, i + 1);
            assert(i + 1 + c == i + c + 1);
        }
    }
}

/// Where a second feed finds delimiters: those of the whole stream from the
/// last one of the first feed on.
proof fn lemma_second_feed(a: Seq<u8>, b: Seq<u8>, skip: int)
    requires
        skip == (if auds(a, 0).len() <= 1 {
            0
        } else {
            auds(a, 0).len() - 1
        }),
    ensures
        0 <= rest_start(a) <= a.len(),
        auds(rest(a) + b, 0).len() == auds(a + b, 0).len() - skip,
        forall|k: int|
            0 <= k < auds(rest(a) + b, 0).len() ==> #[trigger] auds(rest(a) + b, 0)[k] + rest_start(
                a,
            ) == auds(a + b, 0)[skip + k],
{
    let l = a + b;
    let p = auds(a, 0);
    let q = auds(l, 0);
    let c = rest_start(a);
    let t = rest(a) + b;
    lemma_auds_ordered(a, 0);
    lemma_auds_prefix(a, b, 0);
    assert(t =~= l.skip(c));
    lemma_auds_shift(l, c, 0);
    assert(auds(l, c) == q.skip(skip)) by {
        if p.len() <= 1 {
            assert(q.skip(0) =~= q);
        } else {
            assert(p[p.len() - 1] == q[p.len() - 1]);
            lemma_auds_from(l, 0, p.len() - 1);
        }
    }
    assert forall|k: int| 0 <= k < auds(t, 0).len() implies #[trigger] auds(t, 0)[k] + c == q[skip
        + k] by {
        assert(auds(l.skip(c), 0)[k] + c == auds(l, 0 + c)[k]);
        assert(q.skip(skip)[k] == q[skip + k]);
    }
}

proof fn lemma_unit(buf: Seq<u8>, k: int)
    requires
        0 <= k < units(buf).len(),
    ensures
        k + 1 < auds(buf, 0).len(),
        units(buf)[k] == buf.subrange(
            if k == 0 {
                0
            } else {
                auds(buf, 0)[k]
            },
            auds(buf, 0)[k + 1],
        ),
        0 <= auds(buf, 0)[k] < auds(buf, 0)[k + 1] <= buf.len(),
{
    lemma_auds_ordered(buf, 0);
}

/// How the stream is cut into chunks does not matter: two chunks give the same
/// units, and leave the same bytes pending, as both at once.
pub proof fn law_chunking_does_not_matter(a: Seq<u8>, b: Seq<u8>)
    ensures
        units(a) + units(rest(a) + b) == units(a + b),
        rest(rest(a) + b) == rest(a + b),
{
    let l = a + b;
    let p = auds(a, 0);
    let q = auds(l, 0);
    let c = rest_start(a);
    let t = rest(a) + b;
    let r = auds(t, 0);
    let skip: int = if p.len() <= 1 {
        0
    } else {
        p.len() - 1
    };
    lemma_second_feed(a, b, skip);
    lemma_auds_prefix(a, b, 0);
    lemma_auds_ordered(a, 0);
    assert(t =~= l.skip(c));
    let whole = units(l);
    let parts = units(a) + units(t);
    assert(parts.len() == whole.len());
    assert forall|k: int| 0 <= k < whole.len() implies #[trigger] parts[k] == whole[k] by {
        let n = units(a).len() as int;
        lemma_unit(l, k);
        if k < n {
            lemma_unit(a, k);
            assert(p[k + 1] == q[k + 1]);
            assert(p[k] == q[k]);
            assert(units(a)[k] =~= whole[k]);
        } else {
            let m = k - n;
            lemma_unit(t, m);
            assert(r[m + 1] + c == q[skip + (m + 1)]);
            assert(r[m] + c == q[skip + m]);
            if m == 0 && n > 0 {
                assert(p[p.len() - 1] == q[p.len() - 1]);
                assert(c == q[k]);
            }
            assert(units(t)[m] =~= whole[k]);
        }
    }
    assert(parts =~= whole);
    assert(rest(t) =~= rest(l)) by {
        lemma_auds_ordered(t, 0);
        lemma_auds_ordered(l, 0);
        if r.len() >= 1 {
            assert(r[r.len() - 1] + c == q[skip + (r.len() - 1)]);
        }
        if p.len() > 1 {
            assert(p[p.len() - 1] == q[p.len() - 1]);
        }
    }
}

/// A delimiter is a start code, of three or four bytes, before a NAL byte whose low five
/// bits are 9.
pub proof fn law_what_a_delimiter_is(buf: Seq<u8>, i: int)
    requires
        0 <= i,
    ensures
        aud_at(buf, i) == 4 <==> i + 5 <= buf.len() && buf[i] == 0 && buf[i + 1] == 0 && buf[i + 2]
            == 0 && buf[i + 3] == 1 && buf[i + 4] % 32 == 9,
        aud_at(buf, i) == 3 <==> i + 4 <= buf.len() && buf[i] == 0 && buf[i + 1] == 0 && buf[i + 2]
            == 1 && buf[i + 3] % 32 == 9,
        aud_at(buf, i) == 4 || aud_at(buf, i) == 3 || aud_at(buf, i) == 0,
{
    assert(forall|b: u8| #[trigger] (b & 0x1f) == b % 32) by (bit_vector);
}

/// No delimiter is missed: wherever one starts, a unit ends there, or one byte before it
/// where a fourth zero leads the start code.
pub proof fn law_no_delimiter_is_missed(buf: Seq<u8>, j: int)
    requires
        0 <= j,
        aud_at(buf, j) > 0,
    ensures
        exists|k: int|
            0 <= k < auds(buf, 0).len() && (#[trigger] auds(buf, 0)[k] == j || auds(buf, 0)[k] == j
                - 1),
{
    lemma_none_missed(buf, 0, j);
}

proof fn lemma_none_missed(buf: Seq<u8>, i: int, j: int)
    requires
        0 <= i <= j,
        aud_at(buf, j) > 0,
    ensures
        exists|k: int|
            0 <= k < auds(buf, i).len() && (#[trigger] auds(buf, i)[k] == j || auds(buf, i)[k] == j
                - 1),
    decreases buf.len() - i,
{
    law_what_a_delimiter_is(buf, i);
    law_what_a_delimiter_is(buf, j);
    let all = auds(buf, i);
    let n = aud_at(buf, i);
    if n > 0 {
        let after = auds(buf, i + n + 1);
        assert(all =~= seq![i] + after);
        if j == i || j == i + 1 {
            assert(all[0] == i);
        } else {
            assert(j >= i + n + 1);
            lemma_none_missed(buf, i + n + 1, j);
            let k = choose|k: int|
                0 <= k < after.len() && (#[trigger] after[k] == j || after[k] == j - 1);
            assert(all[k + 1] == after[k]);
        }
    } else {
        lemma_none_missed(buf, i + 1, j);
    }
}

} // verus!
