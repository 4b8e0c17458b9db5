use vstd::prelude::*;
use vstd::arithmetic::div_mod::{lemma_div_denominator, lemma_div_is_ordered,
    lemma_div_pos_is_pos, lemma_fundamental_div_mod};

use crate::document::{DocView, Document, Flag, FlagView};
use crate::register::{RegView, Register};

verus! {

/// The little-endian bytes of a 64-bit word: eight base-256 digits,
/// least significant first.
pub open spec fn u64_le_bytes(x: u64) -> Seq<u8> {
    seq![
        (x % 0x100) as u8,
        ((x / 0x100) % 0x100) as u8,
        ((x / 0x10000) % 0x100) as u8,
        ((x / 0x1000000) % 0x100) as u8,
        ((x / 0x100000000) % 0x100) as u8,
        ((x / 0x10000000000) % 0x100) as u8,
        ((x / 0x1000000000000) % 0x100) as u8,
        ((x / 0x100000000000000) % 0x100) as u8,
    ]
}

/// The 64-bit word eight little-endian bytes stand for.
pub open spec fn u64_from_bytes(s: Seq<u8>) -> u64
    recommends
        s.len() == 8,
{
    ((s[0] as int) + 0x100 * (s[1] as int) + 0x10000 * (s[2] as int) + 0x1000000 * (s[3] as int)
        + 0x100000000 * (s[4] as int) + 0x10000000000 * (s[5] as int) + 0x1000000000000 * (
    s[6] as int) + 0x100000000000000 * (s[7] as int)) as u64
}

/// Reading back the little-endian bytes of a word gives the word.
pub proof fn lemma_u64_round_trip(x: u64)
    ensures
        u64_from_bytes(u64_le_bytes(x)) == x,
{
    let x0 = x as int;
    let q1 = x0 / 0x100;
    let q2 = x0 / 0x10000;
    let q3 = x0 / 0x1000000;
    let q4 = x0 / 0x100000000;
    let q5 = x0 / 0x10000000000;
    let q6 = x0 / 0x1000000000000;
    let q7 = x0 / 0x100000000000000;
    lemma_div_pos_is_pos(x0, 0x100);
    lemma_div_denominator(x0, 0x100, 0x100);
    lemma_div_denominator(x0, 0x10000, 0x100);
    lemma_div_denominator(x0, 0x1000000, 0x100);
    lemma_div_denominator(x0, 0x100000000, 0x100);
    lemma_div_denominator(x0, 0x10000000000, 0x100);
    lemma_div_denominator(x0, 0x1000000000000, 0x100);
    lemma_fundamental_div_mod(x0, 0x100);
    lemma_fundamental_div_mod(q1, 0x100);
    lemma_fundamental_div_mod(q2, 0x100);
    lemma_fundamental_div_mod(q3, 0x100);
    lemma_fundamental_div_mod(q4, 0x100);
    lemma_fundamental_div_mod(q5, 0x100);
    lemma_fundamental_div_mod(q6, 0x100);
    lemma_div_is_ordered(x0, u64::MAX as int, 0x100000000000000);
    assert(q7 < 0x100);
    lemma_div_pos_is_pos(x0, 0x100000000000000);
    assert(q7 % 0x100 == q7);
    assert(x0 == (x0 % 0x100) + 0x100 * (q1 % 0x100) + 0x10000 * (q2 % 0x100) + 0x1000000 * (q3
        % 0x100) + 0x100000000 * (q4 % 0x100) + 0x10000000000 * (q5 % 0x100) + 0x1000000000000 * (
    q6 % 0x100) + 0x100000000000000 * (q7 % 0x100));
}

/// The little-endian bytes of a 128-bit word: the low 64-bit half, then
/// the high one.
pub open spec fn u128_le_bytes(x: u128) -> Seq<u8> {
    u64_le_bytes((x % 0x10000000000000000) as u64) + u64_le_bytes(
        (x / 0x10000000000000000) as u64)
}

/// The 128-bit word sixteen little-endian bytes stand for.
pub open spec fn u128_from_bytes(s: Seq<u8>) -> u128
    recommends
        s.len() == 16,
{
    ((u64_from_bytes(s.subrange(0, 8)) as int) + 0x10000000000000000 * (u64_from_bytes(
        s.subrange(8, 16)) as int)) as u128
}

/// Reading back the little-endian bytes of a 128-bit word gives the word.
pub proof fn lemma_u128_round_trip(x: u128)
    ensures
        u128_from_bytes(u128_le_bytes(x)) == x,
{
    let lo = (x % 0x10000000000000000) as u64;
    let hi = (x / 0x10000000000000000) as u64;
    lemma_div_pos_is_pos(x as int, 0x10000000000000000);
    lemma_div_is_ordered(x as int, u128::MAX as int, 0x10000000000000000);
    lemma_u64_round_trip(lo);
    lemma_u64_round_trip(hi);
    let s = u128_le_bytes(x);
    assert(s.subrange(0, 8) =~= u64_le_bytes(lo));
    assert(s.subrange(8, 16) =~= u64_le_bytes(hi));
    lemma_fundamental_div_mod(x as int, 0x10000000000000000);
}

/// Append the little-endian bytes of `x`.
pub fn push_u64(out: &mut Vec<u8>, x: u64)
    ensures
        final(out)@ == old(out)@ + u64_le_bytes(x),
{
    out.push((x % 0x100) as u8);
    out.push(((x / 0x100) % 0x100) as u8);
    out.push(((x / 0x10000) % 0x100) as u8);
    out.push(((x / 0x1000000) % 0x100) as u8);
    out.push(((x / 0x100000000) % 0x100) as u8);
    out.push(((x / 0x10000000000) % 0x100) as u8);
    out.push(((x / 0x1000000000000) % 0x100) as u8);
    out.push(((x / 0x100000000000000) % 0x100) as u8);
    assert(out@ =~= old(out)@ + u64_le_bytes(x));
}

/// Append the little-endian bytes of the 128-bit word `x`.
pub fn push_u128(out: &mut Vec<u8>, x: u128)
    ensures
        final(out)@ == old(out)@ + u128_le_bytes(x),
{
    push_u64(out, (x % 0x10000000000000000) as u64);
    proof {
        lemma_div_pos_is_pos(x as int, 0x10000000000000000);
        lemma_div_is_ordered(x as int, u128::MAX as int, 0x10000000000000000);
    }
    push_u64(out, (x / 0x10000000000000000) as u64);
    assert(out@ =~= old(out)@ + u128_le_bytes(x));
}

/// Read the 64-bit word whose little-endian bytes sit at `off`.
pub fn read_u64(b: &Vec<u8>, off: usize) -> (r: u64)
    requires
        off + 8 <= b@.len(),
    ensures
        r == u64_from_bytes(b@.subrange(off as int, off as int + 8)),
{
    let _n = b.len();
    let r = (b[off] as u64) + 0x100 * (b[off + 1] as u64) + 0x10000 * (b[off + 2] as u64)
        + 0x1000000 * (b[off + 3] as u64) + 0x100000000 * (b[off + 4] as u64) + 0x10000000000 * (
    b[off + 5] as u64) + 0x1000000000000 * (b[off + 6] as u64) + 0x100000000000000 * (b[off
        + 7] as u64);
    proof {
        let s = b@.subrange(off as int, off as int + 8);
        assert(s[0] == b@[off as int]);
        assert(s[1] == b@[off as int + 1]);
        assert(s[2] == b@[off as int + 2]);
        assert(s[3] == b@[off as int + 3]);
        assert(s[4] == b@[off as int + 4]);
        assert(s[5] == b@[off as int + 5]);
        assert(s[6] == b@[off as int + 6]);
        assert(s[7] == b@[off as int + 7]);
    }
    r
}

/// Read the 128-bit word whose little-endian bytes sit at `off`.
pub fn read_u128(b: &Vec<u8>, off: usize) -> (r: u128)
    requires
        off + 16 <= b@.len(),
    ensures
        r == u128_from_bytes(b@.subrange(off as int, off as int + 16)),
{
    let _n = b.len();
    let lo = read_u64(b, off);
    let hi = read_u64(b, off + 8);
    proof {
        let s = b@.subrange(off as int, off as int + 16);
        assert(s.subrange(0, 8) =~= b@.subrange(off as int, off as int + 8));
        assert(s.subrange(8, 16) =~= b@.subrange(off as int + 8, off as int + 16));
    }
    (lo as u128) + 0x10000000000000000 * (hi as u128)
}

/// Copy the bytes of `b` between `from` and `to`.
pub fn copy_range(b: &Vec<u8>, from: usize, to: usize) -> (r: Vec<u8>)
    requires
        from <= to <= b@.len(),
    ensures
        r@ == b@.subrange(from as int, to as int),
{
    let mut out: Vec<u8> = Vec::new();
    let mut i: usize = from;
    while i < to
        invariant
            from <= i <= to <= b@.len(),
            out@ == b@.subrange(from as int, i as int),
        decreases to - i,
    {
        out.push(b[i]);
        assert(out@ =~= b@.subrange(from as int, i as int + 1));
        i = i + 1;
    }
    out
}

/// Whether a register state can be framed on the wire: its value length
/// fits the 64-bit length field.
pub open spec fn reg_bounded(r: RegView) -> bool {
    r.value.len() <= u64::MAX
}

/// Whether every register of a document state can be framed on the wire.
pub open spec fn doc_bounded(v: DocView) -> bool {
    &&& reg_bounded(v.name)
    &&& reg_bounded(v.path)
    &&& reg_bounded(v.description)
}

/// The wire frame of one register: its stamp, the value length, then the
/// value bytes.
pub open spec fn spec_encode_reg(r: RegView) -> Seq<u8> {
    u64_le_bytes(r.time) + u64_le_bytes(r.actor) + u64_le_bytes(r.value.len() as u64) + r.value
}

/// How many bytes the wire frame of one register takes.
pub open spec fn spec_reg_len(r: RegView) -> int {
    24 + r.value.len() as int
}

/// The register framed at offset `off`, and the offset just past it, if
/// the bytes there form a whole frame.
pub open spec fn spec_parse_reg(b: Seq<u8>, off: int) -> Option<(RegView, int)> {
    if off + 24 <= b.len() {
        let time = u64_from_bytes(b.subrange(off, off + 8));
        let actor = u64_from_bytes(b.subrange(off + 8, off + 16));
        let len = u64_from_bytes(b.subrange(off + 16, off + 24)) as int;
        if off + 24 + len <= b.len() {
            Some(
                (
                    RegView { time, actor, value: b.subrange(off + 24, off + 24 + len) },
                    off + 24 + len,
                ),
            )
        } else {
            None
        }
    } else {
        None
    }
}

/// Slicing a concatenation inside its first part slices that part.
pub(crate) proof fn lemma_concat_prefix(x: Seq<u8>, y: Seq<u8>, i: int, j: int)
    requires
        0 <= i <= j <= x.len(),
    ensures
        (x + y).subrange(i, j) == x.subrange(i, j),
{
    assert((x + y).subrange(i, j) =~= x.subrange(i, j));
}

/// Slicing a concatenation past its first part slices the second.
pub(crate) proof fn lemma_concat_suffix(x: Seq<u8>, y: Seq<u8>, i: int, j: int)
    requires
        0 <= i <= j <= y.len(),
    ensures
        (x + y).subrange(x.len() + i, x.len() + j) == y.subrange(i, j),
{
    assert((x + y).subrange(x.len() + i, x.len() + j) =~= y.subrange(i, j));
}

/// A slice of a slice is the inner slice of the original.
pub(crate) proof fn lemma_subrange_of_subrange(s: Seq<u8>, i: int, j: int, k: int, l: int)
    requires
        0 <= i <= j <= s.len(),
        0 <= k <= l <= j - i,
    ensures
        s.subrange(i, j).subrange(k, l) == s.subrange(i + k, i + l),
{
    assert(s.subrange(i, j).subrange(k, l) =~= s.subrange(i + k, i + l));
}

/// A register frame embedded in a longer byte string parses back to the
/// register it encodes.
#[verifier::rlimit(100)]
pub proof fn lemma_parse_reg_at(b: Seq<u8>, off: int, r: RegView)
    requires
        reg_bounded(r),
        0 <= off,
        off + spec_reg_len(r) <= b.len(),
        b.subrange(off, off + spec_reg_len(r)) == spec_encode_reg(r),
    ensures
        spec_parse_reg(b, off) == Some((r, off + spec_reg_len(r))),
{
    let e = spec_encode_reg(r);
    let len = r.value.len() as int;
    let regl = spec_reg_len(r);
    lemma_u64_round_trip(r.time);
    lemma_u64_round_trip(r.actor);
    lemma_u64_round_trip(r.value.len() as u64);
    lemma_subrange_of_subrange(b, off, off + regl, 0, 8);
    lemma_subrange_of_subrange(b, off, off + regl, 8, 16);
    lemma_subrange_of_subrange(b, off, off + regl, 16, 24);
    lemma_subrange_of_subrange(b, off, off + regl, 24, 24 + len);
    let t8 = u64_le_bytes(r.time);
    let a8 = u64_le_bytes(r.actor);
    let l8 = u64_le_bytes(r.value.len() as u64);
    let g2 = t8 + a8;
    let g3 = g2 + l8;
    assert(e == g3 + r.value);
    lemma_concat_prefix(g3, r.value, 0, 8);
    lemma_concat_prefix(g2, l8, 0, 8);
    lemma_concat_prefix(t8, a8, 0, 8);
    assert(t8.subrange(0, 8) =~= t8);
    assert(b.subrange(off, off + 8) == t8);
    lemma_concat_prefix(g3, r.value, 8, 16);
    lemma_concat_prefix(g2, l8, 8, 16);
    lemma_concat_suffix(t8, a8, 0, 8);
    assert(a8.subrange(0, 8) =~= a8);
    assert(b.subrange(off + 8, off + 16) == a8);
    lemma_concat_prefix(g3, r.value, 16, 24);
    lemma_concat_suffix(g2, l8, 0, 8);
    assert(l8.subrange(0, 8) =~= l8);
    assert(b.subrange(off + 16, off + 24) == l8);
    lemma_concat_suffix(g3, r.value, 0, len);
    assert(r.value.subrange(0, len) =~= r.value);
    assert(b.subrange(off + 24, off + 24 + len) == r.value);
    let p = spec_parse_reg(b, off);
    assert(p matches Some(q) && q.0 =~= r && q.1 == off + regl);
}

/// The fixed-size head of a snapshot: a format byte, the document id,
/// the branch actor, the clock, and the soft-delete marker.
pub open spec fn spec_doc_head(v: DocView) -> Seq<u8> {
    seq![1u8] + u128_le_bytes(v.doc_id) + u64_le_bytes(v.actor) + u64_le_bytes(v.clock)
        + u64_le_bytes(v.removed.time) + u64_le_bytes(v.removed.actor) + seq![
        if v.removed.marked {
            1u8
        } else {
            0u8
        },
    ]
}

/// The self-describing snapshot of a document state: the head, then the
/// frames of the name, path and description registers.
pub open spec fn spec_encode_doc(v: DocView) -> Seq<u8> {
    spec_doc_head(v) + spec_encode_reg(v.name) + spec_encode_reg(v.path) + spec_encode_reg(
        v.description)
}

/// The document state a snapshot stands for, if its bytes form exactly
/// one well-formed snapshot: wrong format bytes, truncated frames,
/// trailing bytes, and field stamps later than the clock are all
/// rejected.
pub open spec fn spec_parse_doc(b: Seq<u8>) -> Option<DocView> {
    if b.len() >= 50 && b[0] == 1u8 && (b[49] == 0u8 || b[49] == 1u8) {
        let doc_id = u128_from_bytes(b.subrange(1, 17));
        let actor = u64_from_bytes(b.subrange(17, 25));
        let clock = u64_from_bytes(b.subrange(25, 33));
        let rtime = u64_from_bytes(b.subrange(33, 41));
        let ractor = u64_from_bytes(b.subrange(41, 49));
        match spec_parse_reg(b, 50) {
            Some((name, o1)) => match spec_parse_reg(b, o1) {
                Some((path, o2)) => match spec_parse_reg(b, o2) {
                    Some((description, o3)) => {
                        if o3 == b.len() && name.time <= clock && path.time <= clock
                            && description.time <= clock && rtime <= clock {
                            Some(
                                DocView {
                                    doc_id,
                                    actor,
                                    clock,
                                    name,
                                    path,
                                    description,
                                    removed: FlagView {
                                        time: rtime,
                                        actor: ractor,
                                        marked: b[49] == 1u8,
                                    },
                                },
                            )
                        } else {
                            None
                        }
                    },
                    None => None,
                },
                None => None,
            },
            None => None,
        }
    } else {
        None
    }
}

/// Slicing the concatenation of a 50-byte head and three register
/// frames recovers each part.
proof fn lemma_encode_slices_gen(h: Seq<u8>, e1: Seq<u8>, e2: Seq<u8>, e3: Seq<u8>)
    requires
        h.len() == 50,
    ensures
        (h + e1 + e2 + e3).len() == 50 + e1.len() + e2.len() + e3.len(),
        (h + e1 + e2 + e3).subrange(0, 50) == h,
        (h + e1 + e2 + e3).subrange(50, 50 + e1.len() as int) == e1,
        (h + e1 + e2 + e3).subrange(50 + e1.len() as int, 50 + e1.len() + e2.len() as int) == e2,
        (h + e1 + e2 + e3).subrange(
            50 + e1.len() + e2.len() as int,
            50 + e1.len() + e2.len() + e3.len() as int,
        ) == e3,
{
    let o1 = 50 + e1.len() as int;
    let o2 = o1 + e2.len() as int;
    let o3 = o2 + e3.len() as int;
    lemma_concat_prefix(h + e1 + e2, e3, 0, 50);
    lemma_concat_prefix(h + e1, e2, 0, 50);
    lemma_concat_prefix(h, e1, 0, 50);
    assert(h.subrange(0, 50) =~= h);
    lemma_concat_prefix(h + e1 + e2, e3, 50, o1);
    lemma_concat_prefix(h + e1, e2, 50, o1);
    lemma_concat_suffix(h, e1, 0, e1.len() as int);
    assert(e1.subrange(0, e1.len() as int) =~= e1);
    lemma_concat_prefix(h + e1 + e2, e3, o1, o2);
    lemma_concat_suffix(h + e1, e2, 0, e2.len() as int);
    assert(e2.subrange(0, e2.len() as int) =~= e2);
    lemma_concat_suffix(h + e1 + e2, e3, 0, e3.len() as int);
    assert(e3.subrange(0, e3.len() as int) =~= e3);
}

/// Slicing the concatenation of the seven head parts recovers each part.
proof fn lemma_head_slices_gen(
    p1: Seq<u8>,
    p2: Seq<u8>,
    p3: Seq<u8>,
    p4: Seq<u8>,
    p5: Seq<u8>,
    p6: Seq<u8>,
    p7: Seq<u8>,
)
    requires
        p1.len() == 1,
        p2.len() == 16,
        p3.len() == 8,
        p4.len() == 8,
        p5.len() == 8,
        p6.len() == 8,
        p7.len() == 1,
    ensures
        ({
            let h = p1 + p2 + p3 + p4 + p5 + p6 + p7;
            &&& h.len() == 50
            &&& h[0] == p1[0]
            &&& h[49] == p7[0]
            &&& h.subrange(1, 17) == p2
            &&& h.subrange(17, 25) == p3
            &&& h.subrange(25, 33) == p4
            &&& h.subrange(33, 41) == p5
            &&& h.subrange(41, 49) == p6
        }),
{
    let h2 = p1 + p2;
    let h3 = h2 + p3;
    let h4 = h3 + p4;
    let h5 = h4 + p5;
    let h6 = h5 + p6;
    lemma_concat_prefix(h6, p7, 1, 17);
    lemma_concat_prefix(h5, p6, 1, 17);
    lemma_concat_prefix(h4, p5, 1, 17);
    lemma_concat_prefix(h3, p4, 1, 17);
    lemma_concat_prefix(h2, p3, 1, 17);
    lemma_concat_suffix(p1, p2, 0, 16);
    assert(p2.subrange(0, 16) =~= p2);
    lemma_concat_prefix(h6, p7, 17, 25);
    lemma_concat_prefix(h5, p6, 17, 25);
    lemma_concat_prefix(h4, p5, 17, 25);
    lemma_concat_prefix(h3, p4, 17, 25);
    lemma_concat_suffix(h2, p3, 0, 8);
    assert(p3.subrange(0, 8) =~= p3);
    lemma_concat_prefix(h6, p7, 25, 33);
    lemma_concat_prefix(h5, p6, 25, 33);
    lemma_concat_prefix(h4, p5, 25, 33);
    lemma_concat_suffix(h3, p4, 0, 8);
    assert(p4.subrange(0, 8) =~= p4);
    lemma_concat_prefix(h6, p7, 33, 41);
    lemma_concat_prefix(h5, p6, 33, 41);
    lemma_concat_suffix(h4, p5, 0, 8);
    assert(p5.subrange(0, 8) =~= p5);
    lemma_concat_prefix(h6, p7, 41, 49);
    lemma_concat_suffix(h5, p6, 0, 8);
    assert(p6.subrange(0, 8) =~= p6);
}

/// The head fields of a snapshot sit at their fixed offsets.
#[verifier::rlimit(100)]
#[verifier::spinoff_prover]
proof fn lemma_doc_head_slices(v: DocView)
    ensures
        spec_encode_doc(v).len() == 50 + spec_reg_len(v.name) + spec_reg_len(v.path)
            + spec_reg_len(v.description),
        spec_encode_doc(v)[0] == 1u8,
        spec_encode_doc(v)[49] == (if v.removed.marked {
            1u8
        } else {
            0u8
        }),
        spec_encode_doc(v).subrange(1, 17) == u128_le_bytes(v.doc_id),
        spec_encode_doc(v).subrange(17, 25) == u64_le_bytes(v.actor),
        spec_encode_doc(v).subrange(25, 33) == u64_le_bytes(v.clock),
        spec_encode_doc(v).subrange(33, 41) == u64_le_bytes(v.removed.time),
        spec_encode_doc(v).subrange(41, 49) == u64_le_bytes(v.removed.actor),
{
    let s1 = seq![1u8];
    let idb = u128_le_bytes(v.doc_id);
    let ab = u64_le_bytes(v.actor);
    let cb = u64_le_bytes(v.clock);
    let rtb = u64_le_bytes(v.removed.time);
    let rab = u64_le_bytes(v.removed.actor);
    let mb = seq![
        if v.removed.marked {
            1u8
        } else {
            0u8
        },
    ];
    let h = spec_doc_head(v);
    let b = spec_encode_doc(v);
    assert(h == s1 + idb + ab + cb + rtb + rab + mb);
    lemma_head_slices_gen(s1, idb, ab, cb, rtb, rab, mb);
    lemma_encode_slices_gen(
        h,
        spec_encode_reg(v.name),
        spec_encode_reg(v.path),
        spec_encode_reg(v.description),
    );
    lemma_subrange_of_subrange(b, 0, 50, 1, 17);
    lemma_subrange_of_subrange(b, 0, 50, 17, 25);
    lemma_subrange_of_subrange(b, 0, 50, 25, 33);
    lemma_subrange_of_subrange(b, 0, 50, 33, 41);
    lemma_subrange_of_subrange(b, 0, 50, 41, 49);
    assert(b[0] == b.subrange(0, 50)[0]);
    assert(b[49] == b.subrange(0, 50)[49]);
}

/// The three register frames of a snapshot sit between their offsets.
#[verifier::rlimit(100)]
#[verifier::spinoff_prover]
proof fn lemma_doc_reg_slices(v: DocView)
    ensures
        ({
            let b = spec_encode_doc(v);
            let o1 = 50 + spec_reg_len(v.name);
            let o2 = o1 + spec_reg_len(v.path);
            let o3 = o2 + spec_reg_len(v.description);
            &&& b.subrange(50, o1) == spec_encode_reg(v.name)
            &&& b.subrange(o1, o2) == spec_encode_reg(v.path)
            &&& b.subrange(o2, o3) == spec_encode_reg(v.description)
        }),
{
    let h = spec_doc_head(v);
    assert(h.len() == 50);
    lemma_encode_slices_gen(
        h,
        spec_encode_reg(v.name),
        spec_encode_reg(v.path),
        spec_encode_reg(v.description),
    );
}

/// A snapshot is reconstructible: parsing what `spec_encode_doc` framed
/// for a well-formed state gives that state back.
#[verifier::rlimit(100)]
#[verifier::spinoff_prover]
pub proof fn lemma_doc_round_trip(v: DocView)
    requires
        v.wf(),
        doc_bounded(v),
    ensures
        spec_parse_doc(spec_encode_doc(v)) == Some(v),
{
    let b = spec_encode_doc(v);
    let o1 = 50 + spec_reg_len(v.name);
    let o2 = o1 + spec_reg_len(v.path);
    let o3 = o2 + spec_reg_len(v.description);
    lemma_doc_head_slices(v);
    lemma_doc_reg_slices(v);
    lemma_u128_round_trip(v.doc_id);
    lemma_u64_round_trip(v.actor);
    lemma_u64_round_trip(v.clock);
    lemma_u64_round_trip(v.removed.time);
    lemma_u64_round_trip(v.removed.actor);
    lemma_parse_reg_at(b, 50, v.name);
    lemma_parse_reg_at(b, o1, v.path);
    lemma_parse_reg_at(b, o2, v.description);
    assert(spec_parse_doc(b) matches Some(w) && w =~= v);
}

/// Append the wire frame of one register.
#[verifier::rlimit(100)]
fn push_reg(out: &mut Vec<u8>, reg: &Register)
    ensures
        final(out)@ == old(out)@ + spec_encode_reg(reg@),
{
    push_u64(out, reg.time);
    push_u64(out, reg.actor);
    let len = reg.value.len();
    push_u64(out, len as u64);
    let mut i: usize = 0;
    let ghost mid = out@;
    while i < reg.value.len()
        invariant
            0 <= i <= reg.value@.len(),
            out@ == mid + reg.value@.subrange(0, i as int),
        decreases reg.value@.len() - i,
    {
        out.push(reg.value[i]);
        assert(out@ =~= mid + reg.value@.subrange(0, i as int + 1));
        i = i + 1;
    }
    assert(out@ =~= old(out)@ + spec_encode_reg(reg@));
}

/// Read the register framed at `off`, and the offset just past it.
fn read_reg(b: &Vec<u8>, off: usize) -> (r: Option<(Register, usize)>)
    requires
        off <= b@.len(),
    ensures
        match r {
            Some(p) => {
                &&& spec_parse_reg(b@, off as int) == Some((p.0@, p.1 as int))
                &&& off < p.1 <= b@.len()
            },
            None => spec_parse_reg(b@, off as int) is None,
        },
{
    if b.len() - off < 24 {
        return None;
    }
    let time = read_u64(b, off);
    let actor = read_u64(b, off + 8);
    let len64 = read_u64(b, off + 16);
    let rem = b.len() - (off + 24);
    if len64 > rem as u64 {
        return None;
    }
    let len = len64 as usize;
    let value = copy_range(b, off + 24, off + 24 + len);
    let reg = Register { time, actor, value };
    assert(reg@ =~= spec_parse_reg(b@, off as int).unwrap().0);
    Some((reg, off + 24 + len))
}

impl Document {
    /// Serialize this replica into an opaque, self-describing snapshot
    /// from which `load` reconstructs an equivalent replica.
    pub fn save(&self) -> (r: Vec<u8>)
        ensures
            r@ == spec_encode_doc(self@),
    {
        let mut out: Vec<u8> = Vec::new();
        out.push(1);
        push_u128(&mut out, self.doc_id);
        push_u64(&mut out, self.actor);
        push_u64(&mut out, self.clock);
        push_u64(&mut out, self.removed.time);
        push_u64(&mut out, self.removed.actor);
        out.push(if self.removed.marked { 1 } else { 0 });
        push_reg(&mut out, &self.name);
        push_reg(&mut out, &self.path);
        push_reg(&mut out, &self.description);
        assert(out@ =~= spec_encode_doc(self@));
        out
    }

    /// Reconstruct a replica from a snapshot. Exactly the byte strings
    /// that `spec_parse_doc` accepts decode; everything else is rejected
    /// with no partial result.
    pub fn load(bytes: &Vec<u8>) -> (r: Option<Document>)
        ensures
            match r {
                Some(d) => spec_parse_doc(bytes@) == Some(d@) && d@.wf(),
                None => spec_parse_doc(bytes@) is None,
            },
    {
        if bytes.len() < 50 {
            return None;
        }
        if bytes[0] != 1 {
            return None;
        }
        let marked_byte = bytes[49];
        if marked_byte != 0 && marked_byte != 1 {
            return None;
        }
        let doc_id = read_u128(bytes, 1);
        let actor = read_u64(bytes, 17);
        let clock = read_u64(bytes, 25);
        let rtime = read_u64(bytes, 33);
        let ractor = read_u64(bytes, 41);
        let (name, o1) = match read_reg(bytes, 50) {
            Some(p) => p,
            None => {
                return None;
            },
        };
        let (path, o2) = match read_reg(bytes, o1) {
            Some(p) => p,
            None => {
                return None;
            },
        };
        let (description, o3) = match read_reg(bytes, o2) {
            Some(p) => p,
            None => {
                return None;
            },
        };
        if o3 != bytes.len() {
            return None;
        }
        if name.time > clock || path.time > clock || description.time > clock || rtime > clock {
            return None;
        }
        let d = Document {
            doc_id,
            actor,
            clock,
            name,
            path,
            description,
            removed: Flag { time: rtime, actor: ractor, marked: marked_byte == 1 },
        };
        assert(d@ =~= spec_parse_doc(bytes@).unwrap());
        Some(d)
    }
}

} // verus!
