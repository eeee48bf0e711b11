use vstd::prelude::*;

verus! {

/// Byte length of the zero-filled placeholder buffer that stands in for
/// absent, malformed, or empty geometry.
pub const PLACEHOLDER_LEN: usize = 64;

/// One element of a point array: the bit pattern of a 32-bit float, or a
/// value of some other kind, which the encoder skips.
pub enum Entry {
    Num(u32),
    Other,
}

/// One element of a record: an array of numeric entries, or a value of some
/// other kind, which contributes no bytes.
pub enum Point {
    Values(Vec<Entry>),
    Other,
}

/// One record of the top-level sequence: an array of points, or a value of
/// some other kind, which contributes no bytes and no padding.
pub enum Record {
    Points(Vec<Point>),
    Other,
}

/// The whole input value tree: a top-level array of records, or a value of
/// some other kind, which degrades to the placeholder buffer.
pub enum GeometryTree {
    Records(Vec<Record>),
    Other,
}

// ---------------------------------------------------------------------------
// The numeric leaves of the tree, in document order.
// ---------------------------------------------------------------------------

pub open spec fn entry_leaves(e: Entry) -> Seq<u32> {
    match e {
        Entry::Num(x) => seq![x],
        Entry::Other => Seq::empty(),
    }
}

pub open spec fn entries_leaves(s: Seq<Entry>) -> Seq<u32>
    decreases s.len(),
{
    if s.len() == 0 {
        Seq::empty()
    } else {
        entries_leaves(s.drop_last()) + entry_leaves(s.last())
    }
}

pub open spec fn point_leaves(p: Point) -> Seq<u32> {
    match p {
        Point::Values(es) => entries_leaves(es@),
        Point::Other => Seq::empty(),
    }
}

pub open spec fn points_leaves(s: Seq<Point>) -> Seq<u32>
    decreases s.len(),
{
    if s.len() == 0 {
        Seq::empty()
    } else {
        points_leaves(s.drop_last()) + point_leaves(s.last())
    }
}

pub open spec fn record_leaves(r: Record) -> Seq<u32> {
    match r {
        Record::Points(ps) => points_leaves(ps@),
        Record::Other => Seq::empty(),
    }
}

pub open spec fn records_leaves(s: Seq<Record>) -> Seq<u32>
    decreases s.len(),
{
    if s.len() == 0 {
        Seq::empty()
    } else {
        records_leaves(s.drop_last()) + record_leaves(s.last())
    }
}

pub open spec fn tree_leaves(t: GeometryTree) -> Seq<u32> {
    match t {
        GeometryTree::Records(rs) => records_leaves(rs@),
        GeometryTree::Other => Seq::empty(),
    }
}

// ---------------------------------------------------------------------------
// The encoded bytes.
// ---------------------------------------------------------------------------

/// The four bytes of a 32-bit value, least significant first.
pub open spec fn le_bytes(x: u32) -> Seq<u8> {
    seq![
        (x & 0xff) as u8,
        ((x >> 8) & 0xff) as u8,
        ((x >> 16) & 0xff) as u8,
        ((x >> 24) & 0xff) as u8,
    ]
}

pub open spec fn leaves_bytes(s: Seq<u32>) -> Seq<u8>
    decreases s.len(),
{
    if s.len() == 0 {
        Seq::empty()
    } else {
        leaves_bytes(s.drop_last()) + le_bytes(s.last())
    }
}

pub open spec fn zero_bytes(n: nat) -> Seq<u8> {
    Seq::new(n, |i: int| 0u8)
}

/// Zero padding that brings a byte sequence to an 8-byte boundary.
pub open spec fn pad8(s: Seq<u8>) -> Seq<u8> {
    if s.len() % 8 == 0 {
        s
    } else {
        s + zero_bytes((8 - s.len() % 8) as nat)
    }
}

/// An array record emits its leaves and is then padded to an 8-byte
/// boundary; any other record emits nothing.
pub open spec fn record_bytes(r: Record) -> Seq<u8> {
    match r {
        Record::Points(_) => pad8(leaves_bytes(record_leaves(r))),
        Record::Other => Seq::empty(),
    }
}

pub open spec fn records_bytes(s: Seq<Record>) -> Seq<u8>
    decreases s.len(),
{
    if s.len() == 0 {
        Seq::empty()
    } else {
        records_bytes(s.drop_last()) + record_bytes(s.last())
    }
}

/// The buffer the encoder produces: the records' bytes, or the 64-byte zero
/// placeholder when the input is not an array or yields no bytes.
pub open spec fn encoded(t: GeometryTree) -> Seq<u8> {
    match t {
        GeometryTree::Records(rs) => if records_bytes(rs@).len() == 0 {
            zero_bytes(PLACEHOLDER_LEN as nat)
        } else {
            records_bytes(rs@)
        },
        GeometryTree::Other => zero_bytes(PLACEHOLDER_LEN as nat),
    }
}

// ---------------------------------------------------------------------------
// Reading the buffer back.
// ---------------------------------------------------------------------------

/// The 32-bit value stored in four bytes, least significant first.
pub open spec fn u32_of_le(b: Seq<u8>) -> u32
    recommends
        b.len() == 4,
{
    (b[0] as u32) | ((b[1] as u32) << 8) | ((b[2] as u32) << 16) | ((b[3] as u32) << 24)
}

/// The first `k` 32-bit values read from a buffer at 4-byte offsets.
pub open spec fn decoded_leaves(b: Seq<u8>, k: nat) -> Seq<u32> {
    Seq::new(k, |i: int| u32_of_le(b.subrange(4 * i, 4 * i + 4)))
}

/// Byte length of one record's region: four bytes per value, padded to an
/// 8-byte boundary.
pub open spec fn padded_len(k: nat) -> nat {
    if (4 * k) % 8 == 0 {
        4 * k
    } else {
        4 * k + 4
    }
}

/// Reads each record's values at its known offsets: a record with `k`
/// values occupies `padded_len(k)` bytes, and the next record follows.
pub open spec fn decoded_records(b: Seq<u8>, counts: Seq<nat>) -> Seq<u32>
    decreases counts.len(),
{
    if counts.len() == 0 {
        Seq::empty()
    } else {
        decoded_leaves(b, counts.first()) + decoded_records(
            b.skip(padded_len(counts.first()) as int),
            counts.drop_first(),
        )
    }
}

/// How many numeric leaves each record of the tree holds.
pub open spec fn record_counts(s: Seq<Record>) -> Seq<nat> {
    Seq::new(s.len(), |i: int| record_leaves(s[i]).len())
}

// ---------------------------------------------------------------------------
// Supporting lemmas.
// ---------------------------------------------------------------------------

proof fn lemma_leaves_bytes_concat(a: Seq<u32>, b: Seq<u32>)
    ensures
        leaves_bytes(a + b) == leaves_bytes(a) + leaves_bytes(b),
    decreases b.len(),
{
    if b.len() == 0 {
        assert(a + b =~= a);
        assert(leaves_bytes(a) + leaves_bytes(b) =~= leaves_bytes(a));
    } else {
        lemma_leaves_bytes_concat(a, b.drop_last());
        assert((a + b).drop_last() =~= a + b.drop_last());
        assert((a + b).last() == b.last());
        assert(leaves_bytes(a) + leaves_bytes(b.drop_last()) + le_bytes(b.last()) =~= leaves_bytes(
            a,
        ) + leaves_bytes(b));
    }
}

proof fn lemma_leaves_bytes_len(s: Seq<u32>)
    ensures
        leaves_bytes(s).len() == 4 * s.len(),
    decreases s.len(),
{
    if s.len() > 0 {
        lemma_leaves_bytes_len(s.drop_last());
    }
}

proof fn lemma_pad8_aligned(s: Seq<u8>)
    ensures
        pad8(s).len() % 8 == 0,
{
    if s.len() % 8 != 0 {
        let n = s.len() as int;
        assert((n + (8 - n % 8)) % 8 == 0) by (nonlinear_arith)
            requires
                n >= 0,
        ;
    }
}

proof fn lemma_record_bytes_aligned(r: Record)
    ensures
        record_bytes(r).len() % 8 == 0,
{
    match r {
        Record::Points(_) => lemma_pad8_aligned(leaves_bytes(record_leaves(r))),
        Record::Other => {},
    }
}

// ---------------------------------------------------------------------------
// The encoder.
// ---------------------------------------------------------------------------

fn placeholder() -> (out: Vec<u8>)
    ensures
        out@ == zero_bytes(PLACEHOLDER_LEN as nat),
{
    let mut out: Vec<u8> = Vec::new();
    let mut i: usize = 0;
    while i < PLACEHOLDER_LEN
        invariant
            i <= PLACEHOLDER_LEN,
            out@ == zero_bytes(i as nat),
        decreases PLACEHOLDER_LEN - i,
    {
        out.push(0u8);
        i = i + 1;
        proof {
            assert(out@ =~= zero_bytes(i as nat));
        }
    }
    out
}

/// Appends the four little-endian bytes of one leaf.
fn push_leaf(out: &mut Vec<u8>, x: u32)
    ensures
        final(out)@ == old(out)@ + le_bytes(x),
{
    proof {
        assert(x & 0xff < 256 && (x >> 8) & 0xff < 256 && (x >> 16) & 0xff < 256 && (x >> 24)
            & 0xff < 256) by (bit_vector);
    }
    out.push((x & 0xff) as u8);
    out.push(((x >> 8) & 0xff) as u8);
    out.push(((x >> 16) & 0xff) as u8);
    out.push(((x >> 24) & 0xff) as u8);
    proof {
        assert(out@ =~= old(out)@ + le_bytes(x));
    }
}

/// Appends the leaves of one point; a non-array point appends nothing.
fn encode_point(out: &mut Vec<u8>, p: &Point)
    ensures
        final(out)@ == old(out)@ + leaves_bytes(point_leaves(*p)),
{
    match p {
        Point::Other => {
            proof {
                assert(out@ =~= old(out)@ + leaves_bytes(point_leaves(*p)));
            }
        },
        Point::Values(es) => {
            let ghost base = out@;
            let mut k: usize = 0;
            while k < es.len()
                invariant
                    k <= es.len(),
                    out@ == base + leaves_bytes(entries_leaves(es@.take(k as int))),
                decreases es.len() - k,
            {
                let ghost lv = entries_leaves(es@.take(k as int));
                let e = &es[k];
                match e {
                    Entry::Num(x) => {
                        push_leaf(out, *x);
                        proof {
                            let lv2 = entries_leaves(es@.take(k as int + 1));
                            assert(es@.take(k as int + 1).drop_last() =~= es@.take(k as int));
                            assert(es@.take(k as int + 1).last() == es@[k as int]);
                            assert(lv2 == lv + seq![*x]);
                            assert(lv2.drop_last() =~= lv);
                            assert(leaves_bytes(lv2) == leaves_bytes(lv) + le_bytes(*x));
                            assert(out@ =~= base + leaves_bytes(lv2));
                        }
                    },
                    Entry::Other => {
                        proof {
                            assert(es@.take(k as int + 1).drop_last() =~= es@.take(k as int));
                            assert(es@.take(k as int + 1).last() == es@[k as int]);
                            assert(entries_leaves(es@.take(k as int + 1)) =~= lv);
                        }
                    },
                }
                k = k + 1;
            }
            proof {
                assert(es@.take(es@.len() as int) =~= es@);
            }
        },
    }
}

/// Appends one record's bytes: its leaves, then zero padding to an 8-byte
/// boundary; a non-array record appends nothing.
fn encode_record(out: &mut Vec<u8>, r: &Record)
    requires
        old(out)@.len() % 8 == 0,
    ensures
        final(out)@ == old(out)@ + record_bytes(*r),
        final(out)@.len() % 8 == 0,
{
    match r {
        Record::Other => {
            proof {
                assert(out@ =~= old(out)@ + record_bytes(*r));
            }
        },
        Record::Points(ps) => {
            let ghost base = out@;
            let mut j: usize = 0;
            while j < ps.len()
                invariant
                    j <= ps.len(),
                    out@ == base + leaves_bytes(points_leaves(ps@.take(j as int))),
                decreases ps.len() - j,
            {
                let ghost pl = points_leaves(ps@.take(j as int));
                encode_point(out, &ps[j]);
                proof {
                    let pl2 = points_leaves(ps@.take(j as int + 1));
                    assert(ps@.take(j as int + 1).drop_last() =~= ps@.take(j as int));
                    assert(ps@.take(j as int + 1).last() == ps@[j as int]);
                    assert(pl2 == pl + point_leaves(ps@[j as int]));
                    lemma_leaves_bytes_concat(pl, point_leaves(ps@[j as int]));
                    assert(out@ =~= base + leaves_bytes(pl2));
                }
                j = j + 1;
            }
            proof {
                assert(ps@.take(ps@.len() as int) =~= ps@);
            }
            let ghost lb = leaves_bytes(record_leaves(*r));
            let rem: usize = out.len() % 8;
            proof {
                assert(out@ == base + lb);
                assert(base.len() % 8 == 0);
                assert((base.len() + lb.len()) % 8 == lb.len() % 8) by (nonlinear_arith)
                    requires
                        base.len() % 8 == 0,
                ;
                assert(lb.len() % 8 == rem);
            }
            if rem != 0 {
                let need: usize = 8 - rem;
                let mut p: usize = 0;
                while p < need
                    invariant
                        p <= need,
                        out@ == base + lb + zero_bytes(p as nat),
                    decreases need - p,
                {
                    out.push(0u8);
                    p = p + 1;
                    proof {
                        assert(out@ =~= base + lb + zero_bytes(p as nat));
                    }
                }
                proof {
                    assert(out@ =~= base + pad8(lb));
                    lemma_pad8_aligned(lb);
                    assert((base.len() + pad8(lb).len()) % 8 == 0) by (nonlinear_arith)
                        requires
                            base.len() % 8 == 0,
                            pad8(lb).len() % 8 == 0,
                    ;
                }
            } else {
                proof {
                    assert(out@ =~= base + pad8(lb));
                }
            }
        },
    }
}

proof fn lemma_records_bytes_aligned(s: Seq<Record>)
    ensures
        records_bytes(s).len() % 8 == 0,
    decreases s.len(),
{
    if s.len() > 0 {
        lemma_records_bytes_aligned(s.drop_last());
        lemma_record_bytes_aligned(s.last());
    }
}

proof fn lemma_record_bytes_len(r: Record)
    ensures
        record_bytes(r).len() == padded_len(record_leaves(r).len()),
{
    match r {
        Record::Other => {},
        Record::Points(_) => {
            let l = record_leaves(r);
            lemma_leaves_bytes_len(l);
            let k = l.len() as int;
            vstd::arithmetic::div_mod::lemma_fundamental_div_mod(k, 2);
            assert(4 * k == 8 * (k / 2) + 4 * (k % 2)) by (nonlinear_arith)
                requires
                    k == 2 * (k / 2) + k % 2,
            ;
            vstd::arithmetic::div_mod::lemma_mod_multiples_vanish(k / 2, 4 * (k % 2), 8);
        },
    }
}

proof fn lemma_records_bytes_first(s: Seq<Record>)
    requires
        s.len() > 0,
    ensures
        records_bytes(s) == record_bytes(s.first()) + records_bytes(s.drop_first()),
    decreases s.len(),
{
    if s.len() == 1 {
        assert(s.drop_last() =~= Seq::<Record>::empty());
        assert(s.drop_first() =~= Seq::<Record>::empty());
        assert(s.first() == s.last());
        assert(record_bytes(s.first()) + records_bytes(s.drop_first()) =~= records_bytes(s));
    } else {
        lemma_records_bytes_first(s.drop_last());
        assert(s.drop_last().first() == s.first());
        assert(s.drop_last().drop_first() =~= s.drop_first().drop_last());
        assert(s.drop_first().last() == s.last());
        assert(record_bytes(s.first()) + records_bytes(s.drop_first()) =~= records_bytes(s));
    }
}

proof fn lemma_records_leaves_first(s: Seq<Record>)
    requires
        s.len() > 0,
    ensures
        records_leaves(s) == record_leaves(s.first()) + records_leaves(s.drop_first()),
    decreases s.len(),
{
    if s.len() == 1 {
        assert(s.drop_last() =~= Seq::<Record>::empty());
        assert(s.drop_first() =~= Seq::<Record>::empty());
        assert(s.first() == s.last());
        assert(record_leaves(s.first()) + records_leaves(s.drop_first()) =~= records_leaves(s));
    } else {
        lemma_records_leaves_first(s.drop_last());
        assert(s.drop_last().first() == s.first());
        assert(s.drop_last().drop_first() =~= s.drop_first().drop_last());
        assert(s.drop_first().last() == s.last());
        assert(record_leaves(s.first()) + records_leaves(s.drop_first()) =~= records_leaves(s));
    }
}

proof fn lemma_le_round(x: u32)
    ensures
        u32_of_le(le_bytes(x)) == x,
{
    let b = le_bytes(x);
    assert(b[0] == (x & 0xff) as u8);
    assert(b[1] == ((x >> 8) & 0xff) as u8);
    assert(b[2] == ((x >> 16) & 0xff) as u8);
    assert(b[3] == ((x >> 24) & 0xff) as u8);
    assert((((x & 0xff) as u8) as u32) | (((((x >> 8) & 0xff) as u8) as u32) << 8) | (((((x >> 16)
        & 0xff) as u8) as u32) << 16) | (((((x >> 24) & 0xff) as u8) as u32) << 24) == x)
        by (bit_vector);
}

proof fn lemma_leaves_bytes_at(s: Seq<u32>, i: int)
    requires
        0 <= i < s.len(),
    ensures
        leaves_bytes(s).subrange(4 * i, 4 * i + 4) == le_bytes(s[i]),
    decreases s.len(),
{
    lemma_leaves_bytes_len(s);
    lemma_leaves_bytes_len(s.drop_last());
    if i == s.len() - 1 {
        assert(leaves_bytes(s).subrange(4 * i, 4 * i + 4) =~= le_bytes(s.last()));
    } else {
        lemma_leaves_bytes_at(s.drop_last(), i);
        assert(s.drop_last()[i] == s[i]);
        assert(leaves_bytes(s).subrange(4 * i, 4 * i + 4) =~= leaves_bytes(
            s.drop_last(),
        ).subrange(4 * i, 4 * i + 4));
    }
}

proof fn lemma_empty_body(s: Seq<Record>)
    requires
        records_bytes(s).len() == 0,
    ensures
        records_leaves(s).len() == 0,
        forall|i: int| 0 <= i < s.len() ==> record_leaves(s[i]).len() == 0,
    decreases s.len(),
{
    if s.len() > 0 {
        lemma_empty_body(s.drop_last());
        lemma_record_bytes_len(s.last());
        assert(record_leaves(s.last()).len() == 0);
        assert forall|i: int| 0 <= i < s.len() implies record_leaves(s[i]).len() == 0 by {
            if i < s.len() - 1 {
                assert(s.drop_last()[i] == s[i]);
            } else {
                assert(s[i] == s.last());
            }
        }
    }
}

proof fn lemma_decoded_records_zero_counts(b: Seq<u8>, counts: Seq<nat>)
    requires
        forall|i: int| 0 <= i < counts.len() ==> counts[i] == 0,
    ensures
        decoded_records(b, counts).len() == 0,
    decreases counts.len(),
{
    if counts.len() > 0 {
        assert(counts[0] == 0);
        assert forall|i: int| 0 <= i < counts.drop_first().len() implies counts.drop_first()[i]
            == 0 by {
            assert(counts[i + 1] == 0);
        }
        lemma_decoded_records_zero_counts(b.skip(0), counts.drop_first());
    }
}

proof fn lemma_decoded_records(s: Seq<Record>)
    ensures
        decoded_records(records_bytes(s), record_counts(s)) == records_leaves(s),
    decreases s.len(),
{
    if s.len() == 0 {
        assert(record_counts(s) =~= Seq::<nat>::empty());
    } else {
        let r = s.first();
        let rest = s.drop_first();
        let l = record_leaves(r);
        let k = l.len();
        let b = records_bytes(s);
        lemma_records_bytes_first(s);
        lemma_records_leaves_first(s);
        lemma_record_bytes_len(r);
        lemma_leaves_bytes_len(l);
        assert(record_counts(s)[0] == k);
        assert(record_counts(s).drop_first() =~= record_counts(rest));
        assert forall|i: int| 0 <= i < k implies #[trigger] decoded_leaves(b, k)[i] == l[i] by {
            lemma_leaves_bytes_at(l, i);
            lemma_le_round(l[i]);
            assert(b.subrange(4 * i, 4 * i + 4) =~= leaves_bytes(l).subrange(4 * i, 4 * i + 4));
        }
        assert(decoded_leaves(b, k) =~= l);
        assert(b.skip(padded_len(k) as int) =~= records_bytes(rest));
        lemma_decoded_records(rest);
        assert(decoded_records(b, record_counts(s)) =~= records_leaves(s));
    }
}

// ---------------------------------------------------------------------------
// Laws.
// ---------------------------------------------------------------------------

/// Law: whatever the input tree, the encoded buffer's byte length is a
/// multiple of 8, so it is always valid as an 8-byte-aligned uniform block.
pub proof fn lemma_encoded_aligned(t: GeometryTree)
    ensures
        encoded(t).len() % 8 == 0,
{
    match t {
        GeometryTree::Records(rs) => {
            lemma_records_bytes_aligned(rs@);
        },
        GeometryTree::Other => {},
    }
}

/// Law (round trip): for a tree that is an array of records, reading 32-bit
/// values back from the encoded buffer at each record's known offsets
/// recovers the numeric leaves in their original order.
pub proof fn lemma_encode_round_trip(t: GeometryTree)
    requires
        t is Records,
    ensures
        decoded_records(encoded(t), record_counts(t->Records_0@)) == tree_leaves(t),
{
    let rs = t->Records_0@;
    if records_bytes(rs).len() == 0 {
        lemma_empty_body(rs);
        assert forall|i: int| 0 <= i < record_counts(rs).len() implies record_counts(rs)[i]
            == 0 by {
            assert(record_leaves(rs[i]).len() == 0);
        }
        lemma_decoded_records_zero_counts(encoded(t), record_counts(rs));
        assert(decoded_records(encoded(t), record_counts(rs)) =~= records_leaves(rs));
    } else {
        lemma_decoded_records(rs);
    }
}

/// Law (placeholder fallback): any input that is not an array at the top
/// level encodes to exactly 64 zero bytes.
pub proof fn lemma_placeholder_fallback(t: GeometryTree)
    requires
        t !is Records,
    ensures
        encoded(t).len() == 64,
        forall|i: int| 0 <= i < 64 ==> encoded(t)[i] == 0,
{
}

/// Encodes the value tree for upload as a read-only uniform resource: each
/// numeric leaf as a little-endian 32-bit float bit pattern, each record
/// padded to an 8-byte boundary, with the 64-byte zero placeholder for an
/// input that is not an array or that yields no bytes.
pub fn encode(tree: &GeometryTree) -> (out: Vec<u8>)
    ensures
        out@ == encoded(*tree),
        out@.len() % 8 == 0,
{
    match tree {
        GeometryTree::Other => placeholder(),
        GeometryTree::Records(rs) => {
            let mut out: Vec<u8> = Vec::new();
            let mut i: usize = 0;
            while i < rs.len()
                invariant
                    i <= rs.len(),
                    out@ == records_bytes(rs@.take(i as int)),
                    out@.len() % 8 == 0,
                decreases rs.len() - i,
            {
                encode_record(&mut out, &rs[i]);
                proof {
                    assert(rs@.take(i as int + 1).drop_last() =~= rs@.take(i as int));
                    assert(rs@.take(i as int + 1).last() == rs@[i as int]);
                    assert(out@ =~= records_bytes(rs@.take(i as int + 1)));
                }
                i = i + 1;
            }
            proof {
                assert(rs@.take(rs@.len() as int) =~= rs@);
            }
            if out.len() == 0 {
                placeholder()
            } else {
                out
            }
        },
    }
}

} // verus!
