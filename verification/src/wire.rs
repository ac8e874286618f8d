//! Binary wire encoding of batches: the forward-protocol message layout over
//! a compact map/array byte format.
//!
//! A message is a three-element sequence `[tag, records, options]`; each
//! record is a two-element sequence `[timestamp, fields]`; scalars use the
//! smallest of the fixed numeric formats. The spec functions below define the
//! exact bytes; the executable encoder is proved to produce them.

use vstd::prelude::*;

verus! {

broadcast use vstd::std_specs::vec::axiom_vec_index_decreases;

use vstd::string::StrSliceExecFns;
use vstd::utf8::encode_utf8;

use crate::fluent::{
    entries_view, lemma_entries_view_index, value_view, FieldsView, Message, MessageView, Record,
    RecordView, Severity, Value, ValueView,
};

/// How a record's timestamp is put on the wire: whole seconds as an unsigned
/// integer, or the high-precision eight-byte extension value (tag 0) holding
/// big-endian seconds and nanoseconds.
#[derive(Clone, Copy, PartialEq, Eq, Structural, Debug)]
pub enum TimeFormat {
    Seconds,
    EventTime,
}

/// Big-endian bytes of a 16-bit value.
pub open spec fn be16(n: u16) -> Seq<u8> {
    seq![(n / 0x100) as u8, (n % 0x100) as u8]
}

/// Big-endian bytes of a 32-bit value.
pub open spec fn be32(n: u32) -> Seq<u8> {
    seq![
        (n / 0x100_0000) as u8,
        ((n / 0x1_0000) % 0x100) as u8,
        ((n / 0x100) % 0x100) as u8,
        (n % 0x100) as u8,
    ]
}

/// Big-endian bytes of a 64-bit value.
pub open spec fn be64(n: u64) -> Seq<u8> {
    seq![
        (n / 0x100_0000_0000_0000) as u8,
        ((n / 0x1_0000_0000_0000) % 0x100) as u8,
        ((n / 0x10_0000_0000) % 0x100) as u8,
        ((n / 0x1_0000_0000) % 0x100) as u8,
        ((n / 0x100_0000) % 0x100) as u8,
        ((n / 0x1_0000) % 0x100) as u8,
        ((n / 0x100) % 0x100) as u8,
        (n % 0x100) as u8,
    ]
}

/// Smallest unsigned-integer encoding of `v`.
pub open spec fn uint_bytes(v: u64) -> Seq<u8> {
    if v < 128 {
        seq![v as u8]
    } else if v < 0x100 {
        seq![0xccu8, v as u8]
    } else if v < 0x1_0000 {
        seq![0xcdu8] + be16(v as u16)
    } else if v < 0x1_0000_0000 {
        seq![0xceu8] + be32(v as u32)
    } else {
        seq![0xcfu8] + be64(v)
    }
}

/// The two's-complement bit pattern of `v` as an unsigned value.
pub open spec fn i64_bits(v: i64) -> u64 {
    if v >= 0 {
        v as u64
    } else {
        ((v as int) + 0x1_0000_0000_0000_0000) as u64
    }
}

/// Smallest signed-integer encoding of `v`; non-negative values use the
/// unsigned formats.
pub open spec fn sint_bytes(v: i64) -> Seq<u8> {
    let bits = i64_bits(v);
    if v >= 0 {
        uint_bytes(v as u64)
    } else if v >= -32 {
        seq![(bits % 0x100) as u8]
    } else if v >= -128 {
        seq![0xd0u8, (bits % 0x100) as u8]
    } else if v >= -32768 {
        seq![0xd1u8] + be16((bits % 0x1_0000) as u16)
    } else if v >= -2147483648 {
        seq![0xd2u8] + be32((bits % 0x1_0000_0000) as u32)
    } else {
        seq![0xd3u8] + be64(bits)
    }
}

/// Header introducing a string of `len` bytes.
pub open spec fn str_header(len: int) -> Seq<u8> {
    if len < 32 {
        seq![(0xa0 + len) as u8]
    } else if len < 0x100 {
        seq![0xd9u8, len as u8]
    } else if len < 0x1_0000 {
        seq![0xdau8] + be16(len as u16)
    } else {
        seq![0xdbu8] + be32(len as u32)
    }
}

/// A string value: header plus the UTF-8 bytes of its characters.
pub open spec fn str_bytes(s: Seq<char>) -> Seq<u8> {
    str_header(encode_utf8(s).len() as int) + encode_utf8(s)
}

/// A string fits on the wire when its byte length fits the widest header.
pub open spec fn str_encodable(s: Seq<char>) -> bool {
    encode_utf8(s).len() < 0x1_0000_0000
}

/// Header introducing a map of `len` key/value pairs.
pub open spec fn map_header(len: int) -> Seq<u8> {
    if len < 16 {
        seq![(0x80 + len) as u8]
    } else if len < 0x1_0000 {
        seq![0xdeu8] + be16(len as u16)
    } else {
        seq![0xdfu8] + be32(len as u32)
    }
}

/// Header introducing a sequence of `len` elements.
pub open spec fn array_header(len: int) -> Seq<u8> {
    if len < 16 {
        seq![(0x90 + len) as u8]
    } else if len < 0x1_0000 {
        seq![0xdcu8] + be16(len as u16)
    } else {
        seq![0xddu8] + be32(len as u32)
    }
}

fn push_be16(out: &mut Vec<u8>, n: u16)
    ensures
        final(out)@ == old(out)@ + be16(n),
{
    out.push((n / 0x100) as u8);
    out.push((n % 0x100) as u8);
    proof {
        assert(out@ =~= old(out)@ + be16(n));
    }
}

fn push_be32(out: &mut Vec<u8>, n: u32)
    ensures
        final(out)@ == old(out)@ + be32(n),
{
    out.push((n / 0x100_0000) as u8);
    out.push(((n / 0x1_0000) % 0x100) as u8);
    out.push(((n / 0x100) % 0x100) as u8);
    out.push((n % 0x100) as u8);
    proof {
        assert(out@ =~= old(out)@ + be32(n));
    }
}

fn push_be64(out: &mut Vec<u8>, n: u64)
    ensures
        final(out)@ == old(out)@ + be64(n),
{
    out.push((n / 0x100_0000_0000_0000) as u8);
    out.push(((n / 0x1_0000_0000_0000) % 0x100) as u8);
    out.push(((n / 0x10_0000_0000) % 0x100) as u8);
    out.push(((n / 0x1_0000_0000) % 0x100) as u8);
    out.push(((n / 0x100_0000) % 0x100) as u8);
    out.push(((n / 0x1_0000) % 0x100) as u8);
    out.push(((n / 0x100) % 0x100) as u8);
    out.push((n % 0x100) as u8);
    proof {
        assert(out@ =~= old(out)@ + be64(n));
    }
}

fn push_uint(out: &mut Vec<u8>, v: u64)
    ensures
        final(out)@ == old(out)@ + uint_bytes(v),
{
    if v < 128 {
        out.push(v as u8);
        proof {
            assert(out@ =~= old(out)@ + uint_bytes(v));
        }
    } else if v < 0x100 {
        out.push(0xcc);
        out.push(v as u8);
        proof {
            assert(out@ =~= old(out)@ + uint_bytes(v));
        }
    } else if v < 0x1_0000 {
        out.push(0xcd);
        push_be16(out, v as u16);
        proof {
            assert(out@ =~= old(out)@ + uint_bytes(v));
        }
    } else if v < 0x1_0000_0000 {
        out.push(0xce);
        push_be32(out, v as u32);
        proof {
            assert(out@ =~= old(out)@ + uint_bytes(v));
        }
    } else {
        out.push(0xcf);
        push_be64(out, v);
        proof {
            assert(out@ =~= old(out)@ + uint_bytes(v));
        }
    }
}

fn push_sint(out: &mut Vec<u8>, v: i64)
    ensures
        final(out)@ == old(out)@ + sint_bytes(v),
{
    if v >= 0 {
        push_uint(out, v as u64);
        return ;
    }
    let pos: u64 = (-(v + 1)) as u64;
    let bits: u64 = u64::MAX - pos;
    proof {
        assert(bits == i64_bits(v));
    }
    if v >= -32 {
        out.push((bits % 0x100) as u8);
        proof {
            assert(out@ =~= old(out)@ + sint_bytes(v));
        }
    } else if v >= -128 {
        out.push(0xd0);
        out.push((bits % 0x100) as u8);
        proof {
            assert(out@ =~= old(out)@ + sint_bytes(v));
        }
    } else if v >= -32768 {
        out.push(0xd1);
        push_be16(out, (bits % 0x1_0000) as u16);
        proof {
            assert(out@ =~= old(out)@ + sint_bytes(v));
        }
    } else if v >= -2147483648 {
        out.push(0xd2);
        push_be32(out, (bits % 0x1_0000_0000) as u32);
        proof {
            assert(out@ =~= old(out)@ + sint_bytes(v));
        }
    } else {
        out.push(0xd3);
        push_be64(out, bits);
        proof {
            assert(out@ =~= old(out)@ + sint_bytes(v));
        }
    }
}

fn push_str(out: &mut Vec<u8>, s: &str) -> (ok: bool)
    ensures
        ok == str_encodable(s@),
        ok ==> final(out)@ == old(out)@ + str_bytes(s@),
{
    let mut bytes = s.as_bytes_vec();
    let len: usize = bytes.len();
    let len64: u64 = len as u64;
    if len64 >= 0x1_0000_0000u64 {
        return false;
    }
    if len < 32 {
        out.push(0xa0 + len as u8);
    } else if len < 0x100 {
        out.push(0xd9);
        out.push(len as u8);
    } else if len < 0x1_0000 {
        out.push(0xda);
        push_be16(out, len as u16);
    } else {
        out.push(0xdb);
        push_be32(out, len as u32);
    }
    proof {
        assert(out@ =~= old(out)@ + str_header(encode_utf8(s@).len() as int));
    }
    out.append(&mut bytes);
    proof {
        assert(out@ =~= old(out)@ + str_bytes(s@));
    }
    true
}

fn push_map_header(out: &mut Vec<u8>, len: usize) -> (ok: bool)
    ensures
        ok == (len < 0x1_0000_0000),
        ok ==> final(out)@ == old(out)@ + map_header(len as int),
{
    let len64: u64 = len as u64;
    if len64 >= 0x1_0000_0000u64 {
        return false;
    }
    if len < 16 {
        out.push(0x80 + len as u8);
    } else if len < 0x1_0000 {
        out.push(0xde);
        push_be16(out, len as u16);
    } else {
        out.push(0xdf);
        push_be32(out, len as u32);
    }
    proof {
        assert(out@ =~= old(out)@ + map_header(len as int));
    }
    true
}

fn push_array_header(out: &mut Vec<u8>, len: usize) -> (ok: bool)
    ensures
        ok == (len < 0x1_0000_0000),
        ok ==> final(out)@ == old(out)@ + array_header(len as int),
{
    let len64: u64 = len as u64;
    if len64 >= 0x1_0000_0000u64 {
        return false;
    }
    if len < 16 {
        out.push(0x90 + len as u8);
    } else if len < 0x1_0000 {
        out.push(0xdc);
        push_be16(out, len as u16);
    } else {
        out.push(0xdd);
        push_be32(out, len as u32);
    }
    proof {
        assert(out@ =~= old(out)@ + array_header(len as int));
    }
    true
}

/// UTF-8 never takes more than four bytes per character.
pub proof fn lemma_encode_utf8_len(s: Seq<char>)
    ensures
        encode_utf8(s).len() <= 4 * s.len(),
    decreases s.len(),
{
    if s.len() > 0 {
        lemma_encode_utf8_len(s.drop_first());
    }
}

/// Every severity name is a short string and always fits on the wire.
pub proof fn lemma_severity_name_encodable(sev: Severity)
    ensures
        str_encodable(sev.name()),
{
    reveal_strlit("ERROR");
    reveal_strlit("WARN");
    reveal_strlit("INFO");
    reveal_strlit("DEBUG");
    reveal_strlit("TRACE");
    lemma_encode_utf8_len(sev.name());
}

/// The bytes of one field value.
pub open spec fn value_bytes(v: ValueView) -> Seq<u8>
    decreases v,
{
    match v {
        ValueView::Bool(b) => seq![if b { 0xc3u8 } else { 0xc2u8 }],
        ValueView::Int(i) => sint_bytes(i),
        ValueView::Uint(u) => uint_bytes(u),
        ValueView::Str(s) => str_bytes(s),
        ValueView::Severity(l) => str_bytes(l.name()),
        ValueView::Object(fs) => map_header(fs.len() as int) + pairs_bytes(fs),
    }
}

/// The bytes of a map's key/value pairs, in insertion order.
pub open spec fn pairs_bytes(fs: FieldsView) -> Seq<u8>
    decreases fs,
{
    if fs.len() == 0 {
        Seq::empty()
    } else {
        str_bytes(fs[0].0) + value_bytes(fs[0].1) + pairs_bytes(fs.drop_first())
    }
}

/// Whether a value fits on the wire (all lengths below the widest header).
pub open spec fn value_encodable(v: ValueView) -> bool
    decreases v,
{
    match v {
        ValueView::Bool(_) => true,
        ValueView::Int(_) => true,
        ValueView::Uint(_) => true,
        ValueView::Str(s) => str_encodable(s),
        ValueView::Severity(_) => true,
        ValueView::Object(fs) => fs.len() < 0x1_0000_0000 && pairs_encodable(fs),
    }
}

pub open spec fn pairs_encodable(fs: FieldsView) -> bool
    decreases fs,
{
    fs.len() == 0 || (str_encodable(fs[0].0) && value_encodable(fs[0].1) && pairs_encodable(
        fs.drop_first(),
    ))
}

/// Pointwise form of [`pairs_encodable`].
pub open spec fn pairs_all_encodable(fs: FieldsView) -> bool {
    forall|i: int|
        0 <= i < fs.len() ==> str_encodable((#[trigger] fs[i]).0) && value_encodable(fs[i].1)
}

pub proof fn lemma_pairs_encodable_index(fs: FieldsView)
    ensures
        pairs_encodable(fs) <==> pairs_all_encodable(fs),
    decreases fs.len(),
{
    if fs.len() > 0 {
        let rest = fs.drop_first();
        lemma_pairs_encodable_index(rest);
        assert(forall|i: int| 0 <= i < rest.len() ==> #[trigger] rest[i] == fs[i + 1]);
        if pairs_encodable(fs) {
            assert(pairs_encodable(rest));
            assert(pairs_all_encodable(rest));
            assert forall|i: int|
                0 <= i < fs.len() implies str_encodable((#[trigger] fs[i]).0) && value_encodable(
                fs[i].1,
            ) by {
                if i > 0 {
                    assert(rest[i - 1] == fs[i]);
                    assert(str_encodable(rest[i - 1].0) && value_encodable(rest[i - 1].1));
                }
            }
            assert(pairs_all_encodable(fs));
        }
        if pairs_all_encodable(fs) {
            assert(str_encodable(fs[0].0) && value_encodable(fs[0].1));
            assert forall|i: int|
                0 <= i < rest.len() implies str_encodable((#[trigger] rest[i]).0)
                && value_encodable(rest[i].1) by {
                assert(rest[i] == fs[i + 1]);
                assert(str_encodable(fs[i + 1].0) && value_encodable(fs[i + 1].1));
            }
            assert(pairs_all_encodable(rest));
            assert(pairs_encodable(rest));
            assert(pairs_encodable(fs));
        }
    }
}

/// Appending one pair appends its key and value bytes at the end.
pub proof fn lemma_pairs_bytes_snoc(fs: FieldsView, p: (Seq<char>, ValueView))
    ensures
        pairs_bytes(fs.push(p)) == pairs_bytes(fs) + (str_bytes(p.0) + value_bytes(p.1)),
    decreases fs.len(),
{
    if fs.len() == 0 {
        assert(fs.push(p)[0] == p);
        assert(fs.push(p).drop_first() =~= fs);
        assert(pairs_bytes(fs.push(p)) =~= pairs_bytes(fs) + (str_bytes(p.0) + value_bytes(p.1)));
    } else {
        assert(fs.push(p)[0] == fs[0]);
        assert(fs.push(p).drop_first() =~= fs.drop_first().push(p));
        lemma_pairs_bytes_snoc(fs.drop_first(), p);
        assert(pairs_bytes(fs.push(p)) =~= pairs_bytes(fs) + (str_bytes(p.0) + value_bytes(p.1)));
    }
}

fn push_value(out: &mut Vec<u8>, v: &Value) -> (ok: bool)
    ensures
        ok == value_encodable(v@),
        ok ==> final(out)@ == old(out)@ + value_bytes(v@),
    decreases v,
{
    match v {
        Value::Bool(b) => {
            out.push(if *b { 0xc3 } else { 0xc2 });
            proof {
                assert(out@ =~= old(out)@ + value_bytes(v@));
            }
            true
        },
        Value::Int(i) => {
            push_sint(out, *i);
            true
        },
        Value::Uint(u) => {
            push_uint(out, *u);
            true
        },
        Value::Str(s) => push_str(out, s.as_str()),
        Value::Severity(l) => {
            proof {
                lemma_severity_name_encodable(*l);
            }
            let ok = push_str(out, l.as_str());
            ok
        },
        Value::Object(m) => {
            proof {
                lemma_entries_view_index(m.entries@);
            }
            let n = m.entries.len();
            if !push_map_header(out, n) {
                return false;
            }
            let ok = push_pairs(out, &m.entries);
            proof {
                if ok {
                    assert(out@ =~= old(out)@ + value_bytes(v@));
                }
            }
            ok
        },
    }
}

#[verifier::rlimit(50)]
fn push_pairs(out: &mut Vec<u8>, entries: &Vec<(String, Value)>) -> (ok: bool)
    ensures
        ok == pairs_encodable(entries_view(entries@)),
        ok ==> final(out)@ == old(out)@ + pairs_bytes(entries_view(entries@)),
    decreases entries,
{
    let ghost fs = entries_view(entries@);
    proof {
        lemma_entries_view_index(entries@);
        lemma_pairs_encodable_index(fs);
    }
    let n = entries.len();
    let mut i: usize = 0;
    while i < n
        invariant
            n == entries.len(),
            i <= n,
            fs == entries_view(entries@),
            fs.len() == n,
            forall|j: int|
                0 <= j < n ==> fs[j] == (entries@[j].0@, value_view(entries@[j].1)),
            out@ == old(out)@ + pairs_bytes(fs.take(i as int)),
            forall|j: int|
                0 <= j < i ==> str_encodable((#[trigger] fs[j]).0) && value_encodable(fs[j].1),
        decreases n - i,
    {
        proof {
            lemma_pairs_bytes_snoc(fs.take(i as int), fs[i as int]);
            assert(fs.take(i as int + 1) =~= fs.take(i as int).push(fs[i as int]));
        }
        let pair = &entries[i];
        let ok1 = push_str(out, pair.0.as_str());
        if !ok1 {
            proof {
                lemma_pairs_encodable_index(fs);
                assert(!(str_encodable(fs[i as int].0) && value_encodable(fs[i as int].1)));
                assert(!pairs_all_encodable(fs));
            }
            return false;
        }
        let ok2 = push_value(out, &pair.1);
        if !ok2 {
            proof {
                lemma_pairs_encodable_index(fs);
                assert(!(str_encodable(fs[i as int].0) && value_encodable(fs[i as int].1)));
                assert(!pairs_all_encodable(fs));
            }
            return false;
        }
        proof {
            assert(str_encodable(fs[i as int].0));
            assert(value_encodable(fs[i as int].1));
            assert(out@ =~= old(out)@ + pairs_bytes(fs.take(i as int + 1)));
        }
        i += 1;
    }
    proof {
        assert(fs.take(n as int) =~= fs);
        assert(pairs_all_encodable(fs));
        lemma_pairs_encodable_index(fs);
    }
    true
}

/// The timestamp bytes of one record.
pub open spec fn time_bytes(secs: u64, nanos: u32, fmt: TimeFormat) -> Seq<u8> {
    match fmt {
        TimeFormat::Seconds => uint_bytes(secs),
        TimeFormat::EventTime => seq![0xd7u8, 0x00u8] + be32((secs % 0x1_0000_0000) as u32)
            + be32(nanos),
    }
}

/// One record: a two-element sequence of timestamp and field map.
pub open spec fn record_bytes(r: RecordView, fmt: TimeFormat) -> Seq<u8> {
    seq![0x92u8] + time_bytes(r.secs, r.nanos, fmt) + map_header(r.entries.len() as int)
        + pairs_bytes(r.entries)
}

pub open spec fn record_encodable(r: RecordView) -> bool {
    r.entries.len() < 0x1_0000_0000 && pairs_encodable(r.entries)
}

fn push_record(out: &mut Vec<u8>, r: &Record, fmt: TimeFormat) -> (ok: bool)
    ensures
        ok == record_encodable(r@),
        ok ==> final(out)@ == old(out)@ + record_bytes(r@, fmt),
{
    out.push(0x92);
    match fmt {
        TimeFormat::Seconds => {
            push_uint(out, r.secs);
        },
        TimeFormat::EventTime => {
            out.push(0xd7);
            out.push(0x00);
            push_be32(out, (r.secs % 0x1_0000_0000) as u32);
            push_be32(out, r.nanos);
        },
    }
    proof {
        assert(out@ =~= old(out)@ + seq![0x92u8] + time_bytes(r@.secs, r@.nanos, fmt));
        lemma_entries_view_index(r.entries.entries@);
    }
    let n = r.entries.entries.len();
    if !push_map_header(out, n) {
        return false;
    }
    let ok = push_pairs(out, &r.entries.entries);
    proof {
        if ok {
            assert(out@ =~= old(out)@ + record_bytes(r@, fmt));
        }
    }
    ok
}

/// The records of a batch, one after another in batch order.
pub open spec fn records_bytes(rs: Seq<RecordView>, fmt: TimeFormat) -> Seq<u8>
    decreases rs.len(),
{
    if rs.len() == 0 {
        Seq::empty()
    } else {
        record_bytes(rs[0], fmt) + records_bytes(rs.drop_first(), fmt)
    }
}

pub open spec fn records_encodable(rs: Seq<RecordView>) -> bool
    decreases rs.len(),
{
    rs.len() == 0 || (record_encodable(rs[0]) && records_encodable(rs.drop_first()))
}

/// Pointwise form of [`records_encodable`].
pub open spec fn records_all_encodable(rs: Seq<RecordView>) -> bool {
    forall|i: int| 0 <= i < rs.len() ==> record_encodable(#[trigger] rs[i])
}

pub proof fn lemma_records_encodable_index(rs: Seq<RecordView>)
    ensures
        records_encodable(rs) <==> records_all_encodable(rs),
    decreases rs.len(),
{
    if rs.len() > 0 {
        let rest = rs.drop_first();
        lemma_records_encodable_index(rest);
        assert(forall|i: int| 0 <= i < rest.len() ==> #[trigger] rest[i] == rs[i + 1]);
        if records_encodable(rs) {
            assert forall|i: int| 0 <= i < rs.len() implies record_encodable(#[trigger] rs[i]) by {
                if i > 0 {
                    assert(rest[i - 1] == rs[i]);
                    assert(record_encodable(rest[i - 1]));
                }
            }
            assert(records_all_encodable(rs));
        }
        if records_all_encodable(rs) {
            assert(record_encodable(rs[0]));
            assert forall|i: int| 0 <= i < rest.len() implies record_encodable(
                #[trigger] rest[i],
            ) by {
                assert(rest[i] == rs[i + 1]);
                assert(record_encodable(rs[i + 1]));
            }
            assert(records_all_encodable(rest));
            assert(records_encodable(rest));
            assert(records_encodable(rs));
        }
    }
}

/// Appending one record appends its bytes at the end: batch order is wire
/// order.
pub proof fn lemma_records_bytes_snoc(rs: Seq<RecordView>, r: RecordView, fmt: TimeFormat)
    ensures
        records_bytes(rs.push(r), fmt) == records_bytes(rs, fmt) + record_bytes(r, fmt),
    decreases rs.len(),
{
    if rs.len() == 0 {
        assert(rs.push(r)[0] == r);
        assert(rs.push(r).drop_first() =~= rs);
        assert(records_bytes(rs.push(r), fmt) =~= records_bytes(rs, fmt) + record_bytes(r, fmt));
    } else {
        assert(rs.push(r)[0] == rs[0]);
        assert(rs.push(r).drop_first() =~= rs.drop_first().push(r));
        lemma_records_bytes_snoc(rs.drop_first(), r, fmt);
        assert(records_bytes(rs.push(r), fmt) =~= records_bytes(rs, fmt) + record_bytes(r, fmt));
    }
}

/// One batch: a three-element sequence of tag, records, and the options map
/// holding the record count under the key `size`.
pub open spec fn message_bytes(m: MessageView, fmt: TimeFormat) -> Seq<u8> {
    seq![0x93u8] + str_bytes(m.tag) + array_header(m.records.len() as int) + records_bytes(
        m.records,
        fmt,
    ) + map_header(1) + str_bytes("size"@) + uint_bytes(m.records.len() as u64)
}

pub open spec fn message_encodable(m: MessageView) -> bool {
    str_encodable(m.tag) && m.records.len() < 0x1_0000_0000 && records_encodable(m.records)
}

/// Serializes a whole batch. Returns the exact wire bytes, or nothing when
/// some length in the batch exceeds the widest wire header (and only then).
pub fn encode_message(m: &Message, fmt: TimeFormat) -> (r: Option<Vec<u8>>)
    requires
        m.wf(),
    ensures
        r matches Some(b) ==> message_encodable(m@) && b@ == message_bytes(m@, fmt),
        (r is None) == !message_encodable(m@),
{
    let mut out: Vec<u8> = Vec::new();
    out.push(0x93);
    if !push_str(&mut out, m.tag) {
        return None;
    }
    let n = m.entries.len();
    if !push_array_header(&mut out, n) {
        return None;
    }
    let ghost rs = m@.records;
    proof {
        lemma_records_encodable_index(rs);
        assert(out@ =~= seq![0x93u8] + str_bytes(m@.tag) + array_header(rs.len() as int));
    }
    let ghost header = out@;
    let mut i: usize = 0;
    while i < n
        invariant
            n == m.entries.len(),
            i <= n,
            rs == m@.records,
            rs.len() == n,
            forall|j: int| 0 <= j < n ==> rs[j] == #[trigger] m.entries@[j]@,
            out@ == header + records_bytes(rs.take(i as int), fmt),
            forall|j: int| 0 <= j < i ==> record_encodable(#[trigger] rs[j]),
        decreases n - i,
    {
        proof {
            lemma_records_bytes_snoc(rs.take(i as int), rs[i as int], fmt);
            assert(rs.take(i as int + 1) =~= rs.take(i as int).push(rs[i as int]));
        }
        let ok = push_record(&mut out, &m.entries[i], fmt);
        if !ok {
            proof {
                lemma_records_encodable_index(rs);
                assert(!record_encodable(rs[i as int]));
                assert(!records_all_encodable(rs));
            }
            return None;
        }
        i += 1;
    }
    proof {
        assert(rs.take(n as int) =~= rs);
        assert(records_all_encodable(rs));
        lemma_records_encodable_index(rs);
        reveal_strlit("size");
        lemma_encode_utf8_len("size"@);
    }
    let ok_opts = push_map_header(&mut out, 1);
    let ok_size = push_str(&mut out, "size");
    push_uint(&mut out, n as u64);
    proof {
        assert(ok_opts && ok_size);
        assert(out@ =~= message_bytes(m@, fmt));
    }
    Some(out)
}

} // verus!
