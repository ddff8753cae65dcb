use vstd::prelude::*;
use vstd::utf8::{decode_utf8, encode_utf8, valid_utf8, encode_utf8_decode_utf8, encode_utf8_valid_utf8};
use crate::engine::Measurement;
use crate::results::{CellFailure, Entry, Outcome, ResultSet, key_of, recorded};

verus! {

/// An entry as the encoding sees it: benchmark name, backend identity, and
/// either the raw samples with the sync flag or the failure.
pub type EntryView = (Seq<char>, Seq<char>, Result<(Seq<u64>, bool), CellFailure>);

/// A result set as the encoding sees it: timestamp, host, git revision, entries.
pub type ResultSetView = (u64, Seq<char>, Seq<char>, Seq<EntryView>);

pub open spec fn entry_view(e: Entry) -> EntryView {
    (e.spec_name@, e.backend_id@, match e.outcome {
        Outcome::Succeeded(m) => Ok((m.durations@, m.device_sync_included)),
        Outcome::Failed(f) => Err(f),
    })
}

pub open spec fn result_set_view(rs: ResultSet) -> ResultSetView {
    (rs.timestamp, rs.host@, rs.git_revision@, rs.entries@.map_values(|e: Entry| entry_view(e)))
}

/// Eight bytes, least significant first.
pub open spec fn encode_u64(x: u64) -> Seq<u8> {
    seq![
        x as u8,
        (x >> 8u64) as u8,
        (x >> 16u64) as u8,
        (x >> 24u64) as u8,
        (x >> 32u64) as u8,
        (x >> 40u64) as u8,
        (x >> 48u64) as u8,
        (x >> 56u64) as u8,
    ]
}

/// The number that eight bytes, least significant first, stand for.
pub open spec fn decode_u64(b: Seq<u8>) -> u64 {
    (b[0] as u64) | ((b[1] as u64) << 8u64) | ((b[2] as u64) << 16u64) | ((b[3] as u64) << 24u64)
        | ((b[4] as u64) << 32u64) | ((b[5] as u64) << 40u64) | ((b[6] as u64) << 48u64) | ((
    b[7] as u64) << 56u64)
}

/// A string: the length of its UTF-8 form, then that form.
pub open spec fn encode_str(s: Seq<char>) -> Seq<u8> {
    encode_u64(encode_utf8(s).len() as u64) + encode_utf8(s)
}

pub open spec fn encode_u64s(xs: Seq<u64>) -> Seq<u8>
    decreases xs.len(),
{
    if xs.len() == 0 {
        Seq::empty()
    } else {
        encode_u64(xs[0]) + encode_u64s(xs.skip(1))
    }
}

pub open spec fn failure_code(f: CellFailure) -> u8 {
    match f {
        CellFailure::ContractViolation => 0,
        CellFailure::PreparationFailure => 1,
        CellFailure::ExecutionFailure => 2,
        CellFailure::IsolationFailure => 3,
        CellFailure::SerializationFailure => 4,
        CellFailure::Cancelled => 5,
    }
}

pub open spec fn failure_of_code(c: u8) -> Option<CellFailure> {
    if c == 0 {
        Some(CellFailure::ContractViolation)
    } else if c == 1 {
        Some(CellFailure::PreparationFailure)
    } else if c == 2 {
        Some(CellFailure::ExecutionFailure)
    } else if c == 3 {
        Some(CellFailure::IsolationFailure)
    } else if c == 4 {
        Some(CellFailure::SerializationFailure)
    } else if c == 5 {
        Some(CellFailure::Cancelled)
    } else {
        None
    }
}

/// An entry: name, backend, then tag 0 with the sync flag, the sample count
/// and the samples, or tag 1 with the failure code.
pub open spec fn encode_entry(e: EntryView) -> Seq<u8> {
    encode_str(e.0) + encode_str(e.1) + match e.2 {
        Ok((ds, sync)) => seq![0u8, if sync { 1u8 } else { 0u8 }] + encode_u64(ds.len() as u64)
            + encode_u64s(ds),
        Err(f) => seq![1u8, failure_code(f)],
    }
}

pub open spec fn encode_entries(es: Seq<EntryView>) -> Seq<u8>
    decreases es.len(),
{
    if es.len() == 0 {
        Seq::empty()
    } else {
        encode_entry(es[0]) + encode_entries(es.skip(1))
    }
}

/// A result set: timestamp, host, git revision, entry count, entries.
pub open spec fn encode_result_set(v: ResultSetView) -> Seq<u8> {
    encode_u64(v.0) + encode_str(v.1) + encode_str(v.2) + encode_u64(v.3.len() as u64)
        + encode_entries(v.3)
}

pub open spec fn parse_u64(b: Seq<u8>, pos: int) -> Option<(u64, int)> {
    if 0 <= pos && pos + 8 <= b.len() {
        Some((decode_u64(b.subrange(pos, pos + 8)), pos + 8))
    } else {
        None
    }
}

pub open spec fn parse_str(b: Seq<u8>, pos: int) -> Option<(Seq<char>, int)> {
    match parse_u64(b, pos) {
        Some((n, p)) => if p + n <= b.len() && valid_utf8(b.subrange(p, p + n)) {
            Some((decode_utf8(b.subrange(p, p + n)), p + n))
        } else {
            None
        },
        None => None,
    }
}

pub open spec fn parse_u64s(b: Seq<u8>, pos: int, count: nat) -> Option<(Seq<u64>, int)>
    decreases count,
{
    if count == 0 {
        Some((Seq::empty(), pos))
    } else {
        match parse_u64(b, pos) {
            Some((x, p)) => match parse_u64s(b, p, (count - 1) as nat) {
                Some((xs, q)) => Some((seq![x] + xs, q)),
                None => None,
            },
            None => None,
        }
    }
}

pub open spec fn parse_outcome(b: Seq<u8>, pos: int) -> Option<(Result<(Seq<u64>, bool), CellFailure>, int)> {
    if 0 <= pos && pos + 2 <= b.len() {
        if b[pos] == 0 && (b[pos + 1] == 0 || b[pos + 1] == 1) {
            match parse_u64(b, pos + 2) {
                Some((n, p)) => match parse_u64s(b, p, n as nat) {
                    Some((ds, q)) => Some((Ok((ds, b[pos + 1] == 1)), q)),
                    None => None,
                },
                None => None,
            }
        } else if b[pos] == 1 && failure_of_code(b[pos + 1]) is Some {
            Some((Err(failure_of_code(b[pos + 1]).unwrap()), pos + 2))
        } else {
            None
        }
    } else {
        None
    }
}

pub open spec fn parse_entry(b: Seq<u8>, pos: int) -> Option<(EntryView, int)> {
    match parse_str(b, pos) {
        Some((name, p1)) => match parse_str(b, p1) {
            Some((backend, p2)) => match parse_outcome(b, p2) {
                Some((o, p3)) => Some(((name, backend, o), p3)),
                None => None,
            },
            None => None,
        },
        None => None,
    }
}

pub open spec fn parse_entries(b: Seq<u8>, pos: int, count: nat) -> Option<(Seq<EntryView>, int)>
    decreases count,
{
    if count == 0 {
        Some((Seq::empty(), pos))
    } else {
        match parse_entry(b, pos) {
            Some((e, p)) => match parse_entries(b, p, (count - 1) as nat) {
                Some((es, q)) => Some((seq![e] + es, q)),
                None => None,
            },
            None => None,
        }
    }
}

/// No two entries share a benchmark name and backend identity.
pub open spec fn view_keys_unique(es: Seq<EntryView>) -> bool {
    forall|i: int, j: int|
        0 <= i < es.len() && 0 <= j < es.len() && i != j ==> ((#[trigger] es[i]).0, es[i].1) != (
        (#[trigger] es[j]).0,
        es[j].1,
    )
}

/// The result set with the given metadata whose entries were parsed as
/// `entries`, if they end exactly at `end`.
pub open spec fn complete_at(
    end: int,
    ts: u64,
    host: Seq<char>,
    git: Seq<char>,
    entries: Option<(Seq<EntryView>, int)>,
) -> Option<ResultSetView> {
    match entries {
        Some((es, p)) => if p == end {
            Some((ts, host, git, es))
        } else {
            None
        },
        None => None,
    }
}

/// The result set that the bytes encode, if they encode one entirely.
pub open spec fn parse_result_set(b: Seq<u8>) -> Option<ResultSetView> {
    match parse_u64(b, 0) {
        Some((ts, p1)) => match parse_str(b, p1) {
            Some((host, p2)) => match parse_str(b, p2) {
                Some((git, p3)) => match parse_u64(b, p3) {
                    Some((n, p4)) => match parse_entries(b, p4, n as nat) {
                        Some((es, p5)) => if p5 == b.len() {
                            Some((ts, host, git, es))
                        } else {
                            None
                        },
                        None => None,
                    },
                    None => None,
                },
                None => None,
            },
            None => None,
        },
        None => None,
    }
}


/// `s` stands in `b` at `pos`.
pub open spec fn holds_at(b: Seq<u8>, pos: int, s: Seq<u8>) -> bool {
    &&& 0 <= pos
    &&& pos + s.len() <= b.len()
    &&& b.subrange(pos, pos + s.len()) == s
}

/// Every length that the encoding writes fits its eight bytes.
pub open spec fn str_fits(s: Seq<char>) -> bool {
    encode_utf8(s).len() <= u64::MAX
}

pub open spec fn entry_fits(e: EntryView) -> bool {
    &&& str_fits(e.0)
    &&& str_fits(e.1)
    &&& (e.2 matches Ok((ds, _)) ==> ds.len() <= u64::MAX)
}

pub open spec fn view_fits(v: ResultSetView) -> bool {
    &&& str_fits(v.1)
    &&& str_fits(v.2)
    &&& v.3.len() <= u64::MAX
    &&& forall|i: int| 0 <= i < v.3.len() ==> entry_fits(#[trigger] v.3[i])
}

proof fn lemma_holds_at_split(b: Seq<u8>, pos: int, s1: Seq<u8>, s2: Seq<u8>)
    requires
        holds_at(b, pos, s1 + s2),
    ensures
        holds_at(b, pos, s1),
        holds_at(b, pos + s1.len(), s2),
{
    let whole = b.subrange(pos, pos + s1.len() + s2.len());
    assert(whole == s1 + s2);
    assert(b.subrange(pos, pos + s1.len()) =~= whole.subrange(0, s1.len() as int));
    assert((s1 + s2).subrange(0, s1.len() as int) =~= s1);
    assert(b.subrange(pos + s1.len(), pos + s1.len() + s2.len()) =~= whole.subrange(
        s1.len() as int,
        (s1.len() + s2.len()) as int,
    ));
    assert((s1 + s2).subrange(s1.len() as int, (s1.len() + s2.len()) as int) =~= s2);
}

proof fn lemma_u64_round_trip(x: u64)
    ensures
        decode_u64(encode_u64(x)) == x,
{
    let e = encode_u64(x);
    assert(decode_u64(e) == ((x as u8) as u64) | ((((x >> 8u64) as u8) as u64) << 8u64) | ((((x
        >> 16u64) as u8) as u64) << 16u64) | ((((x >> 24u64) as u8) as u64) << 24u64) | ((((x
        >> 32u64) as u8) as u64) << 32u64) | ((((x >> 40u64) as u8) as u64) << 40u64) | ((((x
        >> 48u64) as u8) as u64) << 48u64) | ((((x >> 56u64) as u8) as u64) << 56u64));
    assert(((x as u8) as u64) | ((((x >> 8u64) as u8) as u64) << 8u64) | ((((x >> 16u64) as u8)
        as u64) << 16u64) | ((((x >> 24u64) as u8) as u64) << 24u64) | ((((x >> 32u64) as u8)
        as u64) << 32u64) | ((((x >> 40u64) as u8) as u64) << 40u64) | ((((x >> 48u64) as u8)
        as u64) << 48u64) | ((((x >> 56u64) as u8) as u64) << 56u64) == x) by (bit_vector);
}

proof fn lemma_parse_u64(b: Seq<u8>, pos: int, x: u64)
    requires
        holds_at(b, pos, encode_u64(x)),
    ensures
        parse_u64(b, pos) == Some((x, pos + 8)),
{
    lemma_u64_round_trip(x);
}

proof fn lemma_parse_str(b: Seq<u8>, pos: int, s: Seq<char>)
    requires
        holds_at(b, pos, encode_str(s)),
        str_fits(s),
    ensures
        parse_str(b, pos) == Some((s, pos + encode_str(s).len())),
{
    let u = encode_utf8(s);
    lemma_holds_at_split(b, pos, encode_u64(u.len() as u64), u);
    lemma_parse_u64(b, pos, u.len() as u64);
    encode_utf8_valid_utf8(s);
    encode_utf8_decode_utf8(s);
}

proof fn lemma_parse_u64s(b: Seq<u8>, pos: int, xs: Seq<u64>)
    requires
        holds_at(b, pos, encode_u64s(xs)),
    ensures
        parse_u64s(b, pos, xs.len()) == Some((xs, pos + encode_u64s(xs).len())),
    decreases xs.len(),
{
    if xs.len() > 0 {
        lemma_holds_at_split(b, pos, encode_u64(xs[0]), encode_u64s(xs.skip(1)));
        lemma_parse_u64(b, pos, xs[0]);
        lemma_parse_u64s(b, pos + 8, xs.skip(1));
        assert(seq![xs[0]] + xs.skip(1) =~= xs);
    }
}

proof fn lemma_parse_entry(b: Seq<u8>, pos: int, e: EntryView)
    requires
        holds_at(b, pos, encode_entry(e)),
        entry_fits(e),
    ensures
        parse_entry(b, pos) == Some((e, pos + encode_entry(e).len())),
{
    let tail = match e.2 {
        Ok((ds, sync)) => seq![0u8, if sync { 1u8 } else { 0u8 }] + encode_u64(ds.len() as u64)
            + encode_u64s(ds),
        Err(f) => seq![1u8, failure_code(f)],
    };
    assert(encode_entry(e) == encode_str(e.0) + encode_str(e.1) + tail);
    lemma_holds_at_split(b, pos, encode_str(e.0) + encode_str(e.1), tail);
    lemma_holds_at_split(b, pos, encode_str(e.0), encode_str(e.1));
    lemma_parse_str(b, pos, e.0);
    let p1: int = pos + encode_str(e.0).len();
    lemma_parse_str(b, p1, e.1);
    let p2: int = p1 + encode_str(e.1).len();
    match e.2 {
        Ok((ds, sync)) => {
            let head = seq![0u8, if sync { 1u8 } else { 0u8 }];
            lemma_holds_at_split(b, p2, head + encode_u64(ds.len() as u64), encode_u64s(ds));
            lemma_holds_at_split(b, p2, head, encode_u64(ds.len() as u64));
            assert(b[p2] == head[0]) by {
                assert(b.subrange(p2, p2 + 2)[0] == b[p2]);
            }
            assert(b[p2 + 1] == head[1]) by {
                assert(b.subrange(p2, p2 + 2)[1] == b[p2 + 1]);
            }
            lemma_parse_u64(b, p2 + 2, ds.len() as u64);
            lemma_parse_u64s(b, p2 + 10, ds);
        },
        Err(f) => {
            assert(b[p2] == tail[0]) by {
                assert(b.subrange(p2, p2 + 2)[0] == b[p2]);
            }
            assert(b[p2 + 1] == tail[1]) by {
                assert(b.subrange(p2, p2 + 2)[1] == b[p2 + 1]);
            }
        },
    }
}

proof fn lemma_parse_entries(b: Seq<u8>, pos: int, es: Seq<EntryView>)
    requires
        holds_at(b, pos, encode_entries(es)),
        forall|i: int| 0 <= i < es.len() ==> entry_fits(#[trigger] es[i]),
    ensures
        parse_entries(b, pos, es.len()) == Some((es, pos + encode_entries(es).len())),
    decreases es.len(),
{
    if es.len() > 0 {
        lemma_holds_at_split(b, pos, encode_entry(es[0]), encode_entries(es.skip(1)));
        lemma_parse_entry(b, pos, es[0]);
        assert forall|i: int| 0 <= i < es.skip(1).len() implies entry_fits(#[trigger] es.skip(1)[i]) by {
            assert(es.skip(1)[i] == es[i + 1]);
        }
        lemma_parse_entries(b, pos + encode_entry(es[0]).len() as int, es.skip(1));
        assert(seq![es[0]] + es.skip(1) =~= es);
    }
}

proof fn lemma_parse_fields(b: Seq<u8>, v: ResultSetView)
    requires
        view_fits(v),
        holds_at(b, 0, encode_u64(v.0)),
        holds_at(b, 8, encode_str(v.1)),
        holds_at(b, 8 + encode_str(v.1).len() as int, encode_str(v.2)),
        holds_at(b, 8 + encode_str(v.1).len() as int + encode_str(v.2).len() as int, encode_u64(v.3.len() as u64)),
        holds_at(b, 16 + encode_str(v.1).len() as int + encode_str(v.2).len() as int, encode_entries(v.3)),
        b.len() == 16 + encode_str(v.1).len() as int + encode_str(v.2).len() + encode_entries(v.3).len(),
    ensures
        parse_result_set(b) == Some(v),
{
    let p2: int = 8 + encode_str(v.1).len() as int;
    let p3: int = p2 + encode_str(v.2).len() as int;
    let p4: int = p3 + 8;
    lemma_parse_u64(b, 0, v.0);
    lemma_parse_str(b, 8, v.1);
    lemma_parse_str(b, p2, v.2);
    lemma_parse_u64(b, p3, v.3.len() as u64);
    lemma_parse_entries(b, p4, v.3);
}

proof fn lemma_parse_result_set(v: ResultSetView)
    requires
        view_fits(v),
    ensures
        parse_result_set(encode_result_set(v)) == Some(v),
{
    let b = encode_result_set(v);
    let s1 = encode_u64(v.0);
    let s2 = encode_str(v.1);
    let s3 = encode_str(v.2);
    let s4 = encode_u64(v.3.len() as u64);
    let s5 = encode_entries(v.3);
    assert(b.subrange(0, b.len() as int) =~= b);
    lemma_holds_at_split(b, 0, s1 + s2 + s3 + s4, s5);
    lemma_holds_at_split(b, 0, s1 + s2 + s3, s4);
    lemma_holds_at_split(b, 0, s1 + s2, s3);
    lemma_holds_at_split(b, 0, s1, s2);
    lemma_parse_fields(b, v);
}

/// Decoding the encoding of a well-formed result set gives back the same
/// result set: the same metadata and, entry by entry and in the same order,
/// the same keys, the same failures and the same duration samples.
pub proof fn lemma_round_trip(rs: ResultSet)
    requires
        rs.wf(),
        view_fits(result_set_view(rs)),
    ensures
        parse_result_set(encode_result_set(result_set_view(rs))) == Some(result_set_view(rs)),
        view_keys_unique(result_set_view(rs).3),
{
    lemma_parse_result_set(result_set_view(rs));
    lemma_view_keys_unique(rs);
}

proof fn lemma_view_keys_unique(rs: ResultSet)
    requires
        rs.wf(),
    ensures
        view_keys_unique(result_set_view(rs).3),
{
    let v = result_set_view(rs);
    assert forall|i: int, j: int|
        0 <= i < v.3.len() && 0 <= j < v.3.len() && i != j implies ((#[trigger] v.3[i]).0, v.3[i].1) != (
        (#[trigger] v.3[j]).0,
        v.3[j].1,
    ) by {
        assert(key_of(rs.entries@[i]) != key_of(rs.entries@[j]));
    }
}

proof fn lemma_encode_u64s_push(xs: Seq<u64>, x: u64)
    ensures
        encode_u64s(xs.push(x)) == encode_u64s(xs) + encode_u64(x),
    decreases xs.len(),
{
    if xs.len() == 0 {
        assert(xs.push(x).skip(1) =~= Seq::<u64>::empty());
        assert(encode_u64s(Seq::<u64>::empty()) == Seq::<u8>::empty());
        assert(xs.push(x)[0] == x);
        assert(encode_u64s(xs.push(x)) == encode_u64(x) + encode_u64s(xs.push(x).skip(1)));
        assert(encode_u64s(xs.push(x)) =~= encode_u64s(xs) + encode_u64(x));
    } else {
        assert(xs.push(x).skip(1) =~= xs.skip(1).push(x));
        lemma_encode_u64s_push(xs.skip(1), x);
        assert(encode_u64s(xs.push(x)) =~= encode_u64s(xs) + encode_u64(x));
    }
}

proof fn lemma_encode_entries_push(es: Seq<EntryView>, e: EntryView)
    ensures
        encode_entries(es.push(e)) == encode_entries(es) + encode_entry(e),
    decreases es.len(),
{
    if es.len() == 0 {
        assert(es.push(e).skip(1) =~= Seq::<EntryView>::empty());
        assert(encode_entries(Seq::<EntryView>::empty()) == Seq::<u8>::empty());
        assert(es.push(e)[0] == e);
        assert(encode_entries(es.push(e)) == encode_entry(e) + encode_entries(es.push(e).skip(1)));
        assert(encode_entries(es.push(e)) =~= encode_entries(es) + encode_entry(e));
    } else {
        assert(es.push(e).skip(1) =~= es.skip(1).push(e));
        lemma_encode_entries_push(es.skip(1), e);
        assert(encode_entries(es.push(e)) =~= encode_entries(es) + encode_entry(e));
    }
}

fn put_u64(out: &mut Vec<u8>, x: u64)
    ensures
        final(out)@ == old(out)@ + encode_u64(x),
{
    out.push(x as u8);
    out.push((x >> 8u64) as u8);
    out.push((x >> 16u64) as u8);
    out.push((x >> 24u64) as u8);
    out.push((x >> 32u64) as u8);
    out.push((x >> 40u64) as u8);
    out.push((x >> 48u64) as u8);
    out.push((x >> 56u64) as u8);
    assert(out@ =~= old(out)@ + encode_u64(x));
}

fn put_bytes(out: &mut Vec<u8>, bytes: &[u8])
    ensures
        final(out)@ == old(out)@ + bytes@,
{
    let mut i: usize = 0;
    while i < bytes.len()
        invariant
            i <= bytes@.len(),
            out@ == old(out)@ + bytes@.take(i as int),
        decreases bytes@.len() - i,
    {
        out.push(bytes[i]);
        assert(bytes@.take(i as int + 1) =~= bytes@.take(i as int).push(bytes@[i as int]));
        i = i + 1;
    }
    assert(bytes@.take(bytes@.len() as int) =~= bytes@);
}

fn put_str(out: &mut Vec<u8>, s: &str)
    ensures
        final(out)@ == old(out)@ + encode_str(s@),
{
    let bytes = s.as_bytes();
    put_u64(out, bytes.len() as u64);
    put_bytes(out, bytes);
    assert(out@ =~= old(out)@ + encode_str(s@));
}

fn put_u64s(out: &mut Vec<u8>, xs: &Vec<u64>)
    ensures
        final(out)@ == old(out)@ + encode_u64s(xs@),
{
    let mut i: usize = 0;
    while i < xs.len()
        invariant
            i <= xs@.len(),
            out@ == old(out)@ + encode_u64s(xs@.take(i as int)),
        decreases xs@.len() - i,
    {
        put_u64(out, xs[i]);
        proof {
            assert(xs@.take(i as int + 1) =~= xs@.take(i as int).push(xs@[i as int]));
            lemma_encode_u64s_push(xs@.take(i as int), xs@[i as int]);
        }
        assert(out@ =~= old(out)@ + encode_u64s(xs@.take(i as int + 1)));
        i = i + 1;
    }
    assert(xs@.take(xs@.len() as int) =~= xs@);
}

fn failure_to_code(f: CellFailure) -> (r: u8)
    ensures
        r == failure_code(f),
{
    match f {
        CellFailure::ContractViolation => 0,
        CellFailure::PreparationFailure => 1,
        CellFailure::ExecutionFailure => 2,
        CellFailure::IsolationFailure => 3,
        CellFailure::SerializationFailure => 4,
        CellFailure::Cancelled => 5,
    }
}

fn put_entry(out: &mut Vec<u8>, e: &Entry)
    ensures
        final(out)@ == old(out)@ + encode_entry(entry_view(*e)),
{
    put_str(out, e.spec_name.as_str());
    put_str(out, e.backend_id.as_str());
    match &e.outcome {
        Outcome::Succeeded(m) => {
            out.push(0u8);
            out.push(if m.device_sync_included { 1u8 } else { 0u8 });
            put_u64(out, m.durations.len() as u64);
            put_u64s(out, &m.durations);
        },
        Outcome::Failed(f) => {
            out.push(1u8);
            out.push(failure_to_code(*f));
        },
    }
    assert(out@ =~= old(out)@ + encode_entry(entry_view(*e)));
}

/// Encodes a result set: its metadata, then every entry with its raw duration
/// samples in order.
pub fn serialize(rs: &ResultSet) -> (r: Vec<u8>)
    ensures
        r@ == encode_result_set(result_set_view(*rs)),
{
    let mut out: Vec<u8> = Vec::new();
    put_u64(&mut out, rs.timestamp);
    put_str(&mut out, rs.host.as_str());
    put_str(&mut out, rs.git_revision.as_str());
    put_u64(&mut out, rs.entries.len() as u64);
    let ghost head = out@;
    let ghost views = rs.entries@.map_values(|e: Entry| entry_view(e));
    let mut i: usize = 0;
    while i < rs.entries.len()
        invariant
            i <= rs.entries@.len(),
            views == rs.entries@.map_values(|e: Entry| entry_view(e)),
            out@ == head + encode_entries(views.take(i as int)),
        decreases rs.entries@.len() - i,
    {
        put_entry(&mut out, &rs.entries[i]);
        proof {
            assert(views.take(i as int + 1) =~= views.take(i as int).push(views[i as int]));
            lemma_encode_entries_push(views.take(i as int), views[i as int]);
        }
        assert(out@ =~= head + encode_entries(views.take(i as int + 1)));
        i = i + 1;
    }
    assert(views.take(views.len() as int) =~= views);
    assert(out@ =~= encode_result_set(result_set_view(*rs)));
    out
}

/// Relies on String::from_utf8: it accepts exactly the valid UTF-8 byte
/// sequences and keeps the characters that they encode.
#[verifier::external_body]
fn string_from_utf8(bytes: Vec<u8>) -> (r: Option<String>)
    ensures
        r is Some <==> valid_utf8(bytes@),
        r matches Some(s) ==> s@ == decode_utf8(bytes@),
{
    String::from_utf8(bytes).ok()
}

fn read_u64(b: &Vec<u8>, pos: usize) -> (r: Option<(u64, usize)>)
    ensures
        match parse_u64(b@, pos as int) {
            Some((x, p)) => r matches Some((y, q)) && y == x && q as int == p,
            None => r is None,
        },
{
    if pos > b.len() || b.len() - pos < 8 {
        return None;
    }
    let x = (b[pos] as u64) | ((b[pos + 1] as u64) << 8u64) | ((b[pos + 2] as u64) << 16u64) | ((
    b[pos + 3] as u64) << 24u64) | ((b[pos + 4] as u64) << 32u64) | ((b[pos + 5] as u64) << 40u64)
        | ((b[pos + 6] as u64) << 48u64) | ((b[pos + 7] as u64) << 56u64);
    let ghost w = b@.subrange(pos as int, pos + 8);
    assert(w[0] == b@[pos as int] && w[1] == b@[pos + 1] && w[2] == b@[pos + 2] && w[3] == b@[pos
        + 3] && w[4] == b@[pos + 4] && w[5] == b@[pos + 5] && w[6] == b@[pos + 6] && w[7] == b@[pos
        + 7]);
    Some((x, pos + 8))
}

fn read_str(b: &Vec<u8>, pos: usize) -> (r: Option<(String, usize)>)
    ensures
        match parse_str(b@, pos as int) {
            Some((s, p)) => r matches Some((t, q)) && t@ == s && q == p,
            None => r is None,
        },
{
    match read_u64(b, pos) {
        None => None,
        Some((n, p)) => {
            let avail = b.len() - p;
            if n > avail as u64 {
                return None;
            }
            let n = n as usize;
            assert(n <= avail);
            let mut v: Vec<u8> = Vec::new();
            let end = p + n;
            let mut k: usize = p;
            while k < end
                invariant
                    end == p + n,
                    p <= k <= p + n,
                    p + n <= b@.len(),
                    v@ == b@.subrange(p as int, k as int),
                decreases p + n - k,
            {
                v.push(b[k]);
                assert(b@.subrange(p as int, k + 1) =~= b@.subrange(p as int, k as int).push(b@[k as int]));
                k = k + 1;
            }
            match string_from_utf8(v) {
                Some(s) => Some((s, end)),
                None => None,
            }
        },
    }
}

/// The result of parsing more items after `acc`.
pub open spec fn after<T>(acc: Seq<T>, rest: Option<(Seq<T>, int)>) -> Option<(Seq<T>, int)> {
    match rest {
        Some((xs, q)) => Some((acc + xs, q)),
        None => None,
    }
}

fn read_u64s(b: &Vec<u8>, pos: usize, count: u64) -> (r: Option<(Vec<u64>, usize)>)
    ensures
        match parse_u64s(b@, pos as int, count as nat) {
            Some((xs, q)) => r matches Some((v, p)) && v@ == xs && p == q,
            None => r is None,
        },
{
    let mut acc: Vec<u64> = Vec::new();
    let mut cur = pos;
    let mut i: u64 = 0;
    while i < count
        invariant
            i <= count,
            parse_u64s(b@, pos as int, count as nat) == after(acc@, parse_u64s(b@, cur as int, (count - i) as nat)),
        decreases count - i,
    {
        match read_u64(b, cur) {
            None => {
                return None;
            },
            Some((x, p)) => {
                proof {
                    let rest = parse_u64s(b@, p as int, (count - i - 1) as nat);
                    assert(parse_u64(b@, cur as int) == Some((x, p as int)));
                    assert((count - i) as nat > 0);
                    assert(((count - i) as nat - 1) as nat == (count - i - 1) as nat);
                    assert(parse_u64s(b@, cur as int, (count - i) as nat) == after(seq![x], rest));
                    if let Some((xs, q)) = rest {
                        assert(acc@ + (seq![x] + xs) =~= acc@.push(x) + xs);
                    }
                }
                acc.push(x);
                cur = p;
                i = i + 1;
            },
        }
    }
    assert(acc@ + Seq::<u64>::empty() =~= acc@);
    Some((acc, cur))
}

fn failure_from_code(c: u8) -> (r: Option<CellFailure>)
    ensures
        r == failure_of_code(c),
{
    if c == 0 {
        Some(CellFailure::ContractViolation)
    } else if c == 1 {
        Some(CellFailure::PreparationFailure)
    } else if c == 2 {
        Some(CellFailure::ExecutionFailure)
    } else if c == 3 {
        Some(CellFailure::IsolationFailure)
    } else if c == 4 {
        Some(CellFailure::SerializationFailure)
    } else if c == 5 {
        Some(CellFailure::Cancelled)
    } else {
        None
    }
}

fn read_entry(b: &Vec<u8>, pos: usize) -> (r: Option<(Entry, usize)>)
    ensures
        match parse_entry(b@, pos as int) {
            Some((ev, q)) => r matches Some((e, p)) && entry_view(e) == ev && p == q && crate::results::entry_consistent(e),
            None => r is None,
        },
{
    let (name, p1) = match read_str(b, pos) {
        Some(x) => x,
        None => return None,
    };
    let (backend, p2) = match read_str(b, p1) {
        Some(x) => x,
        None => return None,
    };
    if p2 > b.len() || b.len() - p2 < 2 {
        return None;
    }
    let tag = b[p2];
    let arg = b[p2 + 1];
    let outcome = if tag == 0 && (arg == 0 || arg == 1) {
        let (n, p3) = match read_u64(b, p2 + 2) {
            Some(x) => x,
            None => return None,
        };
        let (ds, p4) = match read_u64s(b, p3, n) {
            Some(x) => x,
            None => return None,
        };
        let m = Measurement {
            spec_name: name.clone(),
            backend_id: backend.clone(),
            durations: ds,
            device_sync_included: arg == 1,
        };
        (Outcome::Succeeded(m), p4)
    } else if tag == 1 {
        match failure_from_code(arg) {
            Some(f) => (Outcome::Failed(f), p2 + 2),
            None => return None,
        }
    } else {
        return None;
    };
    Some((Entry { spec_name: name, backend_id: backend, outcome: outcome.0 }, outcome.1))
}

/// Decodes a result set. It fails with `SerializationFailure` unless the
/// bytes are, entirely, the encoding of a result set in which no two entries
/// share a key.
pub fn deserialize(b: &Vec<u8>) -> (r: Result<ResultSet, CellFailure>)
    ensures
        match parse_result_set(b@) {
            Some(v) => if view_keys_unique(v.3) {
                r matches Ok(rs) && rs.wf() && result_set_view(rs) == v
            } else {
                r == Err::<ResultSet, CellFailure>(CellFailure::SerializationFailure)
            },
            None => r == Err::<ResultSet, CellFailure>(CellFailure::SerializationFailure),
        },
{
    let (ts, p1) = match read_u64(b, 0) {
        Some(x) => x,
        None => return Err(CellFailure::SerializationFailure),
    };
    let (host, p2) = match read_str(b, p1) {
        Some(x) => x,
        None => return Err(CellFailure::SerializationFailure),
    };
    let (git, p3) = match read_str(b, p2) {
        Some(x) => x,
        None => return Err(CellFailure::SerializationFailure),
    };
    let (n, p4) = match read_u64(b, p3) {
        Some(x) => x,
        None => return Err(CellFailure::SerializationFailure),
    };
    let ghost host_v = host@;
    let ghost git_v = git@;
    assert(parse_result_set(b@) == complete_at(b@.len() as int, ts, host_v, git_v, parse_entries(b@, p4 as int, n as nat)));
    let mut rs = ResultSet::new(ts, host, git);
    let mut cur = p4;
    let mut i: u64 = 0;
    while i < n
        invariant
            i <= n,
            rs.wf(),
            rs.timestamp == ts,
            rs.host@ == host_v,
            rs.git_revision@ == git_v,
            parse_result_set(b@) == complete_at(b@.len() as int, ts, host_v, git_v, parse_entries(b@, p4 as int, n as nat)),
            parse_entries(b@, p4 as int, n as nat) == after(
                rs.entries@.map_values(|e: Entry| entry_view(e)),
                parse_entries(b@, cur as int, (n - i) as nat),
            ),
        decreases n - i,
    {
        let ghost acc = rs.entries@.map_values(|e: Entry| entry_view(e));
        let (e, p) = match read_entry(b, cur) {
            Some(x) => x,
            None => return Err(CellFailure::SerializationFailure),
        };
        let ghost ev = entry_view(e);
        let ghost rest = parse_entries(b@, p as int, (n - i - 1) as nat);
        assert(parse_entries(b@, cur as int, (n - i) as nat) == after(seq![ev], rest));
        match rs.find(e.spec_name.as_str(), e.backend_id.as_str()) {
            Some(j) => {
                proof {
                    if let Some((xs, q)) = rest {
                        let all = acc + (seq![ev] + xs);
                        assert(all[j as int] == acc[j as int]);
                        assert(all[acc.len() as int] == ev);
                        assert(!view_keys_unique(all));
                    }
                }
                return Err(CellFailure::SerializationFailure);
            },
            None => {
                proof {
                    assert(!exists|k: int| 0 <= k < rs.entries@.len() && key_of(rs.entries@[k]) == key_of(e)) by {
                        assert(forall|k: int| 0 <= k < rs.entries@.len() ==> key_of(#[trigger] rs.entries@[k]) != key_of(e));
                    }
                }
                rs.insert_entry(e);
                proof {
                    assert(rs.entries@.map_values(|e: Entry| entry_view(e)) =~= acc.push(ev));
                    if let Some((xs, q)) = rest {
                        assert(acc + (seq![ev] + xs) =~= acc.push(ev) + xs);
                    }
                }
                cur = p;
                i = i + 1;
            },
        }
    }
    let ghost acc = rs.entries@.map_values(|e: Entry| entry_view(e));
    assert(acc + Seq::<EntryView>::empty() =~= acc);
    if cur != b.len() {
        return Err(CellFailure::SerializationFailure);
    }
    proof {
        lemma_view_keys_unique(rs);
    }
    Ok(rs)
}

} // verus!
