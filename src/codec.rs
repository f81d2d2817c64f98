//! The container: a binary file holding a capability manifest and an event list.
//!
//! Layout, all integers little-endian:
//! the tag `MACR{O}`; the event categories (a `u32` count, then one `i32`
//! each); the (category, code) pairs (a `u32` count, then an `i32` and a `u16`
//! each); the events (a `u32` count, then for each the time as a `u64`, the
//! category and the code as `u16`, and the value as an `i32`).
use vstd::prelude::*;
use vstd::bytes::*;
use vstd::slice::slice_subrange;

use crate::event::{Capabilities, Event, EventList, ListModel};

verus! {

/// Why a byte buffer is not a container.
#[derive(Clone, Copy, Debug, PartialEq, Eq, Structural)]
pub enum FormatError {
    /// The buffer does not start with the container's tag.
    BadTag,
    /// A count or a record runs past the end of the buffer.
    Truncated,
    /// Bytes follow the last event record.
    TrailingBytes,
}

pub const TAG_LEN: usize = 7;

/// The container's leading tag, `MACR{O}` in ASCII.
pub open spec fn tag() -> Seq<u8> {
    seq![77u8, 65u8, 67u8, 82u8, 123u8, 79u8, 125u8]
}

/// The bytes of one event record.
pub open spec fn event_bytes(e: Event) -> Seq<u8> {
    spec_u64_to_le_bytes(e.time) + spec_u16_to_le_bytes(e.event_type) + spec_u16_to_le_bytes(e.event_code)
        + spec_u32_to_le_bytes(#[verifier::truncate] (e.value as u32))
}

/// The bytes of one category record.
pub open spec fn type_bytes(t: i32) -> Seq<u8> {
    spec_u32_to_le_bytes(#[verifier::truncate] (t as u32))
}

/// The bytes of one (category, code) record.
pub open spec fn code_bytes(p: (i32, u16)) -> Seq<u8> {
    spec_u32_to_le_bytes(#[verifier::truncate] (p.0 as u32)) + spec_u16_to_le_bytes(p.1)
}

/// The event read from a record of 16 bytes.
pub open spec fn event_from(s: Seq<u8>) -> Event {
    Event {
        time: spec_u64_from_le_bytes(s.subrange(0, 8)),
        event_type: spec_u16_from_le_bytes(s.subrange(8, 10)),
        event_code: spec_u16_from_le_bytes(s.subrange(10, 12)),
        value: #[verifier::truncate] (spec_u32_from_le_bytes(s.subrange(12, 16)) as i32),
    }
}

/// The category read from a record of 4 bytes.
pub open spec fn type_from(s: Seq<u8>) -> i32 {
    #[verifier::truncate] (spec_u32_from_le_bytes(s) as i32)
}

/// The (category, code) pair read from a record of 6 bytes.
pub open spec fn code_from(s: Seq<u8>) -> (i32, u16) {
    (#[verifier::truncate] (spec_u32_from_le_bytes(s.subrange(0, 4)) as i32), spec_u16_from_le_bytes(s.subrange(4, 6)))
}

pub open spec fn event_enc() -> spec_fn(Event) -> Seq<u8> {
    |e: Event| event_bytes(e)
}

pub open spec fn type_enc() -> spec_fn(i32) -> Seq<u8> {
    |t: i32| type_bytes(t)
}

pub open spec fn code_enc() -> spec_fn((i32, u16)) -> Seq<u8> {
    |p: (i32, u16)| code_bytes(p)
}

pub open spec fn event_dec() -> spec_fn(Seq<u8>) -> Event {
    |s: Seq<u8>| event_from(s)
}

pub open spec fn type_dec() -> spec_fn(Seq<u8>) -> i32 {
    |s: Seq<u8>| type_from(s)
}

pub open spec fn code_dec() -> spec_fn(Seq<u8>) -> (i32, u16) {
    |s: Seq<u8>| code_from(s)
}

/// The records of `s`, one after another.
pub open spec fn records<T>(s: Seq<T>, enc: spec_fn(T) -> Seq<u8>) -> Seq<u8>
    decreases s.len(),
{
    if s.len() == 0 {
        Seq::empty()
    } else {
        records(s.drop_last(), enc) + enc(s.last())
    }
}

/// `n` records of `w` bytes each, read from the start of `b`.
pub open spec fn read_records<T>(b: Seq<u8>, n: nat, w: nat, dec: spec_fn(Seq<u8>) -> T) -> Seq<T>
    decreases n,
{
    if n == 0 {
        Seq::empty()
    } else {
        read_records(b, (n - 1) as nat, w, dec).push(dec(b.subrange((n - 1) * w, (n * w) as int)))
    }
}

/// Whether every part of `m` can be counted in a `u32` length field.
pub open spec fn fits(m: ListModel) -> bool {
    &&& m.event_types.len() <= u32::MAX
    &&& m.event_codes.len() <= u32::MAX
    &&& m.events.len() <= u32::MAX
}

/// The container that stores `m`.
pub open spec fn container_bytes(m: ListModel) -> Seq<u8> {
    tag() + spec_u32_to_le_bytes(m.event_types.len() as u32) + records(m.event_types, type_enc())
        + spec_u32_to_le_bytes(m.event_codes.len() as u32) + records(m.event_codes, code_enc())
        + spec_u32_to_le_bytes(m.events.len() as u32) + records(m.events, event_enc())
}

/// Whether `b` starts with the tag.
pub open spec fn has_tag(b: Seq<u8>) -> bool {
    b.len() >= TAG_LEN && b.subrange(0, TAG_LEN as int) == tag()
}

/// The count stored in the four bytes at `p`.
pub open spec fn count_at(b: Seq<u8>, p: int) -> nat {
    spec_u32_from_le_bytes(b.subrange(p, p + 4)) as nat
}

/// Where a section that starts with a count at `p` ends, its records being `w` bytes wide.
pub open spec fn section_end(b: Seq<u8>, p: int, w: nat) -> int {
    p + 4 + w * count_at(b, p)
}

/// What a buffer holds: the model it stores, or why it stores none.
pub open spec fn parse(b: Seq<u8>) -> Result<ListModel, FormatError> {
    let p0 = TAG_LEN as int;
    if !has_tag(b) {
        Err(FormatError::BadTag)
    } else if b.len() < p0 + 4 || b.len() < section_end(b, p0, 4) + 4 {
        Err(FormatError::Truncated)
    } else {
        let p1 = section_end(b, p0, 4);
        if b.len() < section_end(b, p1, 6) + 4 {
            Err(FormatError::Truncated)
        } else {
            let p2 = section_end(b, p1, 6);
            let end = section_end(b, p2, 16);
            if b.len() < end {
                Err(FormatError::Truncated)
            } else if b.len() > end {
                Err(FormatError::TrailingBytes)
            } else {
                Ok(ListModel {
                    event_types: read_records(b.subrange(p0 + 4, p1), count_at(b, p0), 4, type_dec()),
                    event_codes: read_records(b.subrange(p1 + 4, p2), count_at(b, p1), 6, code_dec()),
                    events: read_records(b.subrange(p2 + 4, end), count_at(b, p2), 16, event_dec()),
                })
            }
        }
    }
}

proof fn lemma_event_record(e: Event)
    ensures
        event_bytes(e).len() == 16,
        event_from(event_bytes(e)) == e,
{
    lemma_auto_spec_u64_to_from_le_bytes();
    lemma_auto_spec_u32_to_from_le_bytes();
    lemma_auto_spec_u16_to_from_le_bytes();
    let x = e.value;
    assert((#[verifier::truncate] ((#[verifier::truncate] (x as u32)) as i32)) == x) by (bit_vector);
    let b = event_bytes(e);
    assert(b.subrange(0, 8) =~= spec_u64_to_le_bytes(e.time));
    assert(b.subrange(8, 10) =~= spec_u16_to_le_bytes(e.event_type));
    assert(b.subrange(10, 12) =~= spec_u16_to_le_bytes(e.event_code));
    assert(b.subrange(12, 16) =~= spec_u32_to_le_bytes(e.value as u32));
}

proof fn lemma_event_record_back(s: Seq<u8>)
    requires
        s.len() == 16,
    ensures
        event_bytes(event_from(s)) == s,
{
    lemma_auto_spec_u64_to_from_le_bytes();
    lemma_auto_spec_u32_to_from_le_bytes();
    lemma_auto_spec_u16_to_from_le_bytes();
    let v = spec_u32_from_le_bytes(s.subrange(12, 16));
    assert((#[verifier::truncate] ((#[verifier::truncate] (v as i32)) as u32)) == v) by (bit_vector);
    assert(s =~= s.subrange(0, 8) + s.subrange(8, 10) + s.subrange(10, 12) + s.subrange(12, 16));
}

proof fn lemma_type_record(t: i32)
    ensures
        type_bytes(t).len() == 4,
        type_from(type_bytes(t)) == t,
{
    lemma_auto_spec_u32_to_from_le_bytes();
    assert((#[verifier::truncate] ((#[verifier::truncate] (t as u32)) as i32)) == t) by (bit_vector);
    let u: u32 = #[verifier::truncate] (t as u32);
    assert(spec_u32_to_le_bytes(u).len() == 4);
}

proof fn lemma_type_record_back(s: Seq<u8>)
    requires
        s.len() == 4,
    ensures
        type_bytes(type_from(s)) == s,
{
    lemma_auto_spec_u32_to_from_le_bytes();
    let v = spec_u32_from_le_bytes(s);
    assert((#[verifier::truncate] ((#[verifier::truncate] (v as i32)) as u32)) == v) by (bit_vector);
}

proof fn lemma_code_record(p: (i32, u16))
    ensures
        code_bytes(p).len() == 6,
        code_from(code_bytes(p)) == p,
{
    lemma_auto_spec_u32_to_from_le_bytes();
    lemma_auto_spec_u16_to_from_le_bytes();
    let x = p.0;
    assert((#[verifier::truncate] ((#[verifier::truncate] (x as u32)) as i32)) == x) by (bit_vector);
    let b = code_bytes(p);
    assert(b.subrange(0, 4) =~= spec_u32_to_le_bytes(p.0 as u32));
    assert(b.subrange(4, 6) =~= spec_u16_to_le_bytes(p.1));
}

proof fn lemma_code_record_back(s: Seq<u8>)
    requires
        s.len() == 6,
    ensures
        code_bytes(code_from(s)) == s,
{
    lemma_auto_spec_u32_to_from_le_bytes();
    lemma_auto_spec_u16_to_from_le_bytes();
    let v = spec_u32_from_le_bytes(s.subrange(0, 4));
    assert((#[verifier::truncate] ((#[verifier::truncate] (v as i32)) as u32)) == v) by (bit_vector);
    assert(s =~= s.subrange(0, 4) + s.subrange(4, 6));
}

/// Records of width `w` take `w` bytes each.
proof fn lemma_records_len<T>(s: Seq<T>, enc: spec_fn(T) -> Seq<u8>, w: nat)
    requires
        forall|x: T| #[trigger] enc(x).len() == w,
    ensures
        records(s, enc).len() == s.len() * w,
    decreases s.len(),
{
    if s.len() > 0 {
        lemma_records_len(s.drop_last(), enc, w);
        assert((s.len() - 1) * w + w == s.len() * w) by (nonlinear_arith);
    }
}

/// Reading back the records of `s`, whatever follows them, gives `s`.
proof fn lemma_read_records<T>(
    s: Seq<T>,
    rest: Seq<u8>,
    enc: spec_fn(T) -> Seq<u8>,
    dec: spec_fn(Seq<u8>) -> T,
    w: nat,
)
    requires
        forall|x: T| #[trigger] enc(x).len() == w,
        forall|x: T| #[trigger] dec(enc(x)) == x,
    ensures
        read_records(records(s, enc) + rest, s.len(), w, dec) == s,
    decreases s.len(),
{
    if s.len() > 0 {
        let n = s.len();
        let s0 = s.drop_last();
        let a = records(s0, enc);
        let e = enc(s.last());
        lemma_records_len(s0, enc, w);
        assert(records(s, enc) + rest =~= a + (e + rest));
        lemma_read_records(s0, e + rest, enc, dec, w);
        assert((n - 1) * w + w == n * w) by (nonlinear_arith);
        assert((a + (e + rest)).subrange((n - 1) * w, (n * w) as int) =~= e);
        assert(s0.push(s.last()) =~= s);
    }
}

/// Writing back `n` records read from `b` gives the first `n * w` bytes of `b`.
proof fn lemma_records_of_read<T>(
    b: Seq<u8>,
    n: nat,
    enc: spec_fn(T) -> Seq<u8>,
    dec: spec_fn(Seq<u8>) -> T,
    w: nat,
)
    requires
        b.len() >= n * w,
        forall|s: Seq<u8>| s.len() == w ==> #[trigger] enc(dec(s)) == s,
    ensures
        read_records(b, n, w, dec).len() == n,
        records(read_records(b, n, w, dec), enc) == b.subrange(0, (n * w) as int),
    decreases n,
{
    if n > 0 {
        assert((n - 1) * w + w == n * w) by (nonlinear_arith);
        assert((n - 1) * w <= n * w) by (nonlinear_arith);
        lemma_records_of_read(b, (n - 1) as nat, enc, dec, w);
        let r = read_records(b, n, w, dec);
        assert(r.drop_last() =~= read_records(b, (n - 1) as nat, w, dec));
        let last = b.subrange((n - 1) * w, (n * w) as int);
        assert(enc(dec(last)) == last);
        assert(r.len() == n);
        assert(r.last() == dec(last));
        assert(records(r, enc) == records(r.drop_last(), enc) + enc(r.last()));
        assert(b.subrange(0, ((n - 1) * w) as int) + last =~= b.subrange(0, (n * w) as int));
    } else {
        assert(n * w == 0) by (nonlinear_arith)
            requires
                n == 0;
        assert(b.subrange(0, 0) =~= Seq::<u8>::empty());
    }
}

/// Adding one element to the end of `s` adds its record to the end of the bytes.
proof fn lemma_records_push<T>(s: Seq<T>, x: T, enc: spec_fn(T) -> Seq<u8>)
    ensures
        records(s.push(x), enc) == records(s, enc) + enc(x),
{
    assert(s.push(x).drop_last() =~= s);
}

proof fn lemma_record_laws()
    ensures
        forall|x: i32| #[trigger] type_enc()(x).len() == 4,
        forall|x: i32| #[trigger] type_dec()(type_enc()(x)) == x,
        forall|s: Seq<u8>| s.len() == 4 ==> #[trigger] type_enc()(type_dec()(s)) == s,
        forall|x: (i32, u16)| #[trigger] code_enc()(x).len() == 6,
        forall|x: (i32, u16)| #[trigger] code_dec()(code_enc()(x)) == x,
        forall|s: Seq<u8>| s.len() == 6 ==> #[trigger] code_enc()(code_dec()(s)) == s,
        forall|x: Event| #[trigger] event_enc()(x).len() == 16,
        forall|x: Event| #[trigger] event_dec()(event_enc()(x)) == x,
        forall|s: Seq<u8>| s.len() == 16 ==> #[trigger] event_enc()(event_dec()(s)) == s,
{
    assert forall|x: i32| #[trigger] type_enc()(x).len() == 4 by {
        lemma_type_record(x);
    }
    assert forall|x: i32| #[trigger] type_dec()(type_enc()(x)) == x by {
        lemma_type_record(x);
    }
    assert forall|s: Seq<u8>| s.len() == 4 implies #[trigger] type_enc()(type_dec()(s)) == s by {
        lemma_type_record_back(s);
    }
    assert forall|x: (i32, u16)| #[trigger] code_enc()(x).len() == 6 by {
        lemma_code_record(x);
    }
    assert forall|x: (i32, u16)| #[trigger] code_dec()(code_enc()(x)) == x by {
        lemma_code_record(x);
    }
    assert forall|s: Seq<u8>| s.len() == 6 implies #[trigger] code_enc()(code_dec()(s)) == s by {
        lemma_code_record_back(s);
    }
    assert forall|x: Event| #[trigger] event_enc()(x).len() == 16 by {
        lemma_event_record(x);
    }
    assert forall|x: Event| #[trigger] event_dec()(event_enc()(x)) == x by {
        lemma_event_record(x);
    }
    assert forall|s: Seq<u8>| s.len() == 16 implies #[trigger] event_enc()(event_dec()(s)) == s by {
        lemma_event_record_back(s);
    }
}

/// Decoding the container of any list that fits the format gives that list back.
pub proof fn lemma_decode_encode(m: ListModel)
    requires
        fits(m),
    ensures
        parse(container_bytes(m)) == Ok::<ListModel, FormatError>(m),
{
    lemma_record_laws();
    lemma_auto_spec_u32_to_from_le_bytes();
    let n0: int = m.event_types.len() as int;
    let n1: int = m.event_codes.len() as int;
    let n2: int = m.events.len() as int;
    let l0 = spec_u32_to_le_bytes(n0 as u32);
    let l1 = spec_u32_to_le_bytes(n1 as u32);
    let l2 = spec_u32_to_le_bytes(n2 as u32);
    let r0 = records(m.event_types, type_enc());
    let r1 = records(m.event_codes, code_enc());
    let r2 = records(m.events, event_enc());
    lemma_records_len(m.event_types, type_enc(), 4);
    lemma_records_len(m.event_codes, code_enc(), 6);
    lemma_records_len(m.events, event_enc(), 16);
    assert(l0.len() == 4 && l1.len() == 4 && l2.len() == 4);
    let b = container_bytes(m);
    let p1: int = 11 + 4 * n0;
    let p2: int = p1 + 4 + 6 * n1;
    let end: int = p2 + 4 + 16 * n2;
    assert(b.len() == end);
    assert(b.subrange(0, 7) =~= tag());
    assert(b.subrange(7, 11) =~= l0);
    assert(n0 * 4 == 4 * n0 && n1 * 6 == 6 * n1 && n2 * 16 == 16 * n2);
    assert(b.subrange(11, p1) =~= r0);
    assert(b.subrange(p1, p1 + 4) =~= l1);
    assert(b.subrange(p1 + 4, p2) =~= r1);
    assert(b.subrange(p2, p2 + 4) =~= l2);
    assert(b.subrange(p2 + 4, end) =~= r2);
    assert(count_at(b, 7) == n0);
    assert(count_at(b, p1) == n1);
    assert(count_at(b, p2) == n2);
    lemma_read_records(m.event_types, Seq::empty(), type_enc(), type_dec(), 4);
    lemma_read_records(m.event_codes, Seq::empty(), code_enc(), code_dec(), 6);
    lemma_read_records(m.events, Seq::empty(), event_enc(), event_dec(), 16);
    assert(r0 + Seq::<u8>::empty() =~= r0);
    assert(r1 + Seq::<u8>::empty() =~= r1);
    assert(r2 + Seq::<u8>::empty() =~= r2);
}

/// A buffer that decodes is exactly the container of what it decodes to.
pub proof fn lemma_encode_decode(b: Seq<u8>)
    requires
        parse(b) is Ok,
    ensures
        fits(parse(b)->Ok_0),
        container_bytes(parse(b)->Ok_0) == b,
{
    lemma_record_laws();
    lemma_auto_spec_u32_to_from_le_bytes();
    let m = parse(b)->Ok_0;
    let n0 = count_at(b, 7);
    let p1 = section_end(b, 7, 4);
    let n1 = count_at(b, p1);
    let p2 = section_end(b, p1, 6);
    let n2 = count_at(b, p2);
    let end = section_end(b, p2, 16);
    lemma_records_of_read(b.subrange(11, p1), n0, type_enc(), type_dec(), 4);
    lemma_records_of_read(b.subrange(p1 + 4, p2), n1, code_enc(), code_dec(), 6);
    lemma_records_of_read(b.subrange(p2 + 4, end), n2, event_enc(), event_dec(), 16);
    assert(b.subrange(11, p1).subrange(0, p1 - 11) =~= b.subrange(11, p1));
    assert(b.subrange(p1 + 4, p2).subrange(0, p2 - p1 - 4) =~= b.subrange(p1 + 4, p2));
    assert(b.subrange(p2 + 4, end).subrange(0, end - p2 - 4) =~= b.subrange(p2 + 4, end));
    assert(spec_u32_to_le_bytes(n0 as u32) == b.subrange(7, 11));
    assert(spec_u32_to_le_bytes(n1 as u32) == b.subrange(p1, p1 + 4));
    assert(spec_u32_to_le_bytes(n2 as u32) == b.subrange(p2, p2 + 4));
    assert(b =~= b.subrange(0, 7) + b.subrange(7, 11) + b.subrange(11, p1) + b.subrange(p1, p1 + 4)
        + b.subrange(p1 + 4, p2) + b.subrange(p2, p2 + 4) + b.subrange(p2 + 4, end));
}

fn put_u16(out: &mut Vec<u8>, x: u16)
    ensures
        final(out)@ == old(out)@ + spec_u16_to_le_bytes(x),
{
    let mut b = u16_to_le_bytes(x);
    out.append(&mut b);
}

fn put_u32(out: &mut Vec<u8>, x: u32)
    ensures
        final(out)@ == old(out)@ + spec_u32_to_le_bytes(x),
{
    let mut b = u32_to_le_bytes(x);
    out.append(&mut b);
}

fn put_u64(out: &mut Vec<u8>, x: u64)
    ensures
        final(out)@ == old(out)@ + spec_u64_to_le_bytes(x),
{
    let mut b = u64_to_le_bytes(x);
    out.append(&mut b);
}

fn put_types(out: &mut Vec<u8>, s: &Vec<i32>)
    ensures
        final(out)@ == old(out)@ + records(s@, type_enc()),
{
    let ghost start = out@;
    let n = s.len();
    let mut i: usize = 0;
    while i < n
        invariant
            n == s@.len(),
            i <= n,
            out@ == start + records(s@.take(i as int), type_enc()),
        decreases n - i,
    {
        let t = s[i];
        put_u32(out, #[verifier::truncate] (t as u32));
        proof {
            lemma_records_push(s@.take(i as int), t, type_enc());
            assert(s@.take(i as int).push(t) =~= s@.take(i + 1));
        }
        i = i + 1;
    }
    assert(s@.take(n as int) =~= s@);
}

fn put_codes(out: &mut Vec<u8>, s: &Vec<(i32, u16)>)
    ensures
        final(out)@ == old(out)@ + records(s@, code_enc()),
{
    let ghost start = out@;
    let n = s.len();
    let mut i: usize = 0;
    while i < n
        invariant
            n == s@.len(),
            i <= n,
            out@ == start + records(s@.take(i as int), code_enc()),
        decreases n - i,
    {
        let p = s[i];
        put_u32(out, #[verifier::truncate] (p.0 as u32));
        put_u16(out, p.1);
        proof {
            lemma_records_push(s@.take(i as int), p, code_enc());
            assert(s@.take(i as int).push(p) =~= s@.take(i + 1));
        }
        i = i + 1;
    }
    assert(s@.take(n as int) =~= s@);
}

fn put_events(out: &mut Vec<u8>, s: &Vec<Event>)
    ensures
        final(out)@ == old(out)@ + records(s@, event_enc()),
{
    let ghost start = out@;
    let n = s.len();
    let mut i: usize = 0;
    while i < n
        invariant
            n == s@.len(),
            i <= n,
            out@ == start + records(s@.take(i as int), event_enc()),
        decreases n - i,
    {
        let e = s[i];
        put_u64(out, e.time);
        put_u16(out, e.event_type);
        put_u16(out, e.event_code);
        put_u32(out, #[verifier::truncate] (e.value as u32));
        proof {
            lemma_records_push(s@.take(i as int), e, event_enc());
            assert(s@.take(i as int).push(e) =~= s@.take(i + 1));
        }
        i = i + 1;
    }
    assert(s@.take(n as int) =~= s@);
}

/// The count stored at `p`, read from the buffer.
fn get_count(b: &[u8], p: usize) -> (r: u32)
    requires
        p + 4 <= b@.len(),
    ensures
        r == count_at(b@, p as int),
{
    let len = b.len();
    u32_from_le_bytes(slice_subrange(b, p, p + 4))
}

fn get_types(b: &[u8], p: usize, n: usize) -> (r: Vec<i32>)
    requires
        p + 4 * n <= b@.len(),
    ensures
        r@ == read_records(b@.subrange(p as int, p + 4 * n), n as nat, 4, type_dec()),
{
    let ghost sec = b@.subrange(p as int, p + 4 * n);
    let mut r: Vec<i32> = Vec::new();
    let len = b.len();
    let mut i: usize = 0;
    while i < n
        invariant
            i <= n,
            len == b@.len(),
            p + 4 * n <= b@.len(),
            sec == b@.subrange(p as int, p + 4 * n),
            r@ == read_records(sec, i as nat, 4, type_dec()),
        decreases n - i,
    {
        let q = p + 4 * i;
        let v = u32_from_le_bytes(slice_subrange(b, q, q + 4));
        r.push(#[verifier::truncate] (v as i32));
        assert(sec.subrange(4 * i, 4 * (i + 1)) =~= b@.subrange(q as int, q + 4));
        i = i + 1;
    }
    r
}

fn get_codes(b: &[u8], p: usize, n: usize) -> (r: Vec<(i32, u16)>)
    requires
        p + 6 * n <= b@.len(),
    ensures
        r@ == read_records(b@.subrange(p as int, p + 6 * n), n as nat, 6, code_dec()),
{
    let ghost sec = b@.subrange(p as int, p + 6 * n);
    let mut r: Vec<(i32, u16)> = Vec::new();
    let len = b.len();
    let mut i: usize = 0;
    while i < n
        invariant
            i <= n,
            len == b@.len(),
            p + 6 * n <= b@.len(),
            sec == b@.subrange(p as int, p + 6 * n),
            r@ == read_records(sec, i as nat, 6, code_dec()),
        decreases n - i,
    {
        let q = p + 6 * i;
        let t = u32_from_le_bytes(slice_subrange(b, q, q + 4));
        let c = u16_from_le_bytes(slice_subrange(b, q + 4, q + 6));
        r.push((#[verifier::truncate] (t as i32), c));
        let ghost rec = sec.subrange(6 * i, 6 * (i + 1));
        assert(rec =~= b@.subrange(q as int, q + 6));
        assert(rec.subrange(0, 4) =~= b@.subrange(q as int, q + 4));
        assert(rec.subrange(4, 6) =~= b@.subrange(q + 4, q + 6));
        i = i + 1;
    }
    r
}

fn get_events(b: &[u8], p: usize, n: usize) -> (r: Vec<Event>)
    requires
        p + 16 * n <= b@.len(),
    ensures
        r@ == read_records(b@.subrange(p as int, p + 16 * n), n as nat, 16, event_dec()),
{
    let ghost sec = b@.subrange(p as int, p + 16 * n);
    let mut r: Vec<Event> = Vec::new();
    let len = b.len();
    let mut i: usize = 0;
    while i < n
        invariant
            i <= n,
            len == b@.len(),
            p + 16 * n <= b@.len(),
            sec == b@.subrange(p as int, p + 16 * n),
            r@ == read_records(sec, i as nat, 16, event_dec()),
        decreases n - i,
    {
        let q = p + 16 * i;
        let time = u64_from_le_bytes(slice_subrange(b, q, q + 8));
        let event_type = u16_from_le_bytes(slice_subrange(b, q + 8, q + 10));
        let event_code = u16_from_le_bytes(slice_subrange(b, q + 10, q + 12));
        let v = u32_from_le_bytes(slice_subrange(b, q + 12, q + 16));
        r.push(Event { time, event_type, event_code, value: #[verifier::truncate] (v as i32) });
        let ghost rec = sec.subrange(16 * i, 16 * (i + 1));
        assert(rec =~= b@.subrange(q as int, q + 16));
        assert(rec.subrange(0, 8) =~= b@.subrange(q as int, q + 8));
        assert(rec.subrange(8, 10) =~= b@.subrange(q + 8, q + 10));
        assert(rec.subrange(10, 12) =~= b@.subrange(q + 10, q + 12));
        assert(rec.subrange(12, 16) =~= b@.subrange(q + 12, q + 16));
        i = i + 1;
    }
    r
}

impl EventList {
    /// Whether every part of the list can be counted in the container's
    /// `u32` length fields.
    pub fn fits_container(&self) -> (r: bool)
        ensures
            r == fits(self@),
    {
        self.capabilities.event_types.len() as u64 <= 0xFFFF_FFFF
            && self.capabilities.event_codes.len() as u64 <= 0xFFFF_FFFF
            && self.events.len() as u64 <= 0xFFFF_FFFF
    }

    /// The container that stores this list.
    pub fn encode(&self) -> (r: Vec<u8>)
        requires
            fits(self@),
        ensures
            r@ == container_bytes(self@),
    {
        let mut out: Vec<u8> = Vec::new();
        out.push(77u8);
        out.push(65u8);
        out.push(67u8);
        out.push(82u8);
        out.push(123u8);
        out.push(79u8);
        out.push(125u8);
        assert(out@ =~= tag());
        put_u32(&mut out, self.capabilities.event_types.len() as u32);
        put_types(&mut out, &self.capabilities.event_types);
        put_u32(&mut out, self.capabilities.event_codes.len() as u32);
        put_codes(&mut out, &self.capabilities.event_codes);
        put_u32(&mut out, self.events.len() as u32);
        put_events(&mut out, &self.events);
        out
    }

    /// Reads a container.
    ///
    /// Fails with `BadTag` when the buffer does not start with the tag, with
    /// `Truncated` when a count or a record runs past its end, and with
    /// `TrailingBytes` when bytes follow the last record.
    pub fn decode(b: &[u8]) -> (r: Result<EventList, FormatError>)
        ensures
            r == Err::<EventList, FormatError>(FormatError::BadTag) <==> !has_tag(b@),
            match r {
                Ok(l) => parse(b@) == Ok::<ListModel, FormatError>(l@) && fits(l@) && container_bytes(l@) == b@,
                Err(e) => parse(b@) == Err::<ListModel, FormatError>(e),
            },
    {
        let len = b.len();
        if len < TAG_LEN || b[0] != 77u8 || b[1] != 65u8 || b[2] != 67u8 || b[3] != 82u8
            || b[4] != 123u8 || b[5] != 79u8 || b[6] != 125u8 {
            assert(!has_tag(b@)) by {
                if b@.len() >= TAG_LEN {
                    assert(b@.subrange(0, TAG_LEN as int)[0] == b@[0]);
                    assert(b@.subrange(0, TAG_LEN as int)[1] == b@[1]);
                    assert(b@.subrange(0, TAG_LEN as int)[2] == b@[2]);
                    assert(b@.subrange(0, TAG_LEN as int)[3] == b@[3]);
                    assert(b@.subrange(0, TAG_LEN as int)[4] == b@[4]);
                    assert(b@.subrange(0, TAG_LEN as int)[5] == b@[5]);
                    assert(b@.subrange(0, TAG_LEN as int)[6] == b@[6]);
                }
            }
            return Err(FormatError::BadTag);
        }
        assert(b@.subrange(0, TAG_LEN as int) =~= tag());
        let p0 = TAG_LEN;
        if len - p0 < 4 {
            return Err(FormatError::Truncated);
        }
        let n0 = get_count(b, p0) as usize;
        if (len - p0 - 4) / 4 < n0 || len - p0 - 4 - 4 * n0 < 4 {
            return Err(FormatError::Truncated);
        }
        let p1 = p0 + 4 + 4 * n0;
        let n1 = get_count(b, p1) as usize;
        if (len - p1 - 4) / 6 < n1 || len - p1 - 4 - 6 * n1 < 4 {
            return Err(FormatError::Truncated);
        }
        let p2 = p1 + 4 + 6 * n1;
        let n2 = get_count(b, p2) as usize;
        if (len - p2 - 4) / 16 < n2 {
            return Err(FormatError::Truncated);
        }
        let end = p2 + 4 + 16 * n2;
        if len > end {
            return Err(FormatError::TrailingBytes);
        }
        let event_types = get_types(b, p0 + 4, n0);
        let event_codes = get_codes(b, p1 + 4, n1);
        let events = get_events(b, p2 + 4, n2);
        proof {
            lemma_encode_decode(b@);
        }
        Ok(EventList { capabilities: Capabilities { event_types, event_codes }, events })
    }
}

} // verus!
