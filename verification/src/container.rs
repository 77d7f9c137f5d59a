//! The container wire format: a sequence of records, each a four-byte
//! little-endian length followed by that many bytes of one encoded image.
//! A tail that does not hold a whole record is ignored.

use vstd::prelude::*;

verus! {

/// Number of bytes in the length prefix of a record.
pub const PREFIX_LEN: usize = 4;

/// The value of four bytes read as a little-endian unsigned integer.
pub open spec fn le_u32(b0: u8, b1: u8, b2: u8, b3: u8) -> nat {
    (b0 as nat) + (b1 as nat) * 0x100 + (b2 as nat) * 0x1_0000 + (b3 as nat) * 0x100_0000
}

/// The payload length announced by the prefix that starts at `offset`.
pub open spec fn announced_len(data: Seq<u8>, offset: int) -> nat
    recommends
        0 <= offset,
        offset + 4 <= data.len(),
{
    le_u32(data[offset], data[offset + 1], data[offset + 2], data[offset + 3])
}

/// Whether a whole record (prefix and payload) starts at `offset`.
pub open spec fn has_record(data: Seq<u8>, offset: int) -> bool {
    &&& 0 <= offset
    &&& offset + 4 <= data.len()
    &&& offset + 4 + announced_len(data, offset) <= data.len()
}

/// Offset of the first byte after the record that starts at `offset`.
pub open spec fn record_end(data: Seq<u8>, offset: int) -> int {
    offset + 4 + announced_len(data, offset)
}

/// The payload of the record that starts at `offset`.
pub open spec fn record_payload(data: Seq<u8>, offset: int) -> Seq<u8> {
    data.subrange(offset + 4, record_end(data, offset))
}

/// The payloads of all records from `offset` on, in stream order. The walk
/// stops at the first offset where no whole record starts.
pub open spec fn records_from(data: Seq<u8>, offset: int) -> Seq<Seq<u8>>
    decreases data.len() - offset,
{
    if has_record(data, offset) {
        seq![record_payload(data, offset)] + records_from(data, record_end(data, offset))
    } else {
        Seq::empty()
    }
}

/// The payloads of all records of a container.
pub open spec fn records(data: Seq<u8>) -> Seq<Seq<u8>> {
    records_from(data, 0)
}

/// Where the payload of one record lies inside the container.
#[derive(Clone, Copy, Debug, PartialEq, Eq)]
pub struct RecordSpan {
    /// Offset of the first payload byte.
    pub start: usize,
    /// Offset one past the last payload byte; the next record starts here.
    pub end: usize,
}

/// Reads the four bytes at `offset` as a little-endian unsigned integer.
pub fn read_le_u32(data: &[u8], offset: usize) -> (value: u32)
    requires
        offset + 4 <= data@.len(),
    ensures
        value == announced_len(data@, offset as int),
{
    let b0: u32 = data[offset] as u32;
    let b1: u32 = data[offset + 1] as u32;
    let b2: u32 = data[offset + 2] as u32;
    let b3: u32 = data[offset + 3] as u32;
    b0 + b1 * 0x100 + b2 * 0x1_0000 + b3 * 0x100_0000
}

/// Finds the record that starts at `offset`, if a whole one does.
pub fn next_record(data: &[u8], offset: usize) -> (found: Option<RecordSpan>)
    ensures
        found is Some <==> has_record(data@, offset as int),
        found matches Some(span) ==> span.start == offset + 4 && span.end == record_end(
            data@,
            offset as int,
        ),
{
    let len: usize = data.len();
    if offset > len || len - offset < PREFIX_LEN {
        return None;
    }
    let announced: u32 = read_le_u32(data, offset);
    let start: usize = offset + PREFIX_LEN;
    if announced as u64 > (len - start) as u64 {
        return None;
    }
    Some(RecordSpan { start, end: start + announced as usize })
}

/// Whether `spans` are the payload spans of the records of `data`, in
/// stream order.
pub open spec fn spans_of(data: Seq<u8>, spans: Seq<RecordSpan>) -> bool {
    &&& spans.len() == records(data).len()
    &&& forall|i: int|
        0 <= i < spans.len() ==> {
            &&& (#[trigger] spans[i]).start <= spans[i].end <= data.len()
            &&& records(data)[i] == data.subrange(spans[i].start as int, spans[i].end as int)
        }
    &&& forall|i: int, j: int|
        0 <= i < j < spans.len() ==> (#[trigger] spans[i]).end + 4 <= (#[trigger] spans[j]).start
}

/// Splits a container into the spans of its records, in stream order.
pub fn split_records(data: &[u8]) -> (spans: Vec<RecordSpan>)
    ensures
        spans_of(data@, spans@),
{
    let mut spans: Vec<RecordSpan> = Vec::new();
    let mut offset: usize = 0;
    loop
        invariant
            offset <= data@.len(),
            records(data@) =~= Seq::new(
                spans@.len(),
                |i: int| data@.subrange(spans@[i].start as int, spans@[i].end as int),
            ) + records_from(data@, offset as int),
            forall|i: int|
                0 <= i < spans@.len() ==> (#[trigger] spans@[i]).start <= spans@[i].end <= offset,
            forall|i: int, j: int|
                0 <= i < j < spans@.len() ==> (#[trigger] spans@[i]).end + 4 <= (
                #[trigger] spans@[j]).start,
        ensures
            !has_record(data@, offset as int),
        decreases data@.len() - offset,
    {
        match next_record(data, offset) {
            Some(span) => {
                spans.push(span);
                offset = span.end;
            },
            None => {
                break ;
            },
        }
    }
    spans
}

/// The payload length that a prefix read from a stream announces, or `None`
/// where the stream ended before the whole prefix was read.
pub fn stream_prefix(prefix: &[u8; 4], bytes_read: usize) -> (announced: Option<usize>)
    ensures
        bytes_read < 4 ==> announced is None,
        bytes_read >= 4 ==> announced == Some(
            le_u32(prefix@[0], prefix@[1], prefix@[2], prefix@[3]) as usize,
        ),
{
    if bytes_read < PREFIX_LEN {
        return None;
    }
    let b0: u32 = prefix[0] as u32;
    let b1: u32 = prefix[1] as u32;
    let b2: u32 = prefix[2] as u32;
    let b3: u32 = prefix[3] as u32;
    Some((b0 + b1 * 0x100 + b2 * 0x1_0000 + b3 * 0x100_0000) as usize)
}

/// `buf` with zero bytes appended until it holds at least `len` bytes.
pub open spec fn reserved(buf: Seq<u8>, len: nat) -> Seq<u8> {
    if buf.len() >= len {
        buf
    } else {
        buf + Seq::new((len - buf.len()) as nat, |i: int| 0u8)
    }
}

/// Makes room in `buf` for a payload of `len` bytes. The buffer only ever
/// grows; what it held stays.
pub fn reserve_payload(buf: &mut Vec<u8>, len: usize)
    ensures
        final(buf)@ == reserved(old(buf)@, len as nat),
{
    if buf.len() < len {
        buf.resize(len, 0u8);
        assert(buf@ =~= reserved(old(buf)@, len as nat));
    }
}

/// The four prefix bytes that announce a payload of `len` bytes.
pub open spec fn prefix_of(len: nat) -> Seq<u8> {
    seq![
        (len % 0x100) as u8,
        ((len / 0x100) % 0x100) as u8,
        ((len / 0x1_0000) % 0x100) as u8,
        ((len / 0x100_0000) % 0x100) as u8,
    ]
}

/// The container that holds exactly the given payloads, in order.
pub open spec fn framed(payloads: Seq<Seq<u8>>) -> Seq<u8>
    decreases payloads.len(),
{
    if payloads.len() == 0 {
        Seq::empty()
    } else {
        prefix_of(payloads[0].len()) + payloads[0] + framed(payloads.drop_first())
    }
}

/// Reading a prefix gives back the length it was written for.
pub proof fn lemma_prefix_round_trip(len: nat)
    requires
        len <= u32::MAX,
    ensures
        prefix_of(len).len() == 4,
        le_u32(prefix_of(len)[0], prefix_of(len)[1], prefix_of(len)[2], prefix_of(len)[3]) == len,
{
}

/// The records that start at or after the end of `head` do not depend on
/// `head`.
pub proof fn lemma_records_skip_head(head: Seq<u8>, tail: Seq<u8>, offset: int)
    requires
        0 <= offset,
    ensures
        records_from(head + tail, head.len() + offset) == records_from(tail, offset),
    decreases tail.len() - offset,
{
    let data = head + tail;
    let shifted = head.len() + offset;
    if offset + 4 <= tail.len() {
        assert(data[shifted] == tail[offset]);
        assert(data[shifted + 1] == tail[offset + 1]);
        assert(data[shifted + 2] == tail[offset + 2]);
        assert(data[shifted + 3] == tail[offset + 3]);
    }
    if has_record(tail, offset) {
        assert(has_record(data, shifted));
        assert(record_payload(data, shifted) =~= record_payload(tail, offset));
        lemma_records_skip_head(head, tail, record_end(tail, offset));
    } else {
        assert(!has_record(data, shifted));
    }
}

/// Parsing what was framed gives the payloads back, followed by whatever
/// records the bytes after them hold. In particular a tail that holds no
/// whole record adds nothing.
pub proof fn lemma_framed_round_trip(payloads: Seq<Seq<u8>>, tail: Seq<u8>)
    requires
        forall|i: int| 0 <= i < payloads.len() ==> (#[trigger] payloads[i]).len() <= u32::MAX,
    ensures
        records(framed(payloads) + tail) == payloads + records(tail),
    decreases payloads.len(),
{
    if payloads.len() == 0 {
        assert(framed(payloads) + tail =~= tail);
        assert(payloads + records(tail) =~= records(tail));
    } else {
        let first = payloads[0];
        let rest = payloads.drop_first();
        let head = prefix_of(first.len()) + first;
        let data = framed(payloads) + tail;
        lemma_prefix_round_trip(first.len());
        assert(data =~= head + (framed(rest) + tail));
        assert(data[0] == prefix_of(first.len())[0]);
        assert(data[1] == prefix_of(first.len())[1]);
        assert(data[2] == prefix_of(first.len())[2]);
        assert(data[3] == prefix_of(first.len())[3]);
        assert(has_record(data, 0));
        assert(record_payload(data, 0) =~= first);
        assert(record_end(data, 0) == head.len());
        lemma_records_skip_head(head, framed(rest) + tail, 0);
        assert forall|i: int| 0 <= i < rest.len() implies (#[trigger] rest[i]).len()
            <= u32::MAX by {
            assert(rest[i] == payloads[i + 1]);
        }
        lemma_framed_round_trip(rest, tail);
        assert(records(data) =~= payloads + records(tail));
    }
}

} // verus!
