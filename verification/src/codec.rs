//! The mathematical model of the container format: the abstract record,
//! big-endian framing fields, the signature, and the specification-level
//! serializer and parser that every executable contract refers to, together
//! with the laws that relate them (round trip, checksum sensitivity,
//! truncation classification).

use vstd::prelude::*;

use crate::checksum::{crc32, lemma_crc32_byte_sensitive};
use crate::error::ChunkError;

verus! {

/// The abstract value of one record: a 4-byte type code and an opaque
/// payload. The checksum is derived, never free.
#[verifier::ext_equal]
pub ghost struct RecordModel {
    pub tc: Seq<u8>,
    pub payload: Seq<u8>,
}

/// A record model that can be framed: a 4-byte type code and a payload
/// whose length fits the 4-byte big-endian length field.
pub open spec fn wf_record(m: RecordModel) -> bool {
    &&& m.tc.len() == 4
    &&& m.payload.len() <= u32::MAX
}

/// All records of a sequence can be framed.
pub open spec fn wf_records(ms: Seq<RecordModel>) -> bool {
    forall|i: int| 0 <= i < ms.len() ==> wf_record(#[trigger] ms[i])
}

/// The checksum stored with a record: CRC-32 over its type code bytes
/// followed by its payload bytes.
pub open spec fn record_crc(m: RecordModel) -> u32 {
    crc32(m.tc + m.payload)
}

/// A 32-bit value as 4 big-endian bytes.
pub open spec fn be32_bytes(n: u32) -> Seq<u8> {
    seq![
        ((n >> 24) & 0xff) as u8,
        ((n >> 16) & 0xff) as u8,
        ((n >> 8) & 0xff) as u8,
        (n & 0xff) as u8,
    ]
}

/// Four big-endian bytes as a 32-bit value.
pub open spec fn be32_value(b0: u8, b1: u8, b2: u8, b3: u8) -> u32 {
    ((b0 as u32) << 24) | ((b1 as u32) << 16) | ((b2 as u32) << 8) | (b3 as u32)
}

/// Reading back the 4 big-endian bytes of a value yields the value.
pub proof fn lemma_be32_roundtrip(n: u32)
    ensures
        be32_value(
            ((n >> 24) & 0xff) as u8,
            ((n >> 16) & 0xff) as u8,
            ((n >> 8) & 0xff) as u8,
            (n & 0xff) as u8,
        ) == n,
{
    assert((((((n >> 24) & 0xff) as u8) as u32) << 24) | (((((n >> 16) & 0xff) as u8) as u32)
        << 16) | (((((n >> 8) & 0xff) as u8) as u32) << 8) | (((n & 0xff) as u8) as u32)
        == n) by (bit_vector);
}

/// The fixed 8-byte signature that opens every serialized container.
pub open spec fn signature() -> Seq<u8> {
    seq![137u8, 80u8, 78u8, 71u8, 13u8, 10u8, 26u8, 10u8]
}

/// The serialized form of one record: big-endian payload length, type code,
/// payload, big-endian checksum.
pub open spec fn ser_record(m: RecordModel) -> Seq<u8> {
    be32_bytes(m.payload.len() as u32) + m.tc + m.payload + be32_bytes(record_crc(m))
}

/// The serialized forms of a record sequence, concatenated in order.
pub open spec fn ser_records(ms: Seq<RecordModel>) -> Seq<u8>
    decreases ms.len(),
{
    if ms.len() == 0 {
        Seq::empty()
    } else {
        ser_record(ms[0]) + ser_records(ms.drop_first())
    }
}

/// The serialized form of a whole container: signature, then each record.
pub open spec fn ser_container(ms: Seq<RecordModel>) -> Seq<u8> {
    signature() + ser_records(ms)
}

/// Parsing one record from the front of `b`: on success, the record model
/// and the number of bytes consumed (`12 + payload length`).
///
/// A shortage of payload bytes (the declared length exceeds what remains)
/// is `TruncatedRecord`; a shortage in the fixed framing fields (the 8-byte
/// header or the 4-byte checksum trailer) is `TrailingBytes`, since such a
/// tail can never open another record.
pub open spec fn parse_record(b: Seq<u8>) -> Result<(RecordModel, int), ChunkError> {
    if b.len() < 8 {
        Err(ChunkError::TrailingBytes)
    } else {
        let l = be32_value(b[0], b[1], b[2], b[3]) as int;
        if b.len() - 8 < l {
            Err(ChunkError::TruncatedRecord)
        } else if b.len() - 8 - l < 4 {
            Err(ChunkError::TrailingBytes)
        } else {
            let m = RecordModel { tc: b.subrange(4, 8), payload: b.subrange(8, 8 + l) };
            let stored = be32_value(b[8 + l], b[9 + l], b[10 + l], b[11 + l]);
            if stored != record_crc(m) {
                Err(ChunkError::ChecksumMismatch)
            } else {
                Ok((m, 12 + l))
            }
        }
    }
}

/// Parsing records until the buffer is exhausted, all-or-nothing: the
/// first failure aborts the whole parse.
pub open spec fn parse_records(b: Seq<u8>) -> Result<Seq<RecordModel>, ChunkError>
    decreases b.len(),
{
    if b.len() == 0 {
        Ok(Seq::empty())
    } else {
        match parse_record(b) {
            Err(e) => Err(e),
            Ok(p) => match parse_records(b.skip(p.1)) {
                Ok(rest) => Ok(seq![p.0] + rest),
                Err(e) => Err(e),
            },
        }
    }
}

/// Parsing a whole buffer: the signature must open it exactly, then
/// records must cover the rest of the buffer exactly.
pub open spec fn parse_container(b: Seq<u8>) -> Result<Seq<RecordModel>, ChunkError> {
    if b.len() < 8 || b.subrange(0, 8) != signature() {
        Err(ChunkError::InvalidSignature)
    } else {
        parse_records(b.skip(8))
    }
}

/// Prefixes already-parsed records onto the outcome of parsing the rest.
pub open spec fn prepend_models(
    ms: Seq<RecordModel>,
    r: Result<Seq<RecordModel>, ChunkError>,
) -> Result<Seq<RecordModel>, ChunkError> {
    match r {
        Ok(rest) => Ok(ms + rest),
        Err(e) => Err(e),
    }
}

/// Serializing one more record appends its bytes.
pub proof fn lemma_ser_records_push(ms: Seq<RecordModel>, m: RecordModel)
    ensures
        ser_records(ms.push(m)) == ser_records(ms) + ser_record(m),
    decreases ms.len(),
{
    if ms.len() == 0 {
        assert(ms.push(m)[0] == m);
        assert(ms.push(m).drop_first() =~= Seq::<RecordModel>::empty());
        assert(ser_record(m) + ser_records(Seq::empty()) =~= ser_record(m));
        assert(ser_records(Seq::<RecordModel>::empty()) + ser_record(m) =~= ser_record(m));
    } else {
        assert(ms.push(m)[0] == ms[0]);
        assert(ms.push(m).drop_first() =~= ms.drop_first().push(m));
        lemma_ser_records_push(ms.drop_first(), m);
        assert(ser_record(ms[0]) + (ser_records(ms.drop_first()) + ser_record(m)) =~= (ser_record(
            ms[0],
        ) + ser_records(ms.drop_first())) + ser_record(m));
    }
}

/// The index of the first record whose type code equals `tc`, if any.
pub open spec fn first_match(ms: Seq<RecordModel>, tc: Seq<u8>) -> Option<int>
    decreases ms.len(),
{
    if ms.len() == 0 {
        None
    } else if ms[0].tc == tc {
        Some(0)
    } else {
        match first_match(ms.drop_first(), tc) {
            Some(i) => Some(i + 1),
            None => None,
        }
    }
}

/// `first_match` returns the earliest matching record: everything before
/// it mismatches, and `None` means nothing matches at all.
pub proof fn lemma_first_match_is_earliest(ms: Seq<RecordModel>, tc: Seq<u8>)
    ensures
        match first_match(ms, tc) {
            Some(i) => 0 <= i < ms.len() && ms[i].tc == tc && (forall|j: int|
                0 <= j < i ==> (#[trigger] ms[j]).tc != tc),
            None => forall|j: int| 0 <= j < ms.len() ==> (#[trigger] ms[j]).tc != tc,
        },
    decreases ms.len(),
{
    if ms.len() > 0 && ms[0].tc != tc {
        let tl = ms.drop_first();
        lemma_first_match_is_earliest(tl, tc);
        match first_match(ms, tc) {
            Some(i) => {
                assert(first_match(tl, tc) == Some(i - 1));
                assert(tl[i - 1] == ms[i]);
                assert forall|j: int| 0 <= j < i implies (#[trigger] ms[j]).tc != tc by {
                    if j > 0 {
                        assert(ms[j] == tl[j - 1]);
                    }
                }
            },
            None => {
                assert forall|j: int| 0 <= j < ms.len() implies (#[trigger] ms[j]).tc != tc by {
                    if j > 0 {
                        assert(ms[j] == tl[j - 1]);
                    }
                }
            },
        }
    }
}

/// Unfolds `parse_records` by one record.
pub proof fn lemma_parse_records_step(b: Seq<u8>)
    requires
        b.len() > 0,
    ensures
        match parse_record(b) {
            Err(e) => parse_records(b) == Err::<Seq<RecordModel>, ChunkError>(e),
            Ok(p) => 12 <= p.1 <= b.len() && parse_records(b) == (match parse_records(
                b.skip(p.1),
            ) {
                Ok(rest) => Ok::<Seq<RecordModel>, ChunkError>(seq![p.0] + rest),
                Err(e) => Err::<Seq<RecordModel>, ChunkError>(e),
            }),
        },
{
}

/// A serialized record at the front of a buffer parses back to exactly
/// that record, consuming exactly its own bytes.
pub proof fn lemma_parse_record_of_ser(m: RecordModel, tail: Seq<u8>)
    requires
        wf_record(m),
    ensures
        ser_record(m).len() == 12 + m.payload.len(),
        parse_record(ser_record(m) + tail) == Ok::<(RecordModel, int), ChunkError>(
            (m, 12 + m.payload.len() as int),
        ),
        (ser_record(m) + tail).skip(12 + m.payload.len() as int) =~= tail,
{
    let len32 = m.payload.len() as u32;
    let s = ser_record(m);
    let b = s + tail;
    let ll = m.payload.len() as int;
    assert(s.len() == 12 + ll);
    assert(b[0] == ((len32 >> 24) & 0xff) as u8);
    assert(b[1] == ((len32 >> 16) & 0xff) as u8);
    assert(b[2] == ((len32 >> 8) & 0xff) as u8);
    assert(b[3] == (len32 & 0xff) as u8);
    lemma_be32_roundtrip(len32);
    let l = be32_value(b[0], b[1], b[2], b[3]) as int;
    assert(l == ll);
    assert(b.len() - 8 >= l);
    assert(b.len() - 8 - l >= 4);
    assert(b.subrange(4, 8) =~= m.tc) by {
        assert(forall|j: int| 0 <= j < 4 ==> #[trigger] b.subrange(4, 8)[j] == m.tc[j]);
    }
    assert(b.subrange(8, 8 + l) =~= m.payload) by {
        assert(forall|j: int| 0 <= j < ll ==> #[trigger] b.subrange(8, 8 + ll)[j]
            == m.payload[j]);
    }
    let pm = RecordModel { tc: b.subrange(4, 8), payload: b.subrange(8, 8 + l) };
    assert(pm == m);
    let c = record_crc(m);
    assert(b[8 + l] == ((c >> 24) & 0xff) as u8);
    assert(b[9 + l] == ((c >> 16) & 0xff) as u8);
    assert(b[10 + l] == ((c >> 8) & 0xff) as u8);
    assert(b[11 + l] == (c & 0xff) as u8);
    lemma_be32_roundtrip(c);
    assert(be32_value(b[8 + l], b[9 + l], b[10 + l], b[11 + l]) == record_crc(pm));
    assert(b.skip(12 + ll) =~= tail);
}

/// Parsing after a cleanly serialized record prefix behaves exactly as
/// parsing the remaining bytes alone: the prefix contributes its records
/// and the outcome on the tail decides success or failure.
pub proof fn lemma_parse_after_records(ms: Seq<RecordModel>, tail: Seq<u8>)
    requires
        wf_records(ms),
    ensures
        parse_records(ser_records(ms) + tail) == (match parse_records(tail) {
            Ok(rest) => Ok::<Seq<RecordModel>, ChunkError>(ms + rest),
            Err(e) => Err::<Seq<RecordModel>, ChunkError>(e),
        }),
    decreases ms.len(),
{
    if ms.len() == 0 {
        assert(ser_records(ms) + tail =~= tail);
        if let Ok(rest) = parse_records(tail) {
            assert(ms + rest =~= rest);
        }
    } else {
        let hd = ms[0];
        let tl = ms.drop_first();
        assert(wf_records(tl)) by {
            assert(forall|j: int| 0 <= j < tl.len() ==> #[trigger] tl[j] == ms[j + 1]);
        }
        let rest_bytes = ser_records(tl) + tail;
        let b = ser_records(ms) + tail;
        assert(b =~= ser_record(hd) + rest_bytes);
        lemma_parse_record_of_ser(hd, rest_bytes);
        assert(b.len() > 0);
        lemma_parse_records_step(b);
        assert(b.skip(12 + hd.payload.len() as int) =~= rest_bytes);
        lemma_parse_after_records(tl, tail);
        match parse_records(tail) {
            Ok(rest) => {
                assert(seq![hd] + (tl + rest) =~= ms + rest);
            },
            Err(_) => {},
        }
    }
}

/// Round trip: serializing any sequence of well-formed records and parsing
/// the result yields exactly that sequence — same order, same type codes,
/// same payloads, same derived checksums.
pub proof fn lemma_round_trip(ms: Seq<RecordModel>)
    requires
        wf_records(ms),
    ensures
        parse_container(ser_container(ms)) == Ok::<Seq<RecordModel>, ChunkError>(ms),
{
    let b = ser_container(ms);
    assert(b.subrange(0, 8) =~= signature());
    assert(b.skip(8) =~= ser_records(ms) + Seq::<u8>::empty());
    lemma_parse_after_records(ms, Seq::empty());
    assert(parse_records(Seq::<u8>::empty()) == Ok::<Seq<RecordModel>, ChunkError>(
        Seq::empty(),
    ));
    assert(ms + Seq::<RecordModel>::empty() =~= ms);
}

/// Appending two records keeps them in order: the round trip of the grown
/// sequence returns them at the end, in append order.
pub proof fn lemma_append_preserves_order(ms: Seq<RecordModel>, a: RecordModel, b: RecordModel)
    requires
        wf_records(ms),
        wf_record(a),
        wf_record(b),
    ensures
        parse_container(ser_container(ms.push(a).push(b))) == Ok::<
            Seq<RecordModel>,
            ChunkError,
        >(ms.push(a).push(b)),
        ms.push(a).push(b)[ms.len() as int] == a,
        ms.push(a).push(b)[ms.len() as int + 1] == b,
{
    let grown = ms.push(a).push(b);
    assert(wf_records(grown)) by {
        assert(forall|i: int| 0 <= i < ms.len() ==> #[trigger] grown[i] == ms[i]);
    }
    lemma_round_trip(grown);
}

/// Checksum sensitivity: flipping any single bit of the type-code or
/// payload region of a serialized record makes the parse fail with
/// `ChecksumMismatch` — the framing is unchanged, but the recomputed
/// checksum no longer equals the stored one.
pub proof fn lemma_checksum_sensitivity(m: RecordModel, i: int, k: u8)
    requires
        wf_record(m),
        4 <= i < 8 + m.payload.len(),
        k < 8,
    ensures
        parse_record(ser_record(m).update(i, ser_record(m)[i] ^ (1u8 << k))) == Err::<
            (RecordModel, int),
            ChunkError,
        >(ChunkError::ChecksumMismatch),
{
    let s = ser_record(m);
    let orig = s[i];
    let x = orig ^ (1u8 << k);
    assert(x != orig) by (bit_vector)
        requires
            x == orig ^ (1u8 << k) && k < 8,
    ;
    let t = s.update(i, x);
    let ll = m.payload.len() as int;
    assert(s.len() == 12 + ll);
    let len32 = m.payload.len() as u32;
    assert(t[0] == ((len32 >> 24) & 0xff) as u8);
    assert(t[1] == ((len32 >> 16) & 0xff) as u8);
    assert(t[2] == ((len32 >> 8) & 0xff) as u8);
    assert(t[3] == (len32 & 0xff) as u8);
    lemma_be32_roundtrip(len32);
    let l = be32_value(t[0], t[1], t[2], t[3]) as int;
    assert(l == ll);
    let body = m.tc + m.payload;
    let pm = RecordModel { tc: t.subrange(4, 8), payload: t.subrange(8, 8 + l) };
    assert(pm.tc + pm.payload =~= body.update(i - 4, x)) by {
        assert(forall|j: int| 0 <= j < 4 ==> #[trigger] t.subrange(4, 8)[j] == t[4 + j]);
        assert(forall|j: int| 0 <= j < ll ==> #[trigger] t.subrange(8, 8 + ll)[j] == t[8 + j]);
        assert(forall|j: int| 0 <= j < 4 + ll && j != i - 4 ==> #[trigger] body.update(
            i - 4,
            x,
        )[j] == body[j]);
    }
    let c = record_crc(m);
    assert(t[8 + l] == ((c >> 24) & 0xff) as u8);
    assert(t[9 + l] == ((c >> 16) & 0xff) as u8);
    assert(t[10 + l] == ((c >> 8) & 0xff) as u8);
    assert(t[11 + l] == (c & 0xff) as u8);
    lemma_be32_roundtrip(c);
    assert(be32_value(t[8 + l], t[9 + l], t[10 + l], t[11 + l]) == c);
    assert(body[i - 4] == orig);
    lemma_crc32_byte_sensitive(body, i - 4, x);
    assert(record_crc(pm) == crc32(body.update(i - 4, x)));
    assert(record_crc(pm) != c);
}

/// Truncation: when the stray bytes after the last well-formed record
/// declare a payload length that exceeds what remains, the whole parse
/// fails with `TruncatedRecord`.
pub proof fn lemma_truncated_tail(ms: Seq<RecordModel>, tail: Seq<u8>)
    requires
        wf_records(ms),
        tail.len() >= 8,
        be32_value(tail[0], tail[1], tail[2], tail[3]) as int > tail.len() - 8,
    ensures
        parse_container(ser_container(ms) + tail) == Err::<Seq<RecordModel>, ChunkError>(
            ChunkError::TruncatedRecord,
        ),
{
    let b = ser_container(ms) + tail;
    assert(b.subrange(0, 8) =~= signature());
    assert(b.skip(8) =~= ser_records(ms) + tail);
    lemma_parse_after_records(ms, tail);
    lemma_parse_records_step(tail);
}

/// A non-empty byte tail too short for another record's fixed framing
/// fields: shorter than the 8-byte header, or holding a declared payload
/// that fits with no room left for the 4-byte checksum (in particular, a
/// tail of exactly `length + 8` bytes).
pub open spec fn short_framing(tail: Seq<u8>) -> bool {
    if tail.len() < 8 {
        0 < tail.len()
    } else {
        let l = be32_value(tail[0], tail[1], tail[2], tail[3]) as int;
        &&& l <= tail.len() - 8
        &&& tail.len() - 8 - l < 4
    }
}

/// Trailing bytes: when the stray bytes after the last well-formed record
/// cannot hold another record's fixed framing fields, the whole parse
/// fails with `TrailingBytes`.
pub proof fn lemma_trailing_tail(ms: Seq<RecordModel>, tail: Seq<u8>)
    requires
        wf_records(ms),
        short_framing(tail),
    ensures
        parse_container(ser_container(ms) + tail) == Err::<Seq<RecordModel>, ChunkError>(
            ChunkError::TrailingBytes,
        ),
{
    let b = ser_container(ms) + tail;
    assert(b.subrange(0, 8) =~= signature());
    assert(b.skip(8) =~= ser_records(ms) + tail);
    lemma_parse_after_records(ms, tail);
    lemma_parse_records_step(tail);
}

} // verus!
