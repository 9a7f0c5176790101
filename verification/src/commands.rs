//! The buffer-level operations handed to the external command layer: each
//! takes and returns complete in-memory byte buffers; all file I/O is the
//! caller's responsibility.

use vstd::prelude::*;

use vstd::string::StrSliceExecFns;
use vstd::utf8::{decode_utf8, encode_utf8, valid_utf8};

use crate::codec::{first_match, parse_container, ser_container, RecordModel};
use crate::container::Container;
use crate::error::ChunkError;
use crate::record::Record;
use crate::type_code::{text_bytes, type_text, TypeCode};

verus! {

broadcast use crate::type_code::lemma_type_code_len;

/// The terminal marker type code conventionally kept last: `IEND`.
pub open spec fn terminal_marker() -> Seq<u8> {
    seq![73u8, 69u8, 78u8, 68u8]
}

/// The terminal marker as a type code value.
pub fn terminal_type_code() -> (t: TypeCode)
    ensures
        t@ == terminal_marker(),
{
    let t = TypeCode::parse([73, 69, 78, 68]);
    proof {
        assert(t@ =~= terminal_marker());
    }
    t
}

/// Lists the text form of every record's type code, in container order.
pub fn list_type_codes(buf: &Vec<u8>) -> (r: Result<Vec<String>, ChunkError>)
    ensures
        r matches Ok(names) ==> (parse_container(buf@) matches Ok(ms) && names@.len() == ms.len()
            && (forall|i: int| 0 <= i < ms.len() ==> (#[trigger] names@[i])@ == type_text(
            ms[i].tc,
        ))),
        r matches Err(e) ==> parse_container(buf@) == Err::<Seq<RecordModel>, ChunkError>(e),
{
    let c = match Container::parse(buf) {
        Ok(c) => c,
        Err(e) => {
            return Err(e);
        },
    };
    let chunks = c.chunks();
    let n = chunks.len();
    let mut names: Vec<String> = Vec::new();
    let mut i: usize = 0;
    while i < n
        invariant
            i <= n,
            n == chunks@.len(),
            chunks@.len() == c@.len(),
            forall|j: int| 0 <= j < chunks@.len() ==> (#[trigger] chunks@[j])@ == c@[j],
            names@.len() == i,
            forall|j: int| 0 <= j < i ==> (#[trigger] names@[j])@ == type_text(c@[j].tc),
        decreases n - i,
    {
        names.push(chunks[i].type_code().to_text());
        i = i + 1;
    }
    Ok(names)
}

/// Lists the text form of every record's type code, under the name the
/// external command layer calls the listing operation by.
pub fn print(buf: &Vec<u8>) -> (r: Result<Vec<String>, ChunkError>)
    ensures
        r matches Ok(names) ==> (parse_container(buf@) matches Ok(ms) && names@.len() == ms.len()
            && (forall|i: int| 0 <= i < ms.len() ==> (#[trigger] names@[i])@ == type_text(
            ms[i].tc,
        ))),
        r matches Err(e) ==> parse_container(buf@) == Err::<Seq<RecordModel>, ChunkError>(e),
{
    list_type_codes(buf)
}

/// Extracts the payload of the first record whose type code matches the
/// 4-character text form, interpreted as UTF-8 text.
pub fn extract_payload(buf: &Vec<u8>, code_text: &str) -> (r: Result<String, ChunkError>)
    ensures
        match parse_container(buf@) {
            Err(pe) => (r matches Err(e) && e == pe),
            Ok(ms) => {
                if code_text@.len() != 4 {
                    (r matches Err(e) && e == ChunkError::ChunkNotFound)
                } else {
                    match first_match(ms, text_bytes(code_text@)) {
                        None => (r matches Err(e) && e == ChunkError::ChunkNotFound),
                        Some(i) => {
                            if valid_utf8(ms[i].payload) {
                                (r matches Ok(s) && s@ == decode_utf8(ms[i].payload))
                            } else {
                                (r matches Err(e) && e == ChunkError::InvalidEncoding)
                            }
                        },
                    }
                }
            },
        },
{
    let c = match Container::parse(buf) {
        Ok(c) => c,
        Err(e) => {
            return Err(e);
        },
    };
    match c.find_first_matching(code_text) {
        Some(rec) => rec.payload_as_text(),
        None => Err(ChunkError::ChunkNotFound),
    }
}

/// The record sequence after an insert: the first terminal marker, if one
/// is present, is removed, the new record is appended, and the marker is
/// re-appended last; with no marker the new record simply goes last.
pub open spec fn insert_spec(ms: Seq<RecordModel>, tc: Seq<u8>, payload: Seq<u8>) -> Seq<
    RecordModel,
> {
    let newrec = RecordModel { tc: tc, payload: payload };
    match first_match(ms, terminal_marker()) {
        Some(i) => ms.remove(i).push(newrec).push(ms[i]),
        None => ms.push(newrec),
    }
}

/// Parses the buffer, removes the terminal marker record if present,
/// appends a new record built from the given text forms, re-appends the
/// marker if one was removed, and serializes.
///
/// The payload must fit the record's 4-byte length field.
pub fn insert_record(buf: &Vec<u8>, code_text: &str, payload_text: &str) -> (r: Result<
    Vec<u8>,
    ChunkError,
>)
    requires
        encode_utf8(payload_text@).len() <= u32::MAX,
    ensures
        match parse_container(buf@) {
            Err(pe) => (r matches Err(e) && e == pe),
            Ok(ms) => {
                if code_text@.len() != 4 {
                    (r matches Err(e) && e == ChunkError::InvalidTypeCodeLength)
                } else {
                    (r matches Ok(out) && out@ == ser_container(
                        insert_spec(ms, text_bytes(code_text@), encode_utf8(payload_text@)),
                    ))
                }
            },
        },
{
    let mut c = match Container::parse(buf) {
        Ok(c) => c,
        Err(e) => {
            return Err(e);
        },
    };
    let tc = match TypeCode::parse_text(code_text) {
        Ok(t) => t,
        Err(e) => {
            return Err(e);
        },
    };
    let marker = terminal_type_code();
    let removed = match c.remove_first_matching(&marker) {
        Ok(rec) => Some(rec),
        Err(_) => None,
    };
    let payload = payload_text.as_bytes_vec();
    let rec = Record::create(tc, payload);
    c.append(rec);
    match removed {
        Some(m) => c.append(m),
        None => (),
    }
    proof {
        c.lemma_wf_models();
        let ghost ms = parse_container(buf@)->Ok_0;
        assert(c@ =~= insert_spec(ms, text_bytes(code_text@), encode_utf8(payload_text@)));
    }
    Ok(c.serialize())
}

/// Parses the buffer, removes the first record whose type code matches the
/// 4-character text form, and serializes; a text that is not exactly 4
/// characters matches nothing. A failed removal leaves no effect: the
/// input buffer is never modified.
pub fn delete_record(buf: &Vec<u8>, code_text: &str) -> (r: Result<Vec<u8>, ChunkError>)
    ensures
        match parse_container(buf@) {
            Err(pe) => (r matches Err(e) && e == pe),
            Ok(ms) => {
                if code_text@.len() != 4 {
                    (r matches Err(e) && e == ChunkError::ChunkNotFound)
                } else {
                    match first_match(ms, text_bytes(code_text@)) {
                        None => (r matches Err(e) && e == ChunkError::ChunkNotFound),
                        Some(i) => (r matches Ok(out) && out@ == ser_container(ms.remove(i))),
                    }
                }
            },
        },
{
    let mut c = match Container::parse(buf) {
        Ok(c) => c,
        Err(e) => {
            return Err(e);
        },
    };
    let tc = match TypeCode::parse_text(code_text) {
        Ok(t) => t,
        Err(_) => {
            return Err(ChunkError::ChunkNotFound);
        },
    };
    match c.remove_first_matching(&tc) {
        Ok(_) => {
            proof {
                c.lemma_wf_models();
            }
            Ok(c.serialize())
        },
        Err(e) => Err(e),
    }
}

} // verus!
