//! One length-prefixed, type-tagged, checksummed record.

use vstd::prelude::*;

use vstd::slice::{slice_subrange, slice_to_vec};
use vstd::utf8::{decode_utf8, valid_utf8};

use crate::checksum::{crc32, crc32_compute};
use crate::codec::{
    be32_bytes, be32_value, parse_record, record_crc, ser_record, wf_record, RecordModel,
};
use crate::error::ChunkError;
use crate::text::bytes_to_string;
use crate::type_code::TypeCode;

verus! {

broadcast use crate::type_code::lemma_type_code_len;

/// Computes the record checksum: CRC-32 over the type code bytes followed
/// by the payload bytes.
fn crc_over(tc: &TypeCode, payload: &[u8]) -> (c: u32)
    ensures
        c == crc32(tc@ + payload@),
{
    let mut data: Vec<u8> = Vec::new();
    data.push(tc.byte_at(0));
    data.push(tc.byte_at(1));
    data.push(tc.byte_at(2));
    data.push(tc.byte_at(3));
    let mut pv = slice_to_vec(payload);
    data.append(&mut pv);
    proof {
        assert(data@ =~= tc@ + payload@);
    }
    crc32_compute(data.as_slice())
}

/// Appends the 4 big-endian bytes of a 32-bit value.
fn push_be32(out: &mut Vec<u8>, n: u32)
    ensures
        final(out)@ == old(out)@ + be32_bytes(n),
{
    proof {
        assert((n >> 24) & 0xff < 256 && (n >> 16) & 0xff < 256 && (n >> 8) & 0xff < 256 && n
            & 0xff < 256) by (bit_vector);
    }
    out.push(((n >> 24) & 0xff) as u8);
    out.push(((n >> 16) & 0xff) as u8);
    out.push(((n >> 8) & 0xff) as u8);
    out.push((n & 0xff) as u8);
    proof {
        assert(out@ =~= old(out)@ + be32_bytes(n));
    }
}

/// Reads 4 big-endian bytes of `buf` starting at `i` as a 32-bit value.
fn read_be32(buf: &Vec<u8>, i: usize) -> (n: u32)
    requires
        i + 4 <= buf@.len(),
    ensures
        n == be32_value(buf@[i as int], buf@[i + 1], buf@[i + 2], buf@[i + 3]),
{
    let n = buf.len();
    assert(i + 4 <= n);
    ((buf[i] as u32) << 24) | ((buf[i + 1] as u32) << 16) | ((buf[i + 2] as u32) << 8) | (buf[i
        + 3] as u32)
}

/// One record: a type code, an opaque payload owned by value, and the
/// checksum stored with it. A parsed record's stored checksum has been
/// verified; a created record's has just been computed.
#[derive(Debug)]
pub struct Record {
    type_code: TypeCode,
    payload: Vec<u8>,
    crc: u32,
}

impl View for Record {
    type V = RecordModel;

    closed spec fn view(&self) -> RecordModel {
        RecordModel { tc: self.type_code@, payload: self.payload@ }
    }
}

impl Record {
    /// The stored checksum is the one derived from type code and payload.
    pub closed spec fn crc_stored_ok(&self) -> bool {
        self.crc == record_crc(self@)
    }

    /// Structural well-formedness: the payload length fits the 4-byte
    /// length field and the stored checksum matches the contents.
    pub open spec fn wf(&self) -> bool {
        &&& wf_record(self@)
        &&& self.crc_stored_ok()
    }

    /// Builds a fresh record, computing the checksum immediately; the
    /// record owns its payload exclusively.
    pub fn create(type_code: TypeCode, payload: Vec<u8>) -> (r: Record)
        requires
            payload@.len() <= u32::MAX,
        ensures
            r.wf(),
            r@ == (RecordModel { tc: type_code@, payload: payload@ }),
    {
        let crc = crc_over(&type_code, payload.as_slice());
        Record { type_code, payload, crc }
    }

    /// Parses one record from `buf` starting at `offset`; on success,
    /// returns the record and the number of bytes consumed
    /// (`12 + payload length`).
    pub fn parse(buf: &Vec<u8>, offset: usize) -> (r: Result<(Record, usize), ChunkError>)
        requires
            offset <= buf@.len(),
        ensures
            r matches Ok(p) ==> parse_record(buf@.skip(offset as int)) == Ok::<
                (RecordModel, int),
                ChunkError,
            >((p.0@, p.1 as int)) && p.0.wf() && 12 <= p.1 && offset + p.1 <= buf@.len(),
            r matches Err(e) ==> parse_record(buf@.skip(offset as int)) == Err::<
                (RecordModel, int),
                ChunkError,
            >(e),
    {
        let ghost tail = buf@.skip(offset as int);
        proof {
            assert(forall|j: int| 0 <= j < tail.len() ==> #[trigger] tail[j] == buf@[offset + j]);
        }
        let n = buf.len();
        let rem = n - offset;
        if rem < 8 {
            return Err(ChunkError::TrailingBytes);
        }
        let l32 = read_be32(buf, offset);
        let l = l32 as usize;
        if rem - 8 < l {
            return Err(ChunkError::TruncatedRecord);
        }
        if rem - 8 - l < 4 {
            return Err(ChunkError::TrailingBytes);
        }
        let tc = TypeCode::parse(
            [buf[offset + 4], buf[offset + 5], buf[offset + 6], buf[offset + 7]],
        );
        let payload = slice_to_vec(slice_subrange(buf.as_slice(), offset + 8, offset + 8 + l));
        let stored = read_be32(buf, offset + 8 + l);
        let computed = crc_over(&tc, payload.as_slice());
        proof {
            assert(tc@ =~= tail.subrange(4, 8));
            assert(payload@ =~= tail.subrange(8, 8 + l as int));
        }
        if stored != computed {
            return Err(ChunkError::ChecksumMismatch);
        }
        let rec = Record { type_code: tc, payload, crc: computed };
        proof {
            let pm = RecordModel {
                tc: tail.subrange(4, 8),
                payload: tail.subrange(8, 8 + l as int),
            };
            assert(rec@ == pm);
        }
        Ok((rec, 12 + l))
    }

    /// Serialized form: big-endian payload length, type code bytes, payload
    /// bytes, big-endian checksum — `12 + payload length` bytes in all.
    pub fn serialize(&self) -> (out: Vec<u8>)
        requires
            self.wf(),
        ensures
            out@ == ser_record(self@),
    {
        let mut out: Vec<u8> = Vec::new();
        push_be32(&mut out, self.payload.len() as u32);
        out.push(self.type_code.byte_at(0));
        out.push(self.type_code.byte_at(1));
        out.push(self.type_code.byte_at(2));
        out.push(self.type_code.byte_at(3));
        let mut pv = slice_to_vec(self.payload.as_slice());
        out.append(&mut pv);
        push_be32(&mut out, self.crc);
        proof {
            assert(out@ =~= ser_record(self@));
        }
        out
    }

    /// The payload interpreted as UTF-8 text.
    pub fn payload_as_text(&self) -> (r: Result<String, ChunkError>)
        ensures
            r matches Ok(s) ==> valid_utf8(self@.payload) && s@ == decode_utf8(self@.payload),
            r matches Err(e) ==> !valid_utf8(self@.payload) && e == ChunkError::InvalidEncoding,
    {
        bytes_to_string(self.payload.as_slice())
    }

    /// The record's type code.
    pub fn type_code(&self) -> (r: &TypeCode)
        ensures
            r@ == self@.tc,
    {
        &self.type_code
    }

    /// The record's payload bytes, read-only.
    pub fn payload(&self) -> (r: &Vec<u8>)
        ensures
            r@ == self@.payload,
    {
        &self.payload
    }

    /// The stored checksum.
    pub fn checksum(&self) -> (r: u32)
        requires
            self.wf(),
        ensures
            r == record_crc(self@),
    {
        self.crc
    }

    /// The payload length in bytes.
    pub fn length(&self) -> (r: usize)
        ensures
            r == self@.payload.len(),
    {
        self.payload.len()
    }
}

} // verus!
