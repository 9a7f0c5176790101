//! Tests of the type code, record, and container operations.

use pngme::checksum::crc32_compute;
use pngme::container::Container;
use pngme::error::ChunkError;
use pngme::record::Record;
use pngme::type_code::TypeCode;

const SIGNATURE: [u8; 8] = [137, 80, 78, 71, 13, 10, 26, 10];

fn record_bytes(code: &[u8; 4], payload: &[u8]) -> Vec<u8> {
    let mut body = code.to_vec();
    body.extend_from_slice(payload);
    let crc = crc32_compute(&body);
    let mut out = (payload.len() as u32).to_be_bytes().to_vec();
    out.extend_from_slice(&body);
    out.extend_from_slice(&crc.to_be_bytes());
    out
}

fn container_bytes(records: &[(&[u8; 4], &[u8])]) -> Vec<u8> {
    let mut out = SIGNATURE.to_vec();
    for (code, payload) in records {
        out.extend_from_slice(&record_bytes(code, payload));
    }
    out
}

#[test]
fn crc32_standard_check_value() {
    assert_eq!(crc32_compute(b"123456789"), 0xCBF43926);
    assert_eq!(crc32_compute(b""), 0);
    assert_eq!(crc32_compute(b"IEND"), 0xAE426082);
}

#[test]
fn type_code_rust_is_valid() {
    let t = TypeCode::parse_text("RuSt").unwrap();
    assert!(t.is_valid());
    assert!(t.is_reserved_bit_valid());
}

#[test]
fn type_code_digit_is_invalid() {
    let t = TypeCode::parse_text("Ru1t").unwrap();
    assert!(!t.is_valid());
}

#[test]
fn type_code_reserved_bit_set_is_invalid() {
    // all letters, but the third byte is lowercase: bit 5 set
    let t = TypeCode::parse_text("ruzt").unwrap();
    assert!(!t.is_valid());
    assert!(!t.is_reserved_bit_valid());
}

#[test]
fn type_code_classification_bits() {
    let t = TypeCode::parse_text("RuSt").unwrap();
    assert!(t.is_critical()); // 'R' uppercase: bit clear
    assert!(!t.is_public()); // 'u' lowercase: bit set
    assert!(t.is_safe_to_copy()); // 't' lowercase: bit set
    let u = TypeCode::parse_text("rUsT").unwrap();
    assert!(!u.is_critical());
    assert!(u.is_public());
    assert!(!u.is_safe_to_copy());
}

#[test]
fn type_code_text_round_trip() {
    let t = TypeCode::parse_text("RuSt").unwrap();
    assert_eq!(t.to_text(), "RuSt");
    assert_eq!(t.as_bytes(), *b"RuSt");
    let u = TypeCode::parse([82, 117, 83, 116]);
    assert_eq!(u, t);
}

#[test]
fn type_code_wrong_length_is_rejected() {
    assert_eq!(
        TypeCode::parse_text("abc").unwrap_err(),
        ChunkError::InvalidTypeCodeLength
    );
    assert_eq!(
        TypeCode::parse_text("abcde").unwrap_err(),
        ChunkError::InvalidTypeCodeLength
    );
}

#[test]
fn record_create_and_serialize() {
    let t = TypeCode::parse_text("teSt").unwrap();
    let rec = Record::create(t, b"hello".to_vec());
    assert_eq!(rec.length(), 5);
    assert_eq!(rec.checksum(), crc32_compute(b"teSthello"));
    assert_eq!(rec.serialize(), record_bytes(b"teSt", b"hello"));
    assert_eq!(rec.payload_as_text().unwrap(), "hello");
}

#[test]
fn record_parse_reads_back_serialized_form() {
    let bytes = record_bytes(b"teSt", b"hello");
    let (rec, consumed) = Record::parse(&bytes, 0).unwrap();
    assert_eq!(consumed, 17);
    assert_eq!(rec.type_code().to_text(), "teSt");
    assert_eq!(rec.payload().as_slice(), b"hello");
}

#[test]
fn record_payload_not_utf8_is_invalid_encoding() {
    let t = TypeCode::parse_text("teSt").unwrap();
    let rec = Record::create(t, vec![0xff, 0xfe, 0x00]);
    assert_eq!(rec.payload_as_text().unwrap_err(), ChunkError::InvalidEncoding);
}

#[test]
fn record_payload_non_ascii_utf8_decodes() {
    let t = TypeCode::parse_text("teSt").unwrap();
    let rec = Record::create(t, "héllo".as_bytes().to_vec());
    assert_eq!(rec.payload_as_text().unwrap(), "héllo");
}

#[test]
fn container_round_trip_preserves_everything() {
    let buf = container_bytes(&[(b"teSt", b"hello"), (b"ruSt", b"world")]);
    let c = Container::parse(&buf).unwrap();
    assert_eq!(c.len(), 2);
    assert_eq!(c.serialize(), buf);
    let again = Container::parse(&c.serialize()).unwrap();
    assert_eq!(again.len(), 2);
    assert_eq!(again.chunks()[0].type_code().to_text(), "teSt");
    assert_eq!(again.chunks()[0].payload().as_slice(), b"hello");
    assert_eq!(again.chunks()[1].type_code().to_text(), "ruSt");
    assert_eq!(again.chunks()[1].checksum(), crc32_compute(b"ruStworld"));
}

#[test]
fn empty_container_is_just_the_signature() {
    let c = Container::parse(&SIGNATURE.to_vec()).unwrap();
    assert_eq!(c.len(), 0);
    assert_eq!(c.serialize(), SIGNATURE.to_vec());
    let e = Container::new();
    assert_eq!(e.serialize(), SIGNATURE.to_vec());
}

#[test]
fn bad_signature_is_rejected() {
    assert_eq!(
        Container::parse(&vec![1, 2, 3]).unwrap_err(),
        ChunkError::InvalidSignature
    );
    let mut buf = container_bytes(&[(b"teSt", b"hi")]);
    buf[0] = 0;
    assert_eq!(Container::parse(&buf).unwrap_err(), ChunkError::InvalidSignature);
}

#[test]
fn flipping_any_payload_or_type_bit_is_checksum_mismatch() {
    let buf = container_bytes(&[(b"teSt", b"hello")]);
    // the record starts at 8; its type and payload occupy offsets 12..21
    for i in 12..21 {
        for k in 0..8 {
            let mut corrupt = buf.clone();
            corrupt[i] ^= 1u8 << k;
            assert_eq!(
                Container::parse(&corrupt).unwrap_err(),
                ChunkError::ChecksumMismatch,
                "bit {k} of byte {i}"
            );
        }
    }
}

#[test]
fn declared_length_beyond_buffer_is_truncated_record() {
    let mut buf = container_bytes(&[(b"teSt", b"hello")]);
    buf[11] = 200; // declare a 200-byte payload; only 5 + trailer remain
    assert_eq!(Container::parse(&buf).unwrap_err(), ChunkError::TruncatedRecord);
}

#[test]
fn stray_bytes_after_last_record_are_trailing_bytes() {
    // a full record minus its 4-byte checksum: length + 8 stray bytes
    let mut buf = container_bytes(&[(b"teSt", b"hello")]);
    let stray = record_bytes(b"ruSt", b"ab");
    buf.extend_from_slice(&stray[..stray.len() - 4]);
    assert_eq!(Container::parse(&buf).unwrap_err(), ChunkError::TrailingBytes);
    // fewer than 8 stray bytes cannot even open a record header
    let mut short = container_bytes(&[(b"teSt", b"hello")]);
    short.extend_from_slice(&[0, 0, 0]);
    assert_eq!(Container::parse(&short).unwrap_err(), ChunkError::TrailingBytes);
}

#[test]
fn append_preserves_order_and_find_returns_the_earlier_match() {
    let mut c = Container::new();
    let a = Record::create(TypeCode::parse_text("aaAa").unwrap(), b"first".to_vec());
    let b = Record::create(TypeCode::parse_text("bbBb").unwrap(), b"second".to_vec());
    c.append(a);
    c.append(b);
    let reparsed = Container::parse(&c.serialize()).unwrap();
    assert_eq!(reparsed.chunks()[0].type_code().to_text(), "aaAa");
    assert_eq!(reparsed.chunks()[1].type_code().to_text(), "bbBb");

    let mut d = Container::new();
    d.append(Record::create(TypeCode::parse_text("ccCc").unwrap(), b"early".to_vec()));
    d.append(Record::create(TypeCode::parse_text("ccCc").unwrap(), b"late".to_vec()));
    let hit = d.find_first_matching("ccCc").unwrap();
    assert_eq!(hit.payload().as_slice(), b"early");
}

#[test]
fn remove_first_matching_takes_only_the_first() {
    let buf = container_bytes(&[(b"ccCc", b"early"), (b"ccCc", b"late"), (b"ddDd", b"x")]);
    let mut c = Container::parse(&buf).unwrap();
    let tc = TypeCode::parse_text("ccCc").unwrap();
    let removed = c.remove_first_matching(&tc).unwrap();
    assert_eq!(removed.payload().as_slice(), b"early");
    assert_eq!(c.len(), 2);
    assert_eq!(c.chunks()[0].payload().as_slice(), b"late");
    let missing = TypeCode::parse_text("zzZz").unwrap();
    assert_eq!(c.remove_first_matching(&missing).unwrap_err(), ChunkError::ChunkNotFound);
    assert_eq!(c.len(), 2);
}

#[test]
fn find_first_matching_rejects_wrong_length_text() {
    let buf = container_bytes(&[(b"teSt", b"hello")]);
    let c = Container::parse(&buf).unwrap();
    assert!(c.find_first_matching("teS").is_none());
    assert!(c.find_first_matching("teSts").is_none());
    assert!(c.find_first_matching("teSt").is_some());
}
