//! Tests of the buffer-level command operations.

use pngme::checksum::crc32_compute;
use pngme::commands::{delete_record, extract_payload, insert_record, list_type_codes, print};
use pngme::cors::Cors;
use pngme::error::ChunkError;

const SIGNATURE: [u8; 8] = [137, 80, 78, 71, 13, 10, 26, 10];

fn record_bytes(code: &[u8; 4], payload: &[u8]) -> Vec<u8> {
    let mut body = code.to_vec();
    body.extend_from_slice(payload);
    let crc = crc32_compute(&body);
    let mut out = (payload.len() as u32).to_be_bytes().to_vec();
    out.extend_from_slice(&body);
    out.extend_from_slice(&crc.to_be_bytes());
    out
}

fn container_bytes(records: &[(&[u8; 4], &[u8])]) -> Vec<u8> {
    let mut out = SIGNATURE.to_vec();
    for (code, payload) in records {
        out.extend_from_slice(&record_bytes(code, payload));
    }
    out
}

#[test]
fn insert_then_extract_returns_the_payload() {
    let buf = container_bytes(&[(b"friz", b"zle")]);
    let grown = insert_record(&buf, "teSt", "hello").unwrap();
    assert_eq!(extract_payload(&grown, "teSt").unwrap(), "hello");
}

#[test]
fn insert_keeps_the_terminal_marker_last() {
    let buf = container_bytes(&[(b"friz", b"zle"), (b"IEND", b"")]);
    let grown = insert_record(&buf, "teSt", "hello").unwrap();
    let names = list_type_codes(&grown).unwrap();
    assert_eq!(names, vec!["friz", "teSt", "IEND"]);
}

#[test]
fn insert_without_marker_appends_last() {
    let buf = container_bytes(&[(b"friz", b"zle")]);
    let grown = insert_record(&buf, "teSt", "hello").unwrap();
    let names = list_type_codes(&grown).unwrap();
    assert_eq!(names, vec!["friz", "teSt"]);
}

#[test]
fn insert_rejects_wrong_length_type_text() {
    let buf = container_bytes(&[(b"friz", b"zle")]);
    assert_eq!(
        insert_record(&buf, "teS", "hello").unwrap_err(),
        ChunkError::InvalidTypeCodeLength
    );
}

#[test]
fn delete_removes_exactly_the_first_match() {
    let buf = container_bytes(&[(b"ccCc", b"early"), (b"ccCc", b"late")]);
    let shrunk = delete_record(&buf, "ccCc").unwrap();
    assert_eq!(shrunk, container_bytes(&[(b"ccCc", b"late")]));
}

#[test]
fn delete_of_absent_type_fails_and_buffer_reparses_unchanged() {
    let buf = container_bytes(&[(b"teSt", b"hello")]);
    assert_eq!(delete_record(&buf, "zzZz").unwrap_err(), ChunkError::ChunkNotFound);
    // the buffer itself was never touched: it still lists the same records
    assert_eq!(list_type_codes(&buf).unwrap(), vec!["teSt"]);
}

#[test]
fn extract_of_absent_type_is_chunk_not_found() {
    let buf = container_bytes(&[(b"teSt", b"hello")]);
    assert_eq!(extract_payload(&buf, "zzZz").unwrap_err(), ChunkError::ChunkNotFound);
    assert_eq!(extract_payload(&buf, "zz").unwrap_err(), ChunkError::ChunkNotFound);
}

#[test]
fn extract_of_non_utf8_payload_is_invalid_encoding() {
    let buf = container_bytes(&[(b"teSt", &[0xff, 0xfe])]);
    assert_eq!(
        extract_payload(&buf, "teSt").unwrap_err(),
        ChunkError::InvalidEncoding
    );
}

#[test]
fn list_type_codes_keeps_container_order() {
    let buf = container_bytes(&[(b"bbBb", b"x"), (b"aaAa", b"y"), (b"bbBb", b"z")]);
    assert_eq!(list_type_codes(&buf).unwrap(), vec!["bbBb", "aaAa", "bbBb"]);
}

#[test]
fn print_lists_type_codes_in_order() {
    let buf = container_bytes(&[(b"teSt", b"x"), (b"IEND", b"")]);
    assert_eq!(print(&buf).unwrap(), vec!["teSt", "IEND"]);
}

#[test]
fn cors_policy_headers_are_fixed() {
    let headers = Cors::headers();
    assert_eq!(headers.len(), 3);
    assert_eq!(headers[0].0, "Access-Control-Allow-Origin");
    assert_eq!(headers[0].1, "*");
    assert_eq!(headers[1].0, "Access-Control-Allow-Methods");
    assert_eq!(headers[1].1, "POST, PATCH, PUT, DELETE, HEAD, OPTIONS, GET");
    assert_eq!(headers[2].0, "Access-Control-Allow-Headers");
    assert_eq!(headers[2].1, "Authorization, Content-Type, Accept");
}

#[test]
fn commands_propagate_parse_errors() {
    let bad = vec![1, 2, 3, 4];
    assert_eq!(list_type_codes(&bad).unwrap_err(), ChunkError::InvalidSignature);
    assert_eq!(insert_record(&bad, "teSt", "x").unwrap_err(), ChunkError::InvalidSignature);
    assert_eq!(extract_payload(&bad, "teSt").unwrap_err(), ChunkError::InvalidSignature);
    assert_eq!(delete_record(&bad, "teSt").unwrap_err(), ChunkError::InvalidSignature);
    let mut truncated = container_bytes(&[(b"teSt", b"hello")]);
    truncated.pop();
    assert_eq!(
        list_type_codes(&truncated).unwrap_err(),
        ChunkError::TrailingBytes
    );
}
