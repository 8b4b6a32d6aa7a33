use ebpf_dns_cache::capture::{decode_capture, Capture, Captures};
use ebpf_dns_cache::payload::format_payload;
use ebpf_dns_cache::wire::ByteOrder;

#[test]
fn a_payload_takes_twelve_bytes_a_line() {
    assert_eq!(format_payload(&[]), "");
    assert_eq!(format_payload(&[0x0a]), "            0x0a");
    let bytes: Vec<u8> = (0..12).collect();
    assert_eq!(
        format_payload(&bytes),
        "            0x00, 0x01, 0x02, 0x03, 0x04, 0x05, 0x06, 0x07, 0x08, 0x09, 0x0a, 0x0b"
    );
    let bytes: Vec<u8> = (244..=255).chain(0..2).collect();
    assert_eq!(
        format_payload(&bytes),
        "            0xf4, 0xf5, 0xf6, 0xf7, 0xf8, 0xf9, 0xfa, 0xfb, 0xfc, 0xfd, 0xfe, 0xff,\n            0x00, 0x01"
    );
}

#[test]
fn different_payloads_are_written_differently() {
    let mut texts: Vec<String> = Vec::new();
    for n in 0..40 {
        texts.push(format_payload(&vec![0x11; n]));
        texts.push(format_payload(&vec![0x12; n + 1]));
    }
    let all = texts.len();
    texts.sort();
    texts.dedup();
    assert_eq!(texts.len(), all);
}

fn record(txid: u16, cpu: u16, qd: u16, an: u16, len: u16, payload: &[u8]) -> Vec<u8> {
    let mut bytes = Vec::new();
    for n in [txid, cpu, qd, an, len] {
        bytes.extend_from_slice(&n.to_ne_bytes());
    }
    bytes.extend_from_slice(payload);
    bytes
}

const EMPTY: &str = "{\n    \"payloads\": {\n\n    }\n}\n";

#[test]
fn no_captures_make_an_empty_file() {
    assert_eq!(Captures::new().payloads_text(), EMPTY);
}

#[test]
fn captures_are_written_in_key_order() {
    let mut captures = Captures::new();
    let first = captures.record(true, &record(9, 1, 1, 2, 2, &[0xab, 0xcd, 0xef])).unwrap();
    assert_eq!(first.log, "captured 9_1 (q=1 a=2 2 bytes)");
    assert_eq!(
        first.text,
        "{\n    \"payloads\": {\n        \"9_1\": {\n            \"questions\": 1,\n            \"answers\": 2,\n            \"payload\": [\n            0xab, 0xcd\n            ]\n        }\n    }\n}\n"
    );
    let second = captures.record(true, &record(10, 0, 3, 4, 0, &[1])).unwrap();
    assert_eq!(
        second.text,
        "{\n    \"payloads\": {\n        \"10_0\": {\n            \"questions\": 3,\n            \"answers\": 4,\n            \"payload\": [\n\n            ]\n        },\n        \"9_1\": {\n            \"questions\": 1,\n            \"answers\": 2,\n            \"payload\": [\n            0xab, 0xcd\n            ]\n        }\n    }\n}\n"
    );
    assert_eq!(second.text, captures.payloads_text());
}

#[test]
fn the_last_capture_of_a_packet_is_kept() {
    let mut captures = Captures::new();
    captures.record(true, &record(5, 0, 1, 1, 1, &[1]));
    captures.record(true, &record(5, 1, 1, 1, 1, &[2]));
    captures.record(true, &record(5, 0, 1, 1, 1, &[3]));
    let text = captures.payloads_text();
    assert!(!text.contains("0x01"));
    assert!(text.find("\"5_0\"").unwrap() < text.find("0x03").unwrap());
    assert!(text.find("0x03").unwrap() < text.find("\"5_1\"").unwrap());
    assert_eq!(text.matches("questions").count(), 2);

    let mut same = Captures::new();
    same.insert("5_1".to_string(), Capture { qdcount: 1, ancount: 1, payload: vec![2] });
    same.insert("5_0".to_string(), Capture { qdcount: 1, ancount: 1, payload: vec![3] });
    assert_eq!(same.payloads_text(), text);
}

#[test]
fn nothing_is_captured_while_switched_off_or_cut_short() {
    let mut captures = Captures::new();
    assert!(captures.record(false, &record(5, 0, 1, 1, 1, &[1])).is_none());
    assert!(captures.record(true, &[0; 9]).is_none());
    assert_eq!(captures.payloads_text(), EMPTY);
    assert!(captures.record(true, &[0; 10]).is_some());
}

#[test]
fn a_payload_that_is_cut_keeps_what_there_is() {
    let bytes = [0, 7, 0, 1, 0, 2, 0, 3, 0, 200, 0xaa, 0xbb];
    let c = decode_capture(&bytes, ByteOrder::Big).unwrap();
    assert_eq!((c.txid, c.cpu, c.pay_len), (7, 1, 200));
    assert_eq!((c.capture.qdcount, c.capture.ancount), (2, 3));
    assert_eq!(c.capture.payload, vec![0xaa, 0xbb]);
    assert_eq!(c.key(), "7_1");
    assert_eq!(c.log_line(), "captured 7_1 (q=2 a=3 200 bytes)");
    let c = decode_capture(&bytes, ByteOrder::Little).unwrap();
    assert_eq!((c.txid, c.cpu, c.pay_len), (0x0700, 0x0100, 200 * 256));
    assert!(decode_capture(&bytes[..9], ByteOrder::Big).is_none());
}

#[test]
fn packets_with_the_same_digits_are_told_apart() {
    let mut captures = Captures::new();
    captures.record(true, &record(1, 23, 1, 0, 1, &[1]));
    captures.record(true, &record(12, 3, 1, 0, 1, &[2]));
    let text = captures.payloads_text();
    assert!(text.contains("\"1_23\"") && text.contains("\"12_3\""));
    // A digit comes before the separator.
    assert!(text.find("\"12_3\"").unwrap() < text.find("\"1_23\"").unwrap());
}

/// The bytes of the tokens between the commas.
fn read_back(text: &str) -> Vec<u8> {
    if text.trim().is_empty() {
        return Vec::new();
    }
    text.split(',')
        .map(|token| u8::from_str_radix(token.trim().strip_prefix("0x").unwrap(), 16).unwrap())
        .collect()
}

#[test]
fn a_payload_reads_back() {
    let bytes: Vec<u8> = (0..=255).collect();
    for n in 0..=256 {
        assert_eq!(read_back(&format_payload(&bytes[..n])), bytes[..n]);
    }
}

#[test]
fn whole_lines_are_put_together() {
    let bytes: Vec<u8> = (100..200).collect();
    for n in [12, 24, 36] {
        for m in [1, 11, 12, 13, 40] {
            assert_eq!(
                format_payload(&bytes[..n + m]),
                format!("{},\n{}", format_payload(&bytes[..n]), format_payload(&bytes[n..n + m]))
            );
        }
    }
}
