use ebpf_dns_cache::event::{
    decode_dns_event, dns_event_line, feed_event_from, read_dns_event, EVENT_SIZE,
};
use ebpf_dns_cache::filter::IpFilter;
use ebpf_dns_cache::reverse::{remaining_secs, ReverseEntry};
use ebpf_dns_cache::snapshot::{decode_rev_value, read_ip_key, read_rev_value};
use ebpf_dns_cache::wire::{native_order, ByteOrder};

/// An event record in the machine's byte order.
fn event_bytes(
    is_ipv6: u8,
    ip4: [u8; 4],
    ip6: [u8; 16],
    ttl: u32,
    ids: (u16, u16),
    name_len: u16,
    name: &[u8],
) -> Vec<u8> {
    let mut bytes = Vec::new();
    bytes.extend_from_slice(&28u16.to_ne_bytes());
    bytes.extend_from_slice(&name_len.to_ne_bytes());
    bytes.extend_from_slice(&ids.0.to_ne_bytes());
    bytes.extend_from_slice(&ids.1.to_ne_bytes());
    bytes.push(is_ipv6);
    bytes.extend_from_slice(&[0xee; 3]);
    bytes.extend_from_slice(&ip4);
    bytes.extend_from_slice(&ip6);
    bytes.extend_from_slice(&ttl.to_ne_bytes());
    bytes.extend_from_slice(name);
    bytes.resize(EVENT_SIZE, 0);
    bytes
}

const UBUNTU: [u8; 16] = [
    0x26, 0x20, 0x00, 0x2d, 0x40, 0x00, 0x00, 0x01, 0, 0, 0, 0, 0, 0, 0x00, 0x17,
];

#[test]
fn logs_an_ipv4_answer() {
    let name = b"api.example.com";
    let bytes = event_bytes(0, [93, 184, 216, 34], [9; 16], 60, (9174, 0), 15, name);
    assert_eq!(
        dns_event_line(&bytes).unwrap(),
        "[txid=9174 answer=0] api.example.com A 93.184.216.34"
    );
}

#[test]
fn logs_an_ipv6_answer() {
    let name = b"connectivity-check.ubuntu.com";
    let bytes = event_bytes(1, [1, 2, 3, 4], UBUNTU, 4294967295, (2976, 3), 29, name);
    assert_eq!(
        dns_event_line(&bytes).unwrap(),
        "[txid=2976 answer=3] connectivity-check.ubuntu.com AAAA 2620:2d:4000:1::17"
    );
}

#[test]
fn one_byte_short_is_no_event() {
    let mut bytes = event_bytes(0, [1, 2, 3, 4], [0; 16], 1, (1, 1), 1, b"a");
    assert_eq!(bytes.len(), 292);
    assert!(read_dns_event(&bytes).is_some());
    bytes.push(7);
    assert_eq!(read_dns_event(&bytes).unwrap().name(), "a");
    bytes.truncate(291);
    assert!(read_dns_event(&bytes).is_none());
    assert!(dns_event_line(&bytes).is_none());
    assert!(feed_event_from(&bytes, String::new()).is_none());
}

#[test]
fn a_name_is_cut_at_its_limit() {
    let bytes = event_bytes(0, [1, 2, 3, 4], [0; 16], 1, (1, 1), 300, &[b'x'; 256]);
    let ev = read_dns_event(&bytes).unwrap();
    assert_eq!(ev.name_len, 300);
    assert_eq!(ev.name(), "x".repeat(255));
    let none = event_bytes(0, [1, 2, 3, 4], [0; 16], 1, (1, 1), 0, b"xyz");
    assert_eq!(read_dns_event(&none).unwrap().name(), "");
}

#[test]
fn a_name_that_is_not_text_is_repaired() {
    let bytes = event_bytes(0, [1, 2, 3, 4], [0; 16], 1, (1, 1), 4, &[b'a', 0xff, b'b', 0xc3]);
    assert_eq!(read_dns_event(&bytes).unwrap().name(), "a\u{fffd}b\u{fffd}");
    let bytes = event_bytes(0, [1, 2, 3, 4], [0; 16], 1, (1, 1), 3, "ü.".as_bytes());
    assert_eq!(read_dns_event(&bytes).unwrap().name(), "ü.");
}

#[test]
fn numbers_follow_the_byte_order() {
    let mut bytes = vec![0u8; 292];
    bytes[0..8].copy_from_slice(&[0x12, 0x34, 0, 2, 0xab, 0xcd, 1, 0]);
    bytes[32..36].copy_from_slice(&[1, 2, 3, 4]);
    let big = decode_dns_event(&bytes, ByteOrder::Big).unwrap();
    assert_eq!((big.qtype, big.name_len, big.txid, big.answer_idx), (0x1234, 2, 0xabcd, 256));
    assert_eq!(big.ttl, 0x01020304);
    let little = decode_dns_event(&bytes, ByteOrder::Little).unwrap();
    assert_eq!(
        (little.qtype, little.name_len, little.txid, little.answer_idx),
        (0x3412, 512, 0xcdab, 1)
    );
    assert_eq!(little.ttl, 0x04030201);
}

#[test]
fn the_machine_order_is_that_of_its_numbers() {
    let expected = if 0x0102u16.to_ne_bytes() == [1, 2] {
        ByteOrder::Big
    } else {
        ByteOrder::Little
    };
    assert_eq!(native_order(), expected);
}

#[test]
fn record_type_and_filter_follow_the_family() {
    let v4 = event_bytes(0, [10, 0, 0, 1], UBUNTU, 1, (1, 1), 1, b"a");
    let v6 = event_bytes(2, [10, 0, 0, 1], UBUNTU, 1, (1, 1), 1, b"a");
    let v4 = feed_event_from(&v4, "01:02:03".to_string()).unwrap();
    let v6 = feed_event_from(&v6, "01:02:03".to_string()).unwrap();
    assert_eq!((v4.record_type, v4.addr.as_str()), ("A", "10.0.0.1"));
    assert_eq!((v6.record_type, v6.addr.as_str()), ("AAAA", "2620:2d:4000:1::17"));
    assert!(IpFilter::V4.accepts(&v4.addr) && !IpFilter::V6.accepts(&v4.addr));
    assert!(IpFilter::V6.accepts(&v6.addr) && !IpFilter::V4.accepts(&v6.addr));
    assert!(IpFilter::Both.accepts(&v4.addr) && IpFilter::Both.accepts(&v6.addr));
    assert_eq!(v4.time, "01:02:03");
}

fn key_bytes(is_ipv6: u8, addr: &[u8]) -> Vec<u8> {
    let mut bytes = vec![is_ipv6, 0, 0, 0];
    bytes.extend_from_slice(addr);
    bytes.resize(20, 0);
    bytes
}

fn value_bytes(inserted_ns: u64, ttl: u32, name: &str) -> Vec<u8> {
    let mut bytes = Vec::new();
    bytes.extend_from_slice(&inserted_ns.to_ne_bytes());
    bytes.extend_from_slice(&ttl.to_ne_bytes());
    bytes.extend_from_slice(&(name.len() as u16).to_ne_bytes());
    bytes.extend_from_slice(&[0; 2]);
    bytes.extend_from_slice(name.as_bytes());
    bytes.resize(272, 0);
    bytes
}

#[test]
fn reads_a_reverse_entry() {
    let name = "d27xxe7juh1us6.cloudfront.net";
    let key = read_ip_key(&key_bytes(0, &[13, 224, 245, 108])).unwrap();
    let value = read_rev_value(&value_bytes(7_000_000_000, 28, name)).unwrap();
    assert_eq!(value.name(), name);
    assert_eq!(value.name_len as usize, name.len());
    assert_eq!(value.ttl, 28);
    assert_eq!(value.inserted_ns, 7_000_000_000);
    let e = ReverseEntry::from(&key, &value, 18_999_999_999, "10:00:00".to_string());
    assert_eq!(e.inserted, "10:00:00");
    assert_eq!(e.addr, "13.224.245.108");
    assert_eq!(e.name, name);
    assert_eq!(e.ttl, 28);
    assert_eq!(e.age_secs, 11);
    assert_eq!(remaining_secs(&e), 17);
}

#[test]
fn entries_run_out_and_clocks_may_lag() {
    let key = read_ip_key(&key_bytes(1, &UBUNTU)).unwrap();
    assert_eq!(key.addr_text(), "2620:2d:4000:1::17");
    let value = read_rev_value(&value_bytes(5_000_000_000, 2, "a")).unwrap();
    assert_eq!(value.age_secs(4_000_000_000), 0);
    assert_eq!(value.age_secs(5_999_999_999), 0);
    assert_eq!(value.age_secs(6_000_000_000), 1);
    let old = ReverseEntry::from(&key, &value, 9_000_000_000, String::new());
    assert_eq!(old.age_secs, 4);
    assert_eq!(remaining_secs(&old), 0);
}

#[test]
fn short_cache_records_are_refused() {
    assert!(read_ip_key(&[0; 19]).is_none());
    assert!(read_ip_key(&[0; 20]).is_some());
    assert!(read_rev_value(&[0; 271]).is_none());
    assert!(decode_rev_value(&[0; 272], ByteOrder::Big).is_some());
}

#[test]
fn long_numbers_follow_the_byte_order() {
    let mut bytes = vec![0u8; 272];
    bytes[0..8].copy_from_slice(&[1, 2, 3, 4, 5, 6, 7, 8]);
    let big = decode_rev_value(&bytes, ByteOrder::Big).unwrap();
    assert_eq!(big.inserted_ns, 0x0102030405060708);
    let little = decode_rev_value(&bytes, ByteOrder::Little).unwrap();
    assert_eq!(little.inserted_ns, 0x0807060504030201);
}
