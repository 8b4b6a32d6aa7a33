use std::cmp::Ordering;

use ebpf_dns_cache::addr::{format_v4, format_v6};
use ebpf_dns_cache::clock::format_hms;
use ebpf_dns_cache::feed::{cmp_event, FeedEvent};
use ebpf_dns_cache::filter::{matches_filter, search_text, IpFilter};
use ebpf_dns_cache::order::{comes_before, order_str, order_u64};
use ebpf_dns_cache::reverse::{cmp_cache, ReverseEntry};
use ebpf_dns_cache::text::{contains_char, contains_part, push_decimal, same_text};

fn v6(groups: [u16; 8]) -> String {
    let mut b = [0u8; 16];
    for i in 0..8 {
        b[2 * i] = (groups[i] >> 8) as u8;
        b[2 * i + 1] = groups[i] as u8;
    }
    format_v6(&b)
}

#[test]
fn ipv4_is_dotted_decimal() {
    assert_eq!(format_v4(&[0, 0, 0, 0]), "0.0.0.0");
    assert_eq!(format_v4(&[255, 10, 9, 100]), "255.10.9.100");
}

#[test]
fn ipv6_leaves_the_longest_gap_out() {
    assert_eq!(v6([0, 0, 0, 0, 0, 0, 0, 0]), "::");
    assert_eq!(v6([0, 0, 0, 0, 0, 0, 0, 1]), "::1");
    assert_eq!(v6([1, 0, 0, 0, 0, 0, 0, 0]), "1::");
    assert_eq!(v6([0x2001, 0xdb8, 0, 0, 1, 0, 0, 1]), "2001:db8::1:0:0:1");
    assert_eq!(v6([0x2001, 0, 0, 1, 0, 0, 0, 1]), "2001:0:0:1::1");
    assert_eq!(v6([0, 1, 0, 2, 0, 3, 0, 4]), "0:1:0:2:0:3:0:4");
    assert_eq!(
        v6([0x2606, 0x2800, 0x220, 1, 0x248, 0x1893, 0x25c8, 0x1946]),
        "2606:2800:220:1:248:1893:25c8:1946"
    );
    assert_eq!(v6([0xfe80, 0, 0, 0, 0xabcd, 0xef01, 0, 0]), "fe80::abcd:ef01:0:0");
    assert_eq!(v6([0, 0, 1, 1, 1, 1, 1, 1]), "::1:1:1:1:1:1");
    assert_eq!(v6([1, 1, 1, 1, 1, 1, 0, 0]), "1:1:1:1:1:1::");
}

#[test]
fn mapped_addresses_show_their_ipv4_part() {
    assert_eq!(v6([0, 0, 0, 0, 0, 0xffff, 0x5db8, 0xd822]), "::ffff:93.184.216.34");
    assert_eq!(v6([0, 0, 0, 0, 0, 0, 0x5db8, 0xd822]), "::5db8:d822");
}

#[test]
fn times_have_two_digits_each() {
    assert_eq!(format_hms(0, 0, 0), "00:00:00");
    assert_eq!(format_hms(23, 59, 60), "23:59:60");
    assert_eq!(format_hms(7, 5, 10), "07:05:10");
    assert_eq!(format_hms(100, 1, 2), "100:01:02");
}

#[test]
fn numbers_are_written_in_decimal() {
    let mut s = String::from("n=");
    push_decimal(&mut s, 0);
    push_decimal(&mut s, 10);
    push_decimal(&mut s, u64::MAX);
    assert_eq!(s, "n=01018446744073709551615");
}

#[test]
fn parts_and_characters_are_found() {
    assert!(contains_part("mail.example.com", "example"));
    assert!(contains_part("aab", "ab"));
    assert!(contains_part("abc", ""));
    assert!(contains_part("", ""));
    assert!(!contains_part("", "a"));
    assert!(!contains_part("abc", "abcd"));
    assert!(!contains_part("abab", "aa"));
    assert!(contains_char("a:b", ':'));
    assert!(!contains_char("ab", ':'));
    assert!(same_text("-v", "-v"));
    assert!(!same_text("-v", "-V"));
    assert!(!same_text("-v", "-vv"));
}

#[test]
fn texts_are_ordered_by_code_point() {
    assert_eq!(order_str("a", "b"), Ordering::Less);
    assert_eq!(order_str("b", "a"), Ordering::Greater);
    assert_eq!(order_str("abc", "ab"), Ordering::Greater);
    assert_eq!(order_str("", ""), Ordering::Equal);
    assert_eq!(order_str("Z", "a"), Ordering::Less);
    assert_eq!(order_str("z", "é"), Ordering::Less);
    assert_eq!(order_str("\u{ffff}", "\u{10000}"), Ordering::Less);
    assert!(comes_before("10_0", "9_0"));
    assert!(!comes_before("9_0", "9_0"));
    assert_eq!(order_u64(1, u64::MAX), Ordering::Less);
}

#[test]
fn search_ignores_case() {
    assert_eq!(search_text(&"EXÄMPLE".to_string()), "exämple");
    assert_eq!(search_text(&String::new()), "");
    assert!(matches_filter("exä", "WWW.EXÄMPLE.COM", "1.1.1.1"));
    assert!(matches_filter("2d:", "x", "2620:2D:4000"));
    assert!(matches_filter("", "x", "y"));
    assert!(!matches_filter("X", "x", "y"), "the search text is given in lower case");
    assert!(!matches_filter("z", "x", "y"));
}

#[test]
fn families_have_labels() {
    assert_eq!(IpFilter::Both.label(), "all");
    assert_eq!(IpFilter::V4.label(), "v4");
    assert_eq!(IpFilter::V6.label(), "v6");
}

fn event(seq: u64, name: &str, kind: &'static str, addr: &str, ttl: u32, ids: (u16, u16)) -> FeedEvent {
    FeedEvent {
        time: String::new(),
        seq,
        name: name.to_string(),
        record_type: kind,
        addr: addr.to_string(),
        ttl,
        txid: ids.0,
        answer_idx: ids.1,
    }
}

#[test]
fn events_compare_by_column() {
    let a = event(5, "B.example", "A", "10.0.0.1", 60, (7, 2));
    let b = event(4, "a.example", "AAAA", "9.0.0.1", 300, (7, 10));
    let orders = [
        Ordering::Greater,
        Ordering::Greater,
        Ordering::Less,
        Ordering::Less,
        Ordering::Less,
        Ordering::Less,
        Ordering::Less,
    ];
    for col in 0..7 {
        assert_eq!(cmp_event(&a, &b, col), orders[col]);
        assert_eq!(cmp_event(&b, &a, col), orders[col].reverse());
        assert_eq!(cmp_event(&a, &a, col), Ordering::Equal);
    }
    let c = event(0, "b.EXAMPLE", "A", "", 0, (6, 99));
    assert_eq!(cmp_event(&a, &c, 1), Ordering::Equal);
    assert_eq!(cmp_event(&c, &a, 5), Ordering::Less);
}

fn entry(addr: &str, name: &str, ttl: u32, age_secs: u64) -> ReverseEntry {
    ReverseEntry {
        inserted: String::new(),
        addr: addr.to_string(),
        name: name.to_string(),
        ttl,
        age_secs,
    }
}

#[test]
fn entries_compare_by_column() {
    let a = entry("1.1.1.1", "Z", 100, 30);
    let b = entry("2.2.2.2", "y", 60, 10);
    let orders = [
        Ordering::Less,
        Ordering::Less,
        Ordering::Greater,
        Ordering::Greater,
        Ordering::Greater,
        Ordering::Greater,
        Ordering::Greater,
    ];
    for col in 0..7 {
        assert_eq!(cmp_cache(&a, &b, col), orders[col]);
        assert_eq!(cmp_cache(&b, &a, col), orders[col].reverse());
    }
    // Both have run out.
    assert_eq!(cmp_cache(&entry("", "", 5, 6), &entry("", "", 5, 700), 5), Ordering::Equal);
}
