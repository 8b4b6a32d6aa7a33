//! Records read back: whatever is put into a record, reading it gives out again.

use vstd::prelude::*;

use crate::addr::{v4_text, v6_text};
use crate::capture::{capture_at, CaptureRecordView, CaptureView};
use crate::event::{event_at, event_name, DnsEventView};
use crate::reverse::{seconds_left, ReverseEntryView};
use crate::snapshot::{
    entry_of, ip_key_at, key_addr, rev_value_at, seconds_between, value_name, DnsIpKeyView,
    DnsRevValueView,
};
use crate::wire::{u16_at, u32_at, u64_at, ByteOrder};

verus! {

/// Byte `i` of a number, counted from its lowest.
pub open spec fn byte_of(n: int, i: nat) -> u8
    decreases i,
{
    if i == 0 {
        (n % 256) as u8
    } else {
        byte_of(n / 256, (i - 1) as nat)
    }
}

/// A number in `len` bytes: the lowest byte first in one order, last in the other.
pub open spec fn bytes_for(n: int, len: nat, order: ByteOrder) -> Seq<u8> {
    match order {
        ByteOrder::Little => Seq::new(len, |i: int| byte_of(n, i as nat)),
        ByteOrder::Big => Seq::new(len, |i: int| byte_of(n, (len - 1 - i) as nat)),
    }
}

/// The bytes of a number stand in `data` from `at` on.
pub open spec fn holds(data: Seq<u8>, at: int, n: int, len: nat, order: ByteOrder) -> bool {
    &&& 0 <= at
    &&& at + len <= data.len()
    &&& forall|i: int| 0 <= i < len ==> #[trigger] data[at + i] == bytes_for(n, len, order)[i]
}

/// Numbers of 16 bits are read by their two bytes.
pub proof fn two_bytes_read_back(data: Seq<u8>, at: int, n: u16, order: ByteOrder)
    requires
        holds(data, at, n as int, 2, order),
    ensures
        u16_at(data, at, order) == n,
{
    reveal_with_fuel(byte_of, 2);
    assert(data[at + 0] == bytes_for(n as int, 2, order)[0]);
    assert(data[at + 1] == bytes_for(n as int, 2, order)[1]);
}

/// Numbers of 32 bits are read by their four bytes.
pub proof fn four_bytes_read_back(data: Seq<u8>, at: int, n: u32, order: ByteOrder)
    requires
        holds(data, at, n as int, 4, order),
    ensures
        u32_at(data, at, order) == n,
{
    reveal_with_fuel(byte_of, 4);
    let (low, high) = ((n % 65536) as u16, (n / 65536) as u16);
    let (first, second) = match order {
        ByteOrder::Little => (low, high),
        ByteOrder::Big => (high, low),
    };
    let b = bytes_for(n as int, 4, order);
    assert(data[at + 0] == b[0] && data[at + 1] == b[1] && data[at + 2] == b[2] && data[at + 3]
        == b[3]);
    assert(u16_at(data, at, order) == first);
    assert(u16_at(data, at + 2, order) == second);
}

proof fn lemma_byte_halves(n: u64)
    ensures
        forall|i: nat|
            i < 4 ==> #[trigger] byte_of(n as int, i) == byte_of(n as int % 4294967296, i),
        forall|i: nat| #[trigger]
            byte_of(n as int / 4294967296, i) == byte_of(n as int, i + 4),
{
    let m = n as int;
    let low = m % 4294967296;
    assert(m / 256 / 256 / 256 / 256 == m / 4294967296);
    assert forall|i: nat| #[trigger] byte_of(m / 4294967296, i) == byte_of(m, i + 4) by {
        assert(byte_of(m, i + 4) == byte_of(m / 256, i + 3));
        assert(byte_of(m / 256, i + 3) == byte_of(m / 256 / 256, i + 2));
        assert(byte_of(m / 256 / 256, i + 2) == byte_of(m / 256 / 256 / 256, i + 1));
        assert(byte_of(m / 256 / 256 / 256, i + 1) == byte_of(m / 256 / 256 / 256 / 256, i));
    }
    assert(m % 256 == low % 256);
    assert((m / 256) % 256 == (low / 256) % 256);
    assert((m / 256 / 256) % 256 == (low / 256 / 256) % 256);
    assert((m / 256 / 256 / 256) % 256 == (low / 256 / 256 / 256) % 256);
    assert forall|i: nat| i < 4 implies #[trigger] byte_of(m, i) == byte_of(low, i) by {
        reveal_with_fuel(byte_of, 4);
        if i == 0 {
        } else if i == 1 {
        } else if i == 2 {
        } else {
            assert(i == 3);
        }
    }
}

/// Numbers of 64 bits are read by their eight bytes.
pub proof fn eight_bytes_read_back(data: Seq<u8>, at: int, n: u64, order: ByteOrder)
    requires
        holds(data, at, n as int, 8, order),
    ensures
        u64_at(data, at, order) == n,
{
    let (low, high) = ((n % 4294967296) as u32, (n / 4294967296) as u32);
    let (first, second) = match order {
        ByteOrder::Little => (low, high),
        ByteOrder::Big => (high, low),
    };
    lemma_byte_halves(n);
    let b = bytes_for(n as int, 8, order);
    assert forall|i: int| 0 <= i < 4 implies #[trigger] data[at + i] == bytes_for(
        first as int,
        4,
        order,
    )[i] by {
        assert(data[at + i] == b[i]);
    }
    assert forall|i: int| 0 <= i < 4 implies #[trigger] data[at + 4 + i] == bytes_for(
        second as int,
        4,
        order,
    )[i] by {
        assert(data[at + (4 + i)] == b[4 + i]);
    }
    four_bytes_read_back(data, at, first, order);
    four_bytes_read_back(data, at + 4, second, order);
}

/// The header of a capture record.
pub open spec fn capture_header(
    txid: u16,
    cpu: u16,
    questions: u16,
    answers: u16,
    len: u16,
    order: ByteOrder,
) -> Seq<u8> {
    bytes_for(txid as int, 2, order) + bytes_for(cpu as int, 2, order) + bytes_for(
        questions as int,
        2,
        order,
    ) + bytes_for(answers as int, 2, order) + bytes_for(len as int, 2, order)
}

/// A capture record gives its numbers back, and its payload byte for byte however long it is,
/// whatever follows it; a payload that is cut short comes back as far as it is there.
pub proof fn captures_read_back(
    txid: u16,
    cpu: u16,
    questions: u16,
    answers: u16,
    len: u16,
    payload: Seq<u8>,
    more: Seq<u8>,
    order: ByteOrder,
)
    requires
        payload.len() <= len,
        more.len() > 0 ==> payload.len() == len,
    ensures
        capture_at(
            capture_header(txid, cpu, questions, answers, len, order) + payload + more,
            order,
        ) == (CaptureRecordView {
            txid,
            cpu,
            pay_len: len,
            capture: CaptureView { qdcount: questions, ancount: answers, payload },
        }),
{
    let data = capture_header(txid, cpu, questions, answers, len, order) + payload + more;
    assert(holds(data, 0, txid as int, 2, order));
    assert(holds(data, 2, cpu as int, 2, order));
    assert(holds(data, 4, questions as int, 2, order));
    assert(holds(data, 6, answers as int, 2, order));
    assert(holds(data, 8, len as int, 2, order));
    two_bytes_read_back(data, 0, txid, order);
    two_bytes_read_back(data, 2, cpu, order);
    two_bytes_read_back(data, 4, questions, order);
    two_bytes_read_back(data, 6, answers, order);
    two_bytes_read_back(data, 8, len, order);
    assert(capture_at(data, order).capture.payload =~= payload);
}

/// Behind any header of ten bytes, the payload is as many bytes as the header's last number says,
/// and all there are where they are fewer.
pub proof fn payloads_are_taken_whole(
    header: Seq<u8>,
    payload: Seq<u8>,
    more: Seq<u8>,
    order: ByteOrder,
)
    requires
        header.len() == 10,
        payload.len() <= u16_at(header, 8, order),
        more.len() > 0 ==> payload.len() == u16_at(header, 8, order),
    ensures
        capture_at(header + payload + more, order).capture.payload == payload,
{
    let data = header + payload + more;
    assert(data[8] == header[8] && data[9] == header[9]);
    assert(capture_at(data, order).capture.payload =~= payload);
}

/// An event record, field by field: the record type, the length of the name, the transaction, the
/// number of the answer, the family, three unused bytes, both addresses, the time to live and the
/// name.
pub open spec fn event_record(ev: DnsEventView, unused: Seq<u8>, order: ByteOrder) -> Seq<u8> {
    bytes_for(ev.qtype as int, 2, order) + bytes_for(ev.name_len as int, 2, order) + bytes_for(
        ev.txid as int,
        2,
        order,
    ) + bytes_for(ev.answer_idx as int, 2, order) + seq![ev.is_ipv6] + unused + ev.ip4 + ev.ip6
        + bytes_for(ev.ttl as int, 4, order) + ev.name
}

/// An event record gives the event back that it was made of, whatever its unused bytes hold and
/// whatever follows it.
pub proof fn events_read_back(
    ev: DnsEventView,
    unused: Seq<u8>,
    more: Seq<u8>,
    order: ByteOrder,
)
    requires
        unused.len() == 3,
        ev.ip4.len() == 4,
        ev.ip6.len() == 16,
        ev.name.len() == 256,
    ensures
        event_record(ev, unused, order).len() == 292,
        event_at(event_record(ev, unused, order) + more, order) == ev,
{
    let data = event_record(ev, unused, order) + more;
    assert(holds(data, 0, ev.qtype as int, 2, order));
    assert(holds(data, 2, ev.name_len as int, 2, order));
    assert(holds(data, 4, ev.txid as int, 2, order));
    assert(holds(data, 6, ev.answer_idx as int, 2, order));
    assert(holds(data, 32, ev.ttl as int, 4, order));
    two_bytes_read_back(data, 0, ev.qtype, order);
    two_bytes_read_back(data, 2, ev.name_len, order);
    two_bytes_read_back(data, 4, ev.txid, order);
    two_bytes_read_back(data, 6, ev.answer_idx, order);
    four_bytes_read_back(data, 32, ev.ttl, order);
    let read = event_at(data, order);
    assert(read.ip4 =~= ev.ip4);
    assert(read.ip6 =~= ev.ip6);
    assert(read.name =~= ev.name);
    assert(read =~= ev);
}

/// A key of the reverse cache gives the address back that it was made of.
pub proof fn cache_keys_read_back(key: DnsIpKeyView, unused: Seq<u8>, more: Seq<u8>)
    requires
        unused.len() == 3,
        key.addr.len() == 16,
    ensures
        ip_key_at(seq![key.is_ipv6] + unused + key.addr + more) == key,
{
    let data = seq![key.is_ipv6] + unused + key.addr + more;
    assert(ip_key_at(data).addr =~= key.addr);
}

/// A value of the reverse cache, field by field: the time of insertion, the time to live, the
/// length of the name, two unused bytes and the name.
pub open spec fn value_record(
    value: DnsRevValueView,
    unused: Seq<u8>,
    order: ByteOrder,
) -> Seq<u8> {
    bytes_for(value.inserted_ns as int, 8, order) + bytes_for(value.ttl as int, 4, order)
        + bytes_for(value.name_len as int, 2, order) + unused + value.name
}

/// A value of the reverse cache gives back what it was made of.
pub proof fn cache_values_read_back(
    value: DnsRevValueView,
    unused: Seq<u8>,
    more: Seq<u8>,
    order: ByteOrder,
)
    requires
        unused.len() == 2,
        value.name.len() == 256,
    ensures
        value_record(value, unused, order).len() == 272,
        rev_value_at(value_record(value, unused, order) + more, order) == value,
{
    let data = value_record(value, unused, order) + more;
    assert(holds(data, 0, value.inserted_ns as int, 8, order));
    assert(holds(data, 8, value.ttl as int, 4, order));
    assert(holds(data, 12, value.name_len as int, 2, order));
    eight_bytes_read_back(data, 0, value.inserted_ns, order);
    four_bytes_read_back(data, 8, value.ttl, order);
    two_bytes_read_back(data, 12, value.name_len, order);
    let read = rev_value_at(data, order);
    assert(read.name =~= value.name);
    assert(read =~= value);
}

/// An entry's age is the number of full seconds since it was written, none before that; it has left
/// what its age lacks of its time to live.
pub proof fn ages_are_full_seconds(start_ns: u64, now_ns: u64)
    ensures
        now_ns >= start_ns ==> seconds_between(start_ns, now_ns) * 1_000_000_000 <= now_ns - start_ns
            < (seconds_between(start_ns, now_ns) + 1) * 1_000_000_000,
        now_ns <= start_ns ==> seconds_between(start_ns, now_ns) == 0,
{
}

/// What is left of an entry's time to live and its age make up that time, until it is over.
pub proof fn age_and_rest_make_up_the_ttl(e: ReverseEntryView)
    ensures
        e.age_secs <= e.ttl ==> e.age_secs + seconds_left(e) == e.ttl,
        e.age_secs >= e.ttl ==> seconds_left(e) == 0,
{
}

/// An entry shows the address of its key, and the name, the time to live and the age of its value.
pub proof fn entries_show_what_was_read(
    key: DnsIpKeyView,
    value: DnsRevValueView,
    now_ns: u64,
    inserted: Seq<char>,
    ev: DnsEventView,
)
    requires
        ev.name == value.name,
        ev.name_len == value.name_len,
        key.addr.len() == 16,
    ensures
        ({
            let e = entry_of(key, value, now_ns, inserted);
            &&& e.inserted == inserted
            &&& e.name == event_name(ev)
            &&& e.name == value_name(value)
            &&& e.ttl == value.ttl
            &&& e.age_secs == seconds_between(value.inserted_ns, now_ns)
            &&& e.addr == key_addr(key)
            &&& key.is_ipv6 != 0 ==> e.addr == v6_text(key.addr)
            &&& key.is_ipv6 == 0 ==> e.addr == v4_text(
                seq![key.addr[0], key.addr[1], key.addr[2], key.addr[3]],
            )
        }),
{
    assert(key.addr.take(4) =~= seq![key.addr[0], key.addr[1], key.addr[2], key.addr[3]]);
}

} // verus!
