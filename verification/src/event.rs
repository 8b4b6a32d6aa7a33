//! Answer events: one record for every address that the kernel side saw in a DNS response.

use vstd::prelude::*;
use vstd::slice::slice_subrange;
use vstd::string::*;

use crate::addr::{
    format_v4, format_v6, v4_text, v4_text_has_no_colon, v6_text, v6_text_has_a_colon,
};
use crate::feed::{FeedEvent, FeedEventView};
use crate::filter::{family_shown, IpFilter};
use crate::layout::{field_offset, struct_size};
use crate::records::{event_fields, field_bytes, record_layouts, DNS_MAX_NAME_LEN};
use crate::text::{decimal, push_decimal, text_of, utf8_lossy};
use crate::wire::{
    machine_order, native_order, read_array, read_u16, read_u32, u16_at, u32_at, ByteOrder,
};

verus! {

/// The size of an event record.
pub const EVENT_SIZE: usize = 292;

/// The bytes that a record has for a name.
pub const NAME_ROOM: usize = 256;

/// An answer event.
pub struct DnsEvent {
    pub qtype: u16,
    pub name_len: u16,
    pub txid: u16,
    pub answer_idx: u16,
    pub is_ipv6: u8,
    /// The IPv4 address, in network order.
    pub ip4: [u8; 4],
    /// The IPv6 address, in network order.
    pub ip6: [u8; 16],
    pub ttl: u32,
    /// The name's bytes, of which the first `name_len` count.
    pub name: [u8; NAME_ROOM],
}

/// What a [`DnsEvent`] holds.
#[verifier::ext_equal]
pub struct DnsEventView {
    pub qtype: u16,
    pub name_len: u16,
    pub txid: u16,
    pub answer_idx: u16,
    pub is_ipv6: u8,
    pub ip4: Seq<u8>,
    pub ip6: Seq<u8>,
    pub ttl: u32,
    pub name: Seq<u8>,
}

impl View for DnsEvent {
    type V = DnsEventView;

    open spec fn view(&self) -> DnsEventView {
        DnsEventView {
            qtype: self.qtype,
            name_len: self.name_len,
            txid: self.txid,
            answer_idx: self.answer_idx,
            is_ipv6: self.is_ipv6,
            ip4: self.ip4@,
            ip6: self.ip6@,
            ttl: self.ttl,
            name: self.name@,
        }
    }
}

/// The event that a record holds.
pub open spec fn event_at(data: Seq<u8>, order: ByteOrder) -> DnsEventView {
    DnsEventView {
        qtype: u16_at(data, 0, order),
        name_len: u16_at(data, 2, order),
        txid: u16_at(data, 4, order),
        answer_idx: u16_at(data, 6, order),
        is_ipv6: data[8],
        ip4: data.subrange(12, 16),
        ip6: data.subrange(16, 32),
        ttl: u32_at(data, 32, order),
        name: data.subrange(36, 292),
    }
}

/// Reads an event record whose numbers stand in the given byte order; `None` where the bytes are
/// too few. What follows the record is not looked at.
pub fn decode_dns_event(data: &[u8], order: ByteOrder) -> (r: Option<DnsEvent>)
    ensures
        r is None <==> data@.len() < EVENT_SIZE,
        r matches Some(ev) ==> ev@ == event_at(data@, order),
{
    if data.len() < EVENT_SIZE {
        return None;
    }
    let ev = DnsEvent {
        qtype: read_u16(data, 0, order),
        name_len: read_u16(data, 2, order),
        txid: read_u16(data, 4, order),
        answer_idx: read_u16(data, 6, order),
        is_ipv6: data[8],
        ip4: read_array(data, 12),
        ip6: read_array(data, 16),
        ttl: read_u32(data, 32, order),
        name: read_array(data, 36),
    };
    assert(ev@ =~= event_at(data@, order));
    Some(ev)
}

/// Reads an event record of this machine.
pub fn read_dns_event(data: &[u8]) -> (r: Option<DnsEvent>)
    ensures
        r is None <==> data@.len() < EVENT_SIZE,
        r matches Some(ev) ==> ev@ == event_at(data@, machine_order()),
{
    decode_dns_event(data, native_order())
}

/// The bytes of the name: as many as the record says, within its limit.
pub open spec fn name_bytes(name: Seq<u8>, name_len: u16) -> Seq<u8> {
    name.take(
        if name_len <= DNS_MAX_NAME_LEN {
            name_len as int
        } else {
            DNS_MAX_NAME_LEN as int
        },
    )
}

/// The name of a record, as text.
pub(crate) fn name_text(name: &[u8; NAME_ROOM], name_len: u16) -> (s: String)
    ensures
        s@ == text_of(name_bytes(name@, name_len)),
{
    let n: usize = if (name_len as usize) <= DNS_MAX_NAME_LEN {
        name_len as usize
    } else {
        DNS_MAX_NAME_LEN
    };
    let bytes = slice_subrange(name.as_slice(), 0, n);
    assert(bytes@ =~= name_bytes(name@, name_len));
    utf8_lossy(bytes)
}

/// The name of an event, as text.
pub open spec fn event_name(ev: DnsEventView) -> Seq<char> {
    text_of(name_bytes(ev.name, ev.name_len))
}

/// The record type by the address family.
pub open spec fn event_type(ev: DnsEventView) -> Seq<char> {
    if ev.is_ipv6 != 0 {
        "AAAA"@
    } else {
        "A"@
    }
}

/// The address of an event, as text.
pub open spec fn event_addr(ev: DnsEventView) -> Seq<char> {
    if ev.is_ipv6 != 0 {
        v6_text(ev.ip6)
    } else {
        v4_text(ev.ip4)
    }
}

/// How an event is logged.
pub open spec fn event_summary(ev: DnsEventView) -> Seq<char> {
    "[txid="@ + decimal(ev.txid as nat) + " answer="@ + decimal(ev.answer_idx as nat) + "] "@
        + event_name(ev) + " "@ + event_type(ev) + " "@ + event_addr(ev)
}

impl DnsEvent {
    /// The name that the address belongs to.
    pub fn name(&self) -> (s: String)
        ensures
            s@ == event_name(self@),
    {
        name_text(&self.name, self.name_len)
    }

    pub fn record_type(&self) -> (s: &'static str)
        ensures
            s@ == event_type(self@),
    {
        if self.is_ipv6 != 0 {
            "AAAA"
        } else {
            "A"
        }
    }

    /// The address, as text.
    pub fn addr(&self) -> (s: String)
        ensures
            s@ == event_addr(self@),
    {
        if self.is_ipv6 != 0 {
            format_v6(&self.ip6)
        } else {
            format_v4(&self.ip4)
        }
    }

    /// The line that is logged for the event.
    pub fn log_line(&self) -> (s: String)
        ensures
            s@ == event_summary(self@),
    {
        let mut s = "[txid=".to_owned();
        push_decimal(&mut s, self.txid as u64);
        s.append(" answer=");
        push_decimal(&mut s, self.answer_idx as u64);
        s.append("] ");
        s.append(self.name().as_str());
        s.append(" ");
        s.append(self.record_type());
        s.append(" ");
        s.append(self.addr().as_str());
        s
    }
}

/// The line to log for an event record of this machine; none where the bytes are too few.
pub fn dns_event_line(data: &[u8]) -> (r: Option<String>)
    ensures
        r is None <==> data@.len() < EVENT_SIZE,
        r matches Some(s) ==> s@ == event_summary(event_at(data@, machine_order())),
{
    match read_dns_event(data) {
        Some(ev) => Some(ev.log_line()),
        None => None,
    }
}

/// An event as it enters the feed, not numbered yet.
pub open spec fn feed_event(ev: DnsEventView, time: Seq<char>) -> FeedEventView {
    FeedEventView {
        time,
        seq: 0,
        name: event_name(ev),
        record_type: event_type(ev),
        addr: event_addr(ev),
        ttl: ev.ttl,
        txid: ev.txid,
        answer_idx: ev.answer_idx,
    }
}

impl FeedEvent {
    /// Makes a feed event of an answer event that arrived at the local time `time`.
    pub fn from(ev: &DnsEvent, time: String) -> (e: FeedEvent)
        ensures
            e@ == feed_event(ev@, time@),
    {
        FeedEvent {
            time,
            seq: 0,
            name: ev.name(),
            record_type: ev.record_type(),
            addr: ev.addr(),
            ttl: ev.ttl,
            txid: ev.txid,
            answer_idx: ev.answer_idx,
        }
    }
}

/// The feed event for an event record of this machine that arrived at the local time `time`; none
/// where the bytes are too few.
pub fn feed_event_from(data: &[u8], time: String) -> (r: Option<FeedEvent>)
    ensures
        r is None <==> data@.len() < EVENT_SIZE,
        r matches Some(e) ==> e@ == feed_event(event_at(data@, machine_order()), time@),
{
    match read_dns_event(data) {
        Some(ev) => Some(FeedEvent::from(&ev, time)),
        None => None,
    }
}

/// An event is read from where the fields of its record stand, and fills the record.
pub proof fn events_are_read_by_the_layout(data: Seq<u8>, order: ByteOrder)
    ensures
        EVENT_SIZE == struct_size(event_fields()),
        event_at(data, order) == (DnsEventView {
            qtype: u16_at(data, field_offset(event_fields(), 0) as int, order),
            name_len: u16_at(data, field_offset(event_fields(), 1) as int, order),
            txid: u16_at(data, field_offset(event_fields(), 2) as int, order),
            answer_idx: u16_at(data, field_offset(event_fields(), 3) as int, order),
            is_ipv6: data[field_offset(event_fields(), 4) as int],
            ip4: field_bytes(data, event_fields(), 6),
            ip6: field_bytes(data, event_fields(), 7),
            ttl: u32_at(data, field_offset(event_fields(), 8) as int, order),
            name: field_bytes(data, event_fields(), 9),
        }),
{
    record_layouts();
}

/// An address is shown by the filter of its own family and hidden by that of the other.
pub proof fn family_filter_follows_the_record(ev: DnsEventView)
    ensures
        family_shown(IpFilter::V6, event_addr(ev)) <==> ev.is_ipv6 != 0,
        family_shown(IpFilter::V4, event_addr(ev)) <==> ev.is_ipv6 == 0,
{
    v4_text_has_no_colon(ev.ip4);
    v6_text_has_a_colon(ev.ip6);
}

/// What follows a record does not change the event.
pub proof fn trailing_bytes_do_not_count(data: Seq<u8>, more: Seq<u8>, order: ByteOrder)
    requires
        data.len() >= EVENT_SIZE,
    ensures
        event_at(data + more, order) == event_at(data, order),
{
    assert(event_at(data + more, order) =~= event_at(data, order));
}

} // verus!
