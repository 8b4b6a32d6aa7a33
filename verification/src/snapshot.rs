//! Reading the reverse cache: its records, and the entries that are shown of them.

use vstd::prelude::*;

use crate::addr::{
    format_v4, format_v6, v4_text, v4_text_has_no_colon, v6_text, v6_text_has_a_colon,
};
use crate::event::{name_bytes, name_text, NAME_ROOM};
use crate::filter::{family_shown, IpFilter};
use crate::layout::{field_offset, struct_size};
use crate::records::{field_bytes, record_layouts, reverse_key_fields, reverse_value_fields};
use crate::reverse::{seconds_left, ReverseEntry, ReverseEntryView};
use crate::text::text_of;
use crate::wire::{
    machine_order, native_order, read_array, read_u16, read_u32, read_u64, u16_at, u32_at, u64_at,
    ByteOrder,
};

verus! {

/// The size of a key of the reverse cache.
pub const REVERSE_KEY_SIZE: usize = 20;

/// The size of a value of the reverse cache.
pub const REVERSE_VALUE_SIZE: usize = 272;

/// Nanoseconds in a second.
pub const SECOND_NS: u64 = 1_000_000_000;

/// A key of the reverse cache: an address, in network order. An IPv4 address takes the first four
/// bytes.
pub struct DnsIpKey {
    pub is_ipv6: u8,
    pub addr: [u8; 16],
}

/// What a [`DnsIpKey`] holds.
#[verifier::ext_equal]
pub struct DnsIpKeyView {
    pub is_ipv6: u8,
    pub addr: Seq<u8>,
}

impl View for DnsIpKey {
    type V = DnsIpKeyView;

    open spec fn view(&self) -> DnsIpKeyView {
        DnsIpKeyView { is_ipv6: self.is_ipv6, addr: self.addr@ }
    }
}

/// A value of the reverse cache: the name that an address was resolved from, and when.
pub struct DnsRevValue {
    /// When the entry was written, in nanoseconds of the monotonic clock.
    pub inserted_ns: u64,
    pub ttl: u32,
    pub name_len: u16,
    /// The name's bytes, of which the first `name_len` count.
    pub name: [u8; NAME_ROOM],
}

/// What a [`DnsRevValue`] holds.
#[verifier::ext_equal]
pub struct DnsRevValueView {
    pub inserted_ns: u64,
    pub ttl: u32,
    pub name_len: u16,
    pub name: Seq<u8>,
}

impl View for DnsRevValue {
    type V = DnsRevValueView;

    open spec fn view(&self) -> DnsRevValueView {
        DnsRevValueView {
            inserted_ns: self.inserted_ns,
            ttl: self.ttl,
            name_len: self.name_len,
            name: self.name@,
        }
    }
}

/// The key that a record holds.
pub open spec fn ip_key_at(data: Seq<u8>) -> DnsIpKeyView {
    DnsIpKeyView { is_ipv6: data[0], addr: data.subrange(4, 20) }
}

/// The value that a record holds.
pub open spec fn rev_value_at(data: Seq<u8>, order: ByteOrder) -> DnsRevValueView {
    DnsRevValueView {
        inserted_ns: u64_at(data, 0, order),
        ttl: u32_at(data, 8, order),
        name_len: u16_at(data, 12, order),
        name: data.subrange(16, 272),
    }
}

/// Reads a key; `None` where the bytes are too few.
pub fn read_ip_key(data: &[u8]) -> (r: Option<DnsIpKey>)
    ensures
        r is None <==> data@.len() < REVERSE_KEY_SIZE,
        r matches Some(key) ==> key@ == ip_key_at(data@),
{
    if data.len() < REVERSE_KEY_SIZE {
        return None;
    }
    Some(DnsIpKey { is_ipv6: data[0], addr: read_array(data, 4) })
}

/// Reads a value whose numbers stand in the given byte order; `None` where the bytes are too few.
pub fn decode_rev_value(data: &[u8], order: ByteOrder) -> (r: Option<DnsRevValue>)
    ensures
        r is None <==> data@.len() < REVERSE_VALUE_SIZE,
        r matches Some(value) ==> value@ == rev_value_at(data@, order),
{
    if data.len() < REVERSE_VALUE_SIZE {
        return None;
    }
    Some(
        DnsRevValue {
            inserted_ns: read_u64(data, 0, order),
            ttl: read_u32(data, 8, order),
            name_len: read_u16(data, 12, order),
            name: read_array(data, 16),
        },
    )
}

/// Reads a value of this machine.
pub fn read_rev_value(data: &[u8]) -> (r: Option<DnsRevValue>)
    ensures
        r is None <==> data@.len() < REVERSE_VALUE_SIZE,
        r matches Some(value) ==> value@ == rev_value_at(data@, machine_order()),
{
    decode_rev_value(data, native_order())
}

/// The address of a key, as text.
pub open spec fn key_addr(key: DnsIpKeyView) -> Seq<char> {
    if key.is_ipv6 != 0 {
        v6_text(key.addr)
    } else {
        v4_text(key.addr.take(4))
    }
}

/// The name of a value, as text.
pub open spec fn value_name(value: DnsRevValueView) -> Seq<char> {
    text_of(name_bytes(value.name, value.name_len))
}

/// Full seconds between two times; none where the first is not the earlier one.
pub open spec fn seconds_between(start_ns: u64, now_ns: u64) -> u64 {
    if now_ns > start_ns {
        ((now_ns - start_ns) / SECOND_NS as int) as u64
    } else {
        0
    }
}

impl DnsIpKey {
    /// The address, as text.
    pub fn addr_text(&self) -> (s: String)
        ensures
            s@ == key_addr(self@),
    {
        if self.is_ipv6 != 0 {
            format_v6(&self.addr)
        } else {
            let octets: [u8; 4] = [self.addr[0], self.addr[1], self.addr[2], self.addr[3]];
            assert(octets@ =~= self.addr@.take(4));
            format_v4(&octets)
        }
    }
}

impl DnsRevValue {
    /// The name that the address was resolved from.
    pub fn name(&self) -> (s: String)
        ensures
            s@ == value_name(self@),
    {
        name_text(&self.name, self.name_len)
    }

    /// How many full seconds ago the entry was written.
    pub fn age_secs(&self, now_ns: u64) -> (age: u64)
        ensures
            age == seconds_between(self.inserted_ns, now_ns),
    {
        now_ns.saturating_sub(self.inserted_ns) / SECOND_NS
    }
}

/// The entry that is shown for a key and its value.
pub open spec fn entry_of(
    key: DnsIpKeyView,
    value: DnsRevValueView,
    now_ns: u64,
    inserted: Seq<char>,
) -> ReverseEntryView {
    ReverseEntryView {
        inserted,
        addr: key_addr(key),
        name: value_name(value),
        ttl: value.ttl,
        age_secs: seconds_between(value.inserted_ns, now_ns),
    }
}

impl ReverseEntry {
    /// The entry that is shown for a key and its value at the time `now_ns`; `inserted` is the
    /// local time of insertion.
    pub fn from(key: &DnsIpKey, value: &DnsRevValue, now_ns: u64, inserted: String) -> (e:
        ReverseEntry)
        ensures
            e@ == entry_of(key@, value@, now_ns, inserted@),
    {
        ReverseEntry {
            inserted,
            addr: key.addr_text(),
            name: value.name(),
            ttl: value.ttl,
            age_secs: value.age_secs(now_ns),
        }
    }
}

/// Keys and values are read from where the fields of their records stand, and fill the records.
pub proof fn cache_records_are_read_by_the_layout(data: Seq<u8>, order: ByteOrder)
    ensures
        REVERSE_KEY_SIZE == struct_size(reverse_key_fields()),
        ip_key_at(data) == (DnsIpKeyView {
            is_ipv6: data[field_offset(reverse_key_fields(), 0) as int],
            addr: field_bytes(data, reverse_key_fields(), 2),
        }),
        REVERSE_VALUE_SIZE == struct_size(reverse_value_fields()),
        rev_value_at(data, order) == (DnsRevValueView {
            inserted_ns: u64_at(data, field_offset(reverse_value_fields(), 0) as int, order),
            ttl: u32_at(data, field_offset(reverse_value_fields(), 1) as int, order),
            name_len: u16_at(data, field_offset(reverse_value_fields(), 2) as int, order),
            name: field_bytes(data, reverse_value_fields(), 4),
        }),
{
    record_layouts();
}

/// As time goes by an entry gets no younger and has no more seconds left.
pub proof fn entries_grow_older(
    key: DnsIpKeyView,
    value: DnsRevValueView,
    inserted: Seq<char>,
    now_ns: u64,
    later_ns: u64,
)
    requires
        now_ns <= later_ns,
    ensures
        entry_of(key, value, now_ns, inserted).age_secs <= entry_of(
            key,
            value,
            later_ns,
            inserted,
        ).age_secs,
        seconds_left(entry_of(key, value, later_ns, inserted)) <= seconds_left(
            entry_of(key, value, now_ns, inserted),
        ),
{
}

/// An entry is shown by the filter of its address's own family and hidden by that of the other.
pub proof fn family_filter_follows_the_key(key: DnsIpKeyView)
    ensures
        family_shown(IpFilter::V6, key_addr(key)) <==> key.is_ipv6 != 0,
        family_shown(IpFilter::V4, key_addr(key)) <==> key.is_ipv6 == 0,
{
    v4_text_has_no_colon(key.addr.take(4));
    v6_text_has_a_colon(key.addr);
}

} // verus!
