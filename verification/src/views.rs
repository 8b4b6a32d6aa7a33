//! What is said of a value's contents is said of its fields: nothing is left out or changed.

use vstd::prelude::*;

use crate::app::App;
use crate::capture::{Capture, CaptureRecord};
use crate::event::DnsEvent;
use crate::feed::FeedEvent;
use crate::reverse::ReverseEntry;
use crate::screen::{Screen, TableText};
use crate::snapshot::{DnsIpKey, DnsRevValue};
use crate::worker::Shared;

verus! {

/// A feed event's contents are its fields.
pub proof fn feed_events_are_seen_whole(e: FeedEvent)
    ensures
        e@.time == e.time@,
        e@.seq == e.seq,
        e@.name == e.name@,
        e@.record_type == e.record_type@,
        e@.addr == e.addr@,
        e@.ttl == e.ttl,
        e@.txid == e.txid,
        e@.answer_idx == e.answer_idx,
{
}

/// A cache entry's contents are its fields.
pub proof fn entries_are_seen_whole(e: ReverseEntry)
    ensures
        e@.inserted == e.inserted@,
        e@.addr == e.addr@,
        e@.name == e.name@,
        e@.ttl == e.ttl,
        e@.age_secs == e.age_secs,
{
}

/// The records' contents are their fields.
pub proof fn records_are_seen_whole(ev: DnsEvent, key: DnsIpKey, value: DnsRevValue)
    ensures
        ev@.qtype == ev.qtype,
        ev@.name_len == ev.name_len,
        ev@.txid == ev.txid,
        ev@.answer_idx == ev.answer_idx,
        ev@.is_ipv6 == ev.is_ipv6,
        ev@.ip4 == ev.ip4@,
        ev@.ip6 == ev.ip6@,
        ev@.ttl == ev.ttl,
        ev@.name == ev.name@,
        key@.is_ipv6 == key.is_ipv6,
        key@.addr == key.addr@,
        value@.inserted_ns == value.inserted_ns,
        value@.ttl == value.ttl,
        value@.name_len == value.name_len,
        value@.name == value.name@,
{
}

/// A capture's contents are its fields.
pub proof fn captures_are_seen_whole(c: Capture, r: CaptureRecord)
    ensures
        c@.qdcount == c.qdcount,
        c@.ancount == c.ancount,
        c@.payload == c.payload@,
        r@.txid == r.txid,
        r@.cpu == r.cpu,
        r@.pay_len == r.pay_len,
        r@.capture == r.capture@,
{
}

/// What the worker and the interface share is seen whole.
pub proof fn shared_state_is_seen_whole(s: Shared)
    ensures
        s@.cache.len() == s.cache@.len(),
        forall|i: int| 0 <= i < s.cache@.len() ==> #[trigger] s@.cache[i] == s.cache@[i]@,
        s@.dropped == s.dropped,
        s@.status is Some <==> s.status is Some,
        s.status is Some ==> s@.status->0 == s.status->0@,
        s@.refresh == s.refresh,
{
}

/// The interface is seen whole.
pub proof fn the_interface_is_seen_whole(a: App)
    ensures
        a@.feed.len() == a.feed@.len(),
        forall|i: int| 0 <= i < a.feed@.len() ==> #[trigger] a@.feed[i] == a.feed@[i]@,
        a@.active == a.active,
        a@.feed_state == a.feed_state,
        a@.cache_state == a.cache_state,
        a@.dropped == a.dropped,
        a@.status is Some <==> a.status is Some,
        a.status is Some ==> a@.status->0 == a.status->0@,
        a@.paused == a.paused,
        a@.payload_on == a.payload_on,
        a@.filter == a.filter@,
        a@.filtering == a.filtering,
        a@.ip_filter == a.ip_filter,
        a@.show_help == a.show_help,
        a@.events_sort == a.events_sort,
        a@.cache_sort == a.cache_sort,
        a@.events_view == a.events_view@,
        a@.cache_view == a.cache_view@,
        a@.seq_counter == a.seq_counter,
{
}

/// What is drawn is seen whole.
pub proof fn screens_are_seen_whole(s: Screen, t: TableText)
    ensures
        s@.selected_tab == s.selected_tab,
        s@.status == s.status@,
        s@.status_width == s.status_width,
        s@.table == s.table@,
        s@.state == s.state,
        s@.footer == s.footer@,
        s@.help is Some <==> s.help is Some,
        s.help is Some ==> s@.help->0 == s.help->0@,
        t@.title == t.title@,
        t@.header.len() == t.header@.len(),
        forall|i: int| 0 <= i < t.header@.len() ==> #[trigger] t@.header[i] == t.header@[i]@,
        t@.rows.len() == t.rows@.len(),
        forall|i: int|
            0 <= i < t.rows@.len() ==> (#[trigger] t@.rows[i]).len() == t.rows@[i]@.len(),
        forall|i: int, j: int|
            0 <= i < t.rows@.len() && 0 <= j < t.rows@[i]@.len() ==> #[trigger] t@.rows[i][j]
                == t.rows@[i]@[j]@,
{
}

} // verus!
