//! The live feed of DNS answers.

use core::cmp::Ordering;
use std::collections::VecDeque;

use vstd::prelude::*;

use crate::order::{
    order_str, order_u64, sign_of, text_sign, text_sign_antisymmetric,
    text_sign_transitive, u64_sign, wide16, wide32,
};
use crate::sort::Rows;
use crate::text::lowered;

verus! {

/// The columns of the events panel.
pub const EVENTS_COLS: [&'static str; 6] = ["Time", "Name", "Type", "Address", "TTL", "TxID/Ans"];

/// One decoded DNS answer.
pub struct FeedEvent {
    /// Local arrival time, as `HH:MM:SS`.
    pub time: String,
    /// The place of the event among all that entered the feed. The Time column sorts by it, so
    /// that order survives midnight and events of the same second.
    pub seq: u64,
    pub name: String,
    pub record_type: &'static str,
    pub addr: String,
    pub ttl: u32,
    pub txid: u16,
    pub answer_idx: u16,
}

/// What a [`FeedEvent`] holds.
pub struct FeedEventView {
    pub time: Seq<char>,
    pub seq: u64,
    pub name: Seq<char>,
    pub record_type: Seq<char>,
    pub addr: Seq<char>,
    pub ttl: u32,
    pub txid: u16,
    pub answer_idx: u16,
}

impl View for FeedEvent {
    type V = FeedEventView;

    open spec fn view(&self) -> FeedEventView {
        FeedEventView {
            time: self.time@,
            seq: self.seq,
            name: self.name@,
            record_type: self.record_type@,
            addr: self.addr@,
            ttl: self.ttl,
            txid: self.txid,
            answer_idx: self.answer_idx,
        }
    }
}

/// How two events compare in a column: by arrival, name whatever its case, record type, address,
/// time to live, or transaction and answer number.
pub open spec fn event_sign(a: FeedEventView, b: FeedEventView, col: usize) -> int {
    if col == 0 {
        u64_sign(a.seq, b.seq)
    } else if col == 1 {
        text_sign(lowered(a.name), lowered(b.name))
    } else if col == 2 {
        text_sign(a.record_type, b.record_type)
    } else if col == 3 {
        text_sign(a.addr, b.addr)
    } else if col == 4 {
        u64_sign(a.ttl as u64, b.ttl as u64)
    } else if a.txid != b.txid {
        u64_sign(a.txid as u64, b.txid as u64)
    } else {
        u64_sign(a.answer_idx as u64, b.answer_idx as u64)
    }
}

/// Comparing events the other way round turns the result round.
pub proof fn event_sign_antisymmetric(a: FeedEventView, b: FeedEventView, col: usize)
    ensures
        event_sign(a, b, col) == -event_sign(b, a, col),
{
    text_sign_antisymmetric(lowered(a.name), lowered(b.name));
    text_sign_antisymmetric(a.record_type, b.record_type);
    text_sign_antisymmetric(a.addr, b.addr);
}

/// "Not after" is transitive among events.
pub proof fn event_sign_transitive(
    a: FeedEventView,
    b: FeedEventView,
    c: FeedEventView,
    col: usize,
)
    requires
        event_sign(a, b, col) <= 0,
        event_sign(b, c, col) <= 0,
    ensures
        event_sign(a, c, col) <= 0,
        event_sign(a, b, col) < 0 || event_sign(b, c, col) < 0 ==> event_sign(a, c, col) < 0,
{
    if col == 1 {
        text_sign_transitive(lowered(a.name), lowered(b.name), lowered(c.name));
    } else if col == 2 {
        text_sign_transitive(a.record_type, b.record_type, c.record_type);
    } else if col == 3 {
        text_sign_transitive(a.addr, b.addr, c.addr);
    }
}

/// Compares two events in a column of [`EVENTS_COLS`]; from the last on, all columns are the
/// last.
pub fn cmp_event(a: &FeedEvent, b: &FeedEvent, col: usize) -> (o: Ordering)
    ensures
        sign_of(o) == event_sign(a@, b@, col),
{
    if col == 0 {
        order_u64(a.seq, b.seq)
    } else if col == 1 {
        order_str(a.name.to_lowercase().as_str(), b.name.to_lowercase().as_str())
    } else if col == 2 {
        order_str(a.record_type, b.record_type)
    } else if col == 3 {
        order_str(a.addr.as_str(), b.addr.as_str())
    } else if col == 4 {
        order_u64(wide32(a.ttl), wide32(b.ttl))
    } else if a.txid != b.txid {
        order_u64(wide16(a.txid), wide16(b.txid))
    } else {
        order_u64(wide16(a.answer_idx), wide16(b.answer_idx))
    }
}

/// What the feed holds, event by event.
pub open spec fn feed_view(feed: Seq<FeedEvent>) -> Seq<FeedEventView> {
    feed.map_values(|e: FeedEvent| e@)
}

/// The rows of the events panel, compared in one column.
pub struct EventRows<'a> {
    pub feed: &'a VecDeque<FeedEvent>,
    pub col: usize,
}

impl<'a> Rows for EventRows<'a> {
    open spec fn row_count(&self) -> nat {
        self.feed@.len()
    }

    open spec fn row_sign(&self, i: int, j: int) -> int {
        event_sign(self.feed@[i]@, self.feed@[j]@, self.col)
    }

    proof fn row_sign_antisymmetric(&self, i: int, j: int) {
        event_sign_antisymmetric(self.feed@[i]@, self.feed@[j]@, self.col);
    }

    proof fn row_sign_transitive(&self, i: int, j: int, k: int) {
        event_sign_transitive(self.feed@[i]@, self.feed@[j]@, self.feed@[k]@, self.col);
    }

    fn goes_after(&self, i: usize, j: usize) -> bool {
        match cmp_event(&self.feed[i], &self.feed[j], self.col) {
            Ordering::Greater => true,
            _ => false,
        }
    }
}

} // verus!
