//! The reverse cache: which name an address was last resolved from.

use core::cmp::Ordering;

use vstd::prelude::*;

use crate::order::{
    order_str, order_u64, sign_of, text_sign, text_sign_antisymmetric, text_sign_transitive,
    u64_sign, wide32,
};
use crate::sort::Rows;
use crate::text::lowered;

verus! {

/// The columns of the cache panel.
pub const CACHE_COLS: [&'static str; 6] = ["Time", "Address", "Name", "TTL", "Age", "Left"];

/// One entry of the reverse cache, as of the moment it was read.
pub struct ReverseEntry {
    /// Local time of insertion, as `HH:MM:SS`.
    pub inserted: String,
    pub addr: String,
    pub name: String,
    pub ttl: u32,
    pub age_secs: u64,
}

/// What a [`ReverseEntry`] holds.
pub struct ReverseEntryView {
    pub inserted: Seq<char>,
    pub addr: Seq<char>,
    pub name: Seq<char>,
    pub ttl: u32,
    pub age_secs: u64,
}

impl View for ReverseEntry {
    type V = ReverseEntryView;

    open spec fn view(&self) -> ReverseEntryView {
        ReverseEntryView {
            inserted: self.inserted@,
            addr: self.addr@,
            name: self.name@,
            ttl: self.ttl,
            age_secs: self.age_secs,
        }
    }
}

/// What a list of entries holds.
pub open spec fn cache_view(cache: Seq<ReverseEntry>) -> Seq<ReverseEntryView> {
    cache.map_values(|e: ReverseEntry| e@)
}

/// Seconds left before an entry's time to live is over; none once it is.
pub open spec fn seconds_left(e: ReverseEntryView) -> u64 {
    if e.ttl > e.age_secs {
        (e.ttl - e.age_secs) as u64
    } else {
        0
    }
}

/// Seconds left before an entry's time to live is over, at least zero.
pub fn remaining_secs(e: &ReverseEntry) -> (left: u64)
    ensures
        left == seconds_left(e@),
{
    (e.ttl as u64).saturating_sub(e.age_secs)
}

/// How two entries compare in a column: by time of insertion, address, name whatever its case,
/// time to live, age, or seconds left. An older entry was inserted earlier.
pub open spec fn cache_sign(a: ReverseEntryView, b: ReverseEntryView, col: usize) -> int {
    if col == 0 {
        u64_sign(b.age_secs, a.age_secs)
    } else if col == 1 {
        text_sign(a.addr, b.addr)
    } else if col == 2 {
        text_sign(lowered(a.name), lowered(b.name))
    } else if col == 3 {
        u64_sign(a.ttl as u64, b.ttl as u64)
    } else if col == 4 {
        u64_sign(a.age_secs, b.age_secs)
    } else {
        u64_sign(seconds_left(a), seconds_left(b))
    }
}

/// Comparing entries the other way round turns the result round.
pub proof fn cache_sign_antisymmetric(a: ReverseEntryView, b: ReverseEntryView, col: usize)
    ensures
        cache_sign(a, b, col) == -cache_sign(b, a, col),
{
    text_sign_antisymmetric(lowered(a.name), lowered(b.name));
    text_sign_antisymmetric(a.addr, b.addr);
}

/// "Not after" is transitive among entries.
pub proof fn cache_sign_transitive(
    a: ReverseEntryView,
    b: ReverseEntryView,
    c: ReverseEntryView,
    col: usize,
)
    requires
        cache_sign(a, b, col) <= 0,
        cache_sign(b, c, col) <= 0,
    ensures
        cache_sign(a, c, col) <= 0,
        cache_sign(a, b, col) < 0 || cache_sign(b, c, col) < 0 ==> cache_sign(a, c, col) < 0,
{
    if col == 1 {
        text_sign_transitive(a.addr, b.addr, c.addr);
    } else if col == 2 {
        text_sign_transitive(lowered(a.name), lowered(b.name), lowered(c.name));
    }
}

/// The Time column of the cache sorts exactly against its Age column.
pub proof fn insertion_order_is_reverse_age_order(a: ReverseEntryView, b: ReverseEntryView)
    ensures
        cache_sign(a, b, 0) == -cache_sign(a, b, 4),
{
}

/// Compares two entries in a column of [`CACHE_COLS`]; from the last on, all columns are the
/// last.
pub fn cmp_cache(a: &ReverseEntry, b: &ReverseEntry, col: usize) -> (o: Ordering)
    ensures
        sign_of(o) == cache_sign(a@, b@, col),
{
    if col == 0 {
        order_u64(b.age_secs, a.age_secs)
    } else if col == 1 {
        order_str(a.addr.as_str(), b.addr.as_str())
    } else if col == 2 {
        order_str(a.name.to_lowercase().as_str(), b.name.to_lowercase().as_str())
    } else if col == 3 {
        order_u64(wide32(a.ttl), wide32(b.ttl))
    } else if col == 4 {
        order_u64(a.age_secs, b.age_secs)
    } else {
        order_u64(remaining_secs(a), remaining_secs(b))
    }
}

/// The rows of the cache panel, compared in one column.
pub struct CacheRows<'a> {
    pub cache: &'a [ReverseEntry],
    pub col: usize,
}

impl<'a> Rows for CacheRows<'a> {
    open spec fn row_count(&self) -> nat {
        self.cache@.len()
    }

    open spec fn row_sign(&self, i: int, j: int) -> int {
        cache_sign(self.cache@[i]@, self.cache@[j]@, self.col)
    }

    proof fn row_sign_antisymmetric(&self, i: int, j: int) {
        cache_sign_antisymmetric(self.cache@[i]@, self.cache@[j]@, self.col);
    }

    proof fn row_sign_transitive(&self, i: int, j: int, k: int) {
        cache_sign_transitive(self.cache@[i]@, self.cache@[j]@, self.cache@[k]@, self.col);
    }

    fn goes_after(&self, i: usize, j: usize) -> bool {
        match cmp_cache(&self.cache[i], &self.cache[j], self.col) {
            Ordering::Greater => true,
            _ => false,
        }
    }
}

} // verus!
