//! What a panel shows: the address families, the search text and the sort order.

use vstd::prelude::*;

use crate::text::{contains_char, contains_part, has_part, lowered};

verus! {

/// The two panels.
#[derive(Clone, Copy, PartialEq, Eq, Debug, Structural)]
pub enum Tab {
    Events,
    Cache,
}

/// The direction of a sort.
#[derive(Clone, Copy, PartialEq, Eq, Debug, Structural)]
pub enum SortDir {
    Asc,
    Desc,
}

/// Which address families both panels show.
#[derive(Clone, Copy, PartialEq, Eq, Debug, Structural)]
pub enum IpFilter {
    Both,
    V4,
    V6,
}

/// Textual IPv6 addresses hold a colon; IPv4 ones never do.
pub open spec fn is_v6_text(addr: Seq<char>) -> bool {
    addr.contains(':')
}

/// The filter lets an address through.
pub open spec fn family_shown(f: IpFilter, addr: Seq<char>) -> bool {
    match f {
        IpFilter::Both => true,
        IpFilter::V4 => !is_v6_text(addr),
        IpFilter::V6 => is_v6_text(addr),
    }
}

/// The filter after this one in the cycle all, v4, v6.
pub open spec fn next_filter(f: IpFilter) -> IpFilter {
    match f {
        IpFilter::Both => IpFilter::V4,
        IpFilter::V4 => IpFilter::V6,
        IpFilter::V6 => IpFilter::Both,
    }
}

/// How the filter is named on the screen.
pub open spec fn filter_label(f: IpFilter) -> Seq<char> {
    match f {
        IpFilter::Both => "all"@,
        IpFilter::V4 => "v4"@,
        IpFilter::V6 => "v6"@,
    }
}

impl IpFilter {
    /// Cycles all, v4, v6, all.
    pub fn next(self) -> (n: IpFilter)
        ensures
            n == next_filter(self),
    {
        match self {
            IpFilter::Both => IpFilter::V4,
            IpFilter::V4 => IpFilter::V6,
            IpFilter::V6 => IpFilter::Both,
        }
    }

    pub fn label(self) -> (l: &'static str)
        ensures
            l@ == filter_label(self),
    {
        match self {
            IpFilter::Both => "all",
            IpFilter::V4 => "v4",
            IpFilter::V6 => "v6",
        }
    }

    /// Tells whether an address is to be shown.
    pub fn accepts(self, addr: &str) -> (shown: bool)
        ensures
            shown == family_shown(self, addr@),
    {
        match self {
            IpFilter::Both => true,
            IpFilter::V4 => !contains_char(addr, ':'),
            IpFilter::V6 => contains_char(addr, ':'),
        }
    }
}

/// Going through the filters three times comes back to the first.
pub proof fn filter_cycle(f: IpFilter)
    ensures
        next_filter(next_filter(next_filter(f))) == f,
        next_filter(f) != f,
        next_filter(next_filter(f)) != f,
{
}

/// Every address is shown by one of the two family filters and hidden by the other, and shown
/// where both families are.
pub proof fn families_partition(addr: Seq<char>)
    ensures
        family_shown(IpFilter::Both, addr),
        family_shown(IpFilter::V4, addr) != family_shown(IpFilter::V6, addr),
{
}

/// A panel's sort: a column, or none for the panel's natural order, and a direction.
#[derive(Clone, Copy, PartialEq, Eq, Debug, Structural)]
pub struct SortState {
    pub col: Option<usize>,
    pub dir: SortDir,
}

impl Default for SortState {
    fn default() -> (s: SortState)
        ensures
            s == (SortState { col: None, dir: SortDir::Asc }),
    {
        SortState { col: None, dir: SortDir::Asc }
    }
}

/// What a search text looks for: its lower-case form.
pub open spec fn search_key(filter: Seq<char>) -> Seq<char> {
    lowered(filter)
}

/// What a search text looks for.
pub fn search_text(filter: &String) -> (key: String)
    ensures
        key@ == search_key(filter@),
{
    filter.to_lowercase()
}

/// The search text, already in lower case, is empty or stands in the lower-case form of the
/// name or of the address.
pub open spec fn query_matches(query: Seq<char>, name: Seq<char>, addr: Seq<char>) -> bool {
    ||| query.len() == 0
    ||| has_part(lowered(name), query)
    ||| has_part(lowered(addr), query)
}

/// Tells whether the search text is empty or stands in `name` or `addr`, whatever their case.
/// `query` is in lower case already.
pub fn matches_filter(query: &str, name: &str, addr: &str) -> (hit: bool)
    ensures
        hit == query_matches(query@, name@, addr@),
{
    query.is_empty() || contains_part(name.to_lowercase().as_str(), query) || contains_part(
        addr.to_lowercase().as_str(),
        query,
    )
}

} // verus!
