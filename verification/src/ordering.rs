//! What it means that rows are filtered and sorted, said of their texts and numbers.

use core::cmp::Ordering;

use vstd::prelude::*;

use crate::app::{
    cache_listed, entry_before, entry_shown, event_before, event_shown, events_listed, AppView,
};
use crate::feed::{event_sign, FeedEventView};
use crate::filter::{family_shown, query_matches, search_key, IpFilter, SortDir};
use crate::order::{sign_of, text_sign, text_sign_antisymmetric};
use crate::reverse::{cache_sign, ReverseEntryView};
use crate::text::{has_part, is_ascii_text, lowercased, lowered, occurs_at};

verus! {

/// The small letter of a capital of the alphabet; any other character as it is.
pub open spec fn small(c: char) -> char {
    if 65 <= c as int <= 90 {
        (c as int + 32) as char
    } else {
        c
    }
}

/// A text whatever its case: capitals made small where it is ASCII, else what `str::to_lowercase`
/// makes of it.
pub open spec fn caseless(s: Seq<char>) -> Seq<char> {
    if is_ascii_text(s) {
        Seq::new(s.len(), |i: int| small(s[i]))
    } else {
        lowercased(s)
    }
}

/// The texts are the same before character `k`, and both have another one there.
pub open spec fn part_at(x: Seq<char>, y: Seq<char>, k: int) -> bool {
    &&& 0 <= k < x.len()
    &&& k < y.len()
    &&& forall|i: int| 0 <= i < k ==> #[trigger] x[i] == y[i]
    &&& x[k] != y[k]
}

/// `x` is the beginning of `y`, and not all of it.
pub open spec fn begins(x: Seq<char>, y: Seq<char>) -> bool {
    &&& x.len() < y.len()
    &&& forall|i: int| 0 <= i < x.len() ==> #[trigger] x[i] == y[i]
}

/// `sign` orders two texts alphabetically: the first character in which they differ decides,
/// whatever their lengths; a text comes after each of its beginnings; only equal texts are level.
pub open spec fn alphabetical(sign: int, x: Seq<char>, y: Seq<char>) -> bool {
    &&& forall|k: int| #[trigger]
        part_at(x, y, k) ==> (sign < 0 <==> (x[k] as int) < y[k] as int) && (sign > 0 <==> x[k] as int
            > y[k] as int)
    &&& begins(x, y) ==> sign < 0
    &&& begins(y, x) ==> sign > 0
    &&& sign == 0 <==> x == y
}

/// `sign` orders two numbers.
pub open spec fn numerical(sign: int, x: int, y: int) -> bool {
    &&& sign < 0 <==> x < y
    &&& sign > 0 <==> x > y
}

/// A negative number stands for "less", a positive one for "greater", zero for "equal".
pub proof fn signs_stand_for_orderings(o: Ordering)
    ensures
        o == Ordering::Less <==> sign_of(o) < 0,
        o == Ordering::Equal <==> sign_of(o) == 0,
        o == Ordering::Greater <==> sign_of(o) > 0,
{
}

proof fn lemma_part_at(x: Seq<char>, y: Seq<char>, k: int)
    requires
        part_at(x, y, k),
    ensures
        text_sign(x, y) < 0 <==> (x[k] as int) < y[k] as int,
        text_sign(x, y) > 0 <==> x[k] as int > y[k] as int,
    decreases k,
{
    if k > 0 {
        assert(x[0] == y[0]);
        let (u, v) = (x.drop_first(), y.drop_first());
        assert forall|i: int| 0 <= i < k - 1 implies #[trigger] u[i] == v[i] by {
            assert(x[i + 1] == y[i + 1]);
        }
        lemma_part_at(u, v, k - 1);
    }
}

proof fn lemma_begins(x: Seq<char>, y: Seq<char>)
    requires
        begins(x, y),
    ensures
        text_sign(x, y) < 0,
    decreases x.len(),
{
    if x.len() > 0 {
        assert(x[0] == y[0]);
        let (u, v) = (x.drop_first(), y.drop_first());
        assert forall|i: int| 0 <= i < u.len() implies #[trigger] u[i] == v[i] by {
            assert(x[i + 1] == y[i + 1]);
        }
        lemma_begins(u, v);
    }
}

/// Texts are ordered alphabetically.
pub proof fn texts_are_alphabetical(x: Seq<char>, y: Seq<char>)
    ensures
        alphabetical(text_sign(x, y), x, y),
{
    assert forall|k: int| #[trigger] part_at(x, y, k) implies (text_sign(x, y) < 0 <==> (
    x[k] as int) < y[k] as int) && (text_sign(x, y) > 0 <==> x[k] as int > y[k] as int) by {
        lemma_part_at(x, y, k);
    }
    if begins(x, y) {
        lemma_begins(x, y);
    }
    if begins(y, x) {
        lemma_begins(y, x);
    }
    text_sign_antisymmetric(x, y);
}

/// Each column of the events panel sorts by what it shows: Time by arrival, Name alphabetically
/// whatever the case, Type and Address alphabetically, TTL by number, and the last by transaction
/// and then by answer.
pub proof fn event_columns_sort_by_what_they_show(a: FeedEventView, b: FeedEventView)
    ensures
        numerical(event_sign(a, b, 0), a.seq as int, b.seq as int),
        alphabetical(event_sign(a, b, 1), caseless(a.name), caseless(b.name)),
        alphabetical(event_sign(a, b, 2), a.record_type, b.record_type),
        alphabetical(event_sign(a, b, 3), a.addr, b.addr),
        numerical(event_sign(a, b, 4), a.ttl as int, b.ttl as int),
        numerical(
            event_sign(a, b, 5),
            a.txid * 65536 + a.answer_idx,
            b.txid * 65536 + b.answer_idx,
        ),
        forall|col: usize| col > 5 ==> #[trigger] event_sign(a, b, col) == event_sign(a, b, 5),
{
    lemma_caseless(a.name);
    lemma_caseless(b.name);
    texts_are_alphabetical(caseless(a.name), caseless(b.name));
    texts_are_alphabetical(a.record_type, b.record_type);
    texts_are_alphabetical(a.addr, b.addr);
}

/// Each column of the cache panel sorts by what it shows: Time with the oldest entry first, Address
/// alphabetically, Name alphabetically whatever the case, TTL, Age and the seconds left by number.
pub proof fn cache_columns_sort_by_what_they_show(a: ReverseEntryView, b: ReverseEntryView)
    ensures
        numerical(cache_sign(a, b, 0), b.age_secs as int, a.age_secs as int),
        alphabetical(cache_sign(a, b, 1), a.addr, b.addr),
        alphabetical(cache_sign(a, b, 2), caseless(a.name), caseless(b.name)),
        numerical(cache_sign(a, b, 3), a.ttl as int, b.ttl as int),
        numerical(cache_sign(a, b, 4), a.age_secs as int, b.age_secs as int),
        a.ttl >= a.age_secs && b.ttl >= b.age_secs ==> numerical(
            cache_sign(a, b, 5),
            a.ttl - a.age_secs,
            b.ttl - b.age_secs,
        ),
        a.ttl <= a.age_secs && b.ttl <= b.age_secs ==> cache_sign(a, b, 5) == 0,
        a.ttl <= a.age_secs && b.ttl > b.age_secs ==> cache_sign(a, b, 5) < 0,
        a.ttl > a.age_secs && b.ttl <= b.age_secs ==> cache_sign(a, b, 5) > 0,
        forall|col: usize| col > 5 ==> #[trigger] cache_sign(a, b, col) == cache_sign(a, b, 5),
{
    lemma_caseless(a.name);
    lemma_caseless(b.name);
    texts_are_alphabetical(caseless(a.name), caseless(b.name));
    texts_are_alphabetical(a.addr, b.addr);
}

proof fn lemma_caseless(s: Seq<char>)
    ensures
        lowered(s) == caseless(s),
{
    assert(lowered(s) =~= caseless(s));
}

/// `whole` is made of `before`, `middle` and `after`.
pub open spec fn made_of(
    whole: Seq<char>,
    before: Seq<char>,
    middle: Seq<char>,
    after: Seq<char>,
) -> bool {
    whole == before + middle + after
}

/// `part` can be cut out of `whole`.
pub open spec fn can_be_cut_out(part: Seq<char>, whole: Seq<char>) -> bool {
    exists|before: Seq<char>, after: Seq<char>| made_of(whole, before, part, after)
}

/// A text has a part exactly where that can be cut out of it, wherever it stands.
pub proof fn parts_can_be_cut_out(part: Seq<char>, whole: Seq<char>)
    ensures
        has_part(whole, part) <==> can_be_cut_out(part, whole),
{
    if has_part(whole, part) {
        let i = choose|i: int| occurs_at(whole, part, i);
        let (before, after) = (whole.take(i), whole.skip(i + part.len()));
        assert(whole =~= before + part + after);
        assert(made_of(whole, before, part, after));
    }
    if can_be_cut_out(part, whole) {
        let (before, after) = choose|before: Seq<char>, after: Seq<char>|
            made_of(whole, before, part, after);
        let i = before.len() as int;
        assert(whole.subrange(i, i + part.len()) =~= part);
        assert(occurs_at(whole, part, i));
    }
}

/// A search text in small letters is found wherever it stands in a name or an address, in the
/// middle of a word too.
pub proof fn a_part_of_a_text_is_found(
    before: Seq<char>,
    query: Seq<char>,
    after: Seq<char>,
    other: Seq<char>,
)
    requires
        is_ascii_text(before + query + after),
        forall|i: int|
            0 <= i < (before + query + after).len() ==> !(65 <= #[trigger] (before + query
                + after)[i] as int <= 90),
    ensures
        query_matches(query, before + query + after, other),
        query_matches(query, other, before + query + after),
{
    let whole = before + query + after;
    assert(caseless(whole) =~= whole);
    lemma_caseless(whole);
    assert(made_of(whole, before, query, after));
    parts_can_be_cut_out(query, whole);
}

/// An empty search text is found everywhere; any other only where it can be cut out of the name or
/// the address, whatever their case.
pub proof fn only_parts_are_found(query: Seq<char>, name: Seq<char>, addr: Seq<char>)
    ensures
        query_matches(query, name, addr) <==> query.len() == 0 || can_be_cut_out(
            query,
            caseless(name),
        ) || can_be_cut_out(query, caseless(addr)),
{
    lemma_caseless(name);
    lemma_caseless(addr);
    parts_can_be_cut_out(query, caseless(name));
    parts_can_be_cut_out(query, caseless(addr));
}

/// What is searched for does not depend on the case of the search text.
pub proof fn search_is_caseless(filter: Seq<char>)
    ensures
        search_key(filter) == caseless(filter),
        filter.len() == 0 ==> search_key(filter).len() == 0,
        is_ascii_text(filter) ==> search_key(filter).len() == filter.len(),
{
    lemma_caseless(filter);
}

/// The address has a colon.
pub open spec fn has_colon(addr: Seq<char>) -> bool {
    exists|i: int| 0 <= i < addr.len() && #[trigger] addr[i] as int == 58
}

/// A row is wanted: its address is of a family that is shown, and the search text can be cut out of
/// its name or its address, whatever the case of either.
pub open spec fn wanted(a: AppView, name: Seq<char>, addr: Seq<char>) -> bool {
    &&& a.ip_filter == IpFilter::V4 ==> !has_colon(addr)
    &&& a.ip_filter == IpFilter::V6 ==> has_colon(addr)
    &&& caseless(a.filter).len() == 0 || can_be_cut_out(
        caseless(a.filter),
        caseless(name),
    ) || can_be_cut_out(caseless(a.filter), caseless(addr))
}

proof fn lemma_colon(addr: Seq<char>)
    ensures
        has_colon(addr) <==> addr.contains(':'),
{
    if addr.contains(':') {
        let i = choose|i: int| 0 <= i < addr.len() && addr[i] == ':';
        assert(addr[i] as int == 58);
    }
    if has_colon(addr) {
        let i = choose|i: int| 0 <= i < addr.len() && #[trigger] addr[i] as int == 58;
        assert(addr[i] == ':');
    }
}

/// The events panel lists exactly the wanted events, each once.
pub proof fn wanted_events_are_listed_once(a: AppView)
    requires
        events_listed(a),
    ensures
        forall|x: usize| #[trigger]
            a.events_view.contains(x) <==> x < a.feed.len() && wanted(
                a,
                a.feed[x as int].name,
                a.feed[x as int].addr,
            ),
        a.events_view.no_duplicates(),
{
    search_is_caseless(a.filter);
    assert forall|x: usize| #[trigger] a.events_view.contains(x) <==> x < a.feed.len() && wanted(
        a,
        a.feed[x as int].name,
        a.feed[x as int].addr,
    ) by {
        let e = a.feed[x as int];
        only_parts_are_found(search_key(a.filter), e.name, e.addr);
        lemma_colon(e.addr);
        assert(a.events_view.contains(x) <==> x < a.feed.len() && event_shown(a, x as int));
    }
    assert forall|p: int, q: int| 0 <= p < q < a.events_view.len() implies a.events_view[p]
        != a.events_view[q] by {
        let (i, j) = (a.events_view[p] as int, a.events_view[q] as int);
        assert(event_before(a, i, j));
        if let Some(c) = a.events_sort.col {
            crate::feed::event_sign_antisymmetric(a.feed[i], a.feed[j], c);
        }
    }
}

/// The cache panel lists exactly the wanted entries, each once.
pub proof fn wanted_entries_are_listed_once(a: AppView, cache: Seq<ReverseEntryView>)
    requires
        cache_listed(a, cache),
    ensures
        forall|x: usize| #[trigger]
            a.cache_view.contains(x) <==> x < cache.len() && wanted(
                a,
                cache[x as int].name,
                cache[x as int].addr,
            ),
        a.cache_view.no_duplicates(),
{
    search_is_caseless(a.filter);
    assert forall|x: usize| #[trigger] a.cache_view.contains(x) <==> x < cache.len() && wanted(
        a,
        cache[x as int].name,
        cache[x as int].addr,
    ) by {
        let e = cache[x as int];
        only_parts_are_found(search_key(a.filter), e.name, e.addr);
        lemma_colon(e.addr);
        assert(a.cache_view.contains(x) <==> x < cache.len() && entry_shown(a, cache, x as int));
    }
    assert forall|p: int, q: int| 0 <= p < q < a.cache_view.len() implies a.cache_view[p]
        != a.cache_view[q] by {
        let (i, j) = (a.cache_view[p] as int, a.cache_view[q] as int);
        assert(entry_before(a, cache, i, j));
        if let Some(c) = a.cache_sort.col {
            crate::reverse::cache_sign_antisymmetric(cache[i], cache[j], c);
        }
    }
}

/// Of two events listed, the upper one does not sort after the lower in ascending order, nor before
/// it in descending order; level ones stand as they came in ascending order, and turned round in
/// descending order. Without a column all stand as they came.
pub proof fn listed_events_stand_in_order(a: AppView, p: int, q: int)
    requires
        events_listed(a),
        0 <= p < q < a.events_view.len(),
    ensures
        ({
            let (i, j) = (a.events_view[p] as int, a.events_view[q] as int);
            match a.events_sort.col {
                None => i < j,
                Some(c) => {
                    let sign = event_sign(a.feed[i], a.feed[j], c);
                    if a.events_sort.dir == SortDir::Asc {
                        sign <= 0 && (sign == 0 ==> i < j)
                    } else {
                        sign >= 0 && (sign == 0 ==> i > j)
                    }
                },
            }
        }),
{
    assert(event_before(a, a.events_view[p] as int, a.events_view[q] as int));
}

/// Of two entries listed, the upper one does not sort after the lower in ascending order, nor
/// before it in descending order; level ones stand as they were read in ascending order, and turned
/// round in descending order. Without a column all stand as they were read.
pub proof fn listed_entries_stand_in_order(
    a: AppView,
    cache: Seq<ReverseEntryView>,
    p: int,
    q: int,
)
    requires
        cache_listed(a, cache),
        0 <= p < q < a.cache_view.len(),
    ensures
        ({
            let (i, j) = (a.cache_view[p] as int, a.cache_view[q] as int);
            match a.cache_sort.col {
                None => i < j,
                Some(c) => {
                    let sign = cache_sign(cache[i], cache[j], c);
                    if a.cache_sort.dir == SortDir::Asc {
                        sign <= 0 && (sign == 0 ==> i < j)
                    } else {
                        sign >= 0 && (sign == 0 ==> i > j)
                    }
                },
            }
        }),
{
    assert(entry_before(a, cache, a.cache_view[p] as int, a.cache_view[q] as int));
}

/// An address is shown by its family: IPv6 ones have a colon, IPv4 ones have none.
pub proof fn families_are_told_by_the_colon(addr: Seq<char>)
    ensures
        family_shown(IpFilter::Both, addr),
        family_shown(IpFilter::V4, addr) <==> !has_colon(addr),
        family_shown(IpFilter::V6, addr) <==> has_colon(addr),
{
    lemma_colon(addr);
}

/// The lower-case form of a text that is not ASCII is what `str::to_lowercase` makes of it; that of
/// ASCII text keeps its length, and has a small letter for every capital.
pub proof fn lower_case_forms(s: Seq<char>)
    ensures
        lowered(s) == caseless(s),
        is_ascii_text(s) ==> lowered(lowered(s)) == lowered(s),
{
    lemma_caseless(s);
    if is_ascii_text(s) {
        let t = lowered(s);
        assert forall|i: int| 0 <= i < t.len() implies #[trigger] t[i] as int <= 127 by {
            assert(s[i] as int <= 127);
        }
        assert(lowered(t) =~= t);
    }
}

} // verus!
