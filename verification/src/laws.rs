//! What holds of the interface as a whole.

use vstd::prelude::*;

use crate::app::{
    after_key, at_latest, cache_listed, entry_before, entry_shown, event_before,
    event_shown, events_listed, feed_ok, follows, fresh_app, last_items, next_column, opposite,
    scrolled, shows_latest, signals_after_key, sorts_ok, synced, with_event,
    AppView, COLUMNS, FEED_CAP,
};
use crate::feed::{event_sign_antisymmetric, FeedEventView};
use crate::filter::{search_key, IpFilter, SortDir, SortState, Tab};
use crate::keys::{KeyCode, KeyEvent, Signals};
use crate::reverse::{cache_sign_antisymmetric, ReverseEntryView};
use crate::sort::{is_listing, listing_is_unique};
use crate::table::{clamped, row_or_first};

verus! {

// The feed.

/// The interface after a run of events.
pub open spec fn with_events(a: AppView, events: Seq<FeedEventView>) -> AppView
    decreases events.len(),
{
    if events.len() == 0 {
        a
    } else {
        with_event(with_events(a, events.drop_last()), events.last())
    }
}

/// The events with the numbers that they get, from zero on.
pub open spec fn numbered(events: Seq<FeedEventView>) -> Seq<FeedEventView> {
    Seq::new(events.len(), |i: int| FeedEventView { seq: i as u64, ..events[i] })
}

/// After any run of events the feed holds the last of them, at most [`FEED_CAP`], numbered in the
/// order in which they came.
pub proof fn feed_holds_the_last_events(events: Seq<FeedEventView>)
    requires
        events.len() <= u64::MAX,
    ensures
        with_events(fresh_app(), events).feed == last_items(numbered(events), FEED_CAP as int),
        with_events(fresh_app(), events).seq_counter == events.len(),
        feed_ok(with_events(fresh_app(), events)),
    decreases events.len(),
{
    if events.len() == 0 {
        assert(numbered(events) =~= Seq::<FeedEventView>::empty());
    } else {
        let before = events.drop_last();
        feed_holds_the_last_events(before);
        let a = with_events(fresh_app(), before);
        let e = FeedEventView { seq: a.seq_counter, ..events.last() };
        assert(numbered(events) =~= numbered(before).push(e));
        assert(last_items(a.feed.push(e), FEED_CAP as int) =~= last_items(
            numbered(events),
            FEED_CAP as int,
        ));
    }
}

// The listings.

/// No two rows of the feed are each listed before the other.
pub proof fn event_order_is_strict(a: AppView, i: int, j: int)
    ensures
        !(event_before(a, i, j) && event_before(a, j, i)),
{
    if let Some(c) = a.events_sort.col {
        event_sign_antisymmetric(a.feed[i], a.feed[j], c);
    }
}

/// No two rows of the cache are each listed before the other.
pub proof fn entry_order_is_strict(a: AppView, cache: Seq<ReverseEntryView>, i: int, j: int)
    ensures
        !(entry_before(a, cache, i, j) && entry_before(a, cache, j, i)),
{
    if let Some(c) = a.cache_sort.col {
        cache_sign_antisymmetric(cache[i], cache[j], c);
    }
}

/// The feed, the filters and the sort settle what the events panel lists.
pub proof fn events_listing_is_settled(a: AppView, b: AppView)
    requires
        events_listed(a),
        events_listed(b),
        a.feed == b.feed,
        a.ip_filter == b.ip_filter,
        search_key(a.filter) == search_key(b.filter),
        a.events_sort == b.events_sort,
    ensures
        a.events_view == b.events_view,
{
    assert((|i: int| event_shown(a, i)) =~= (|i: int| event_shown(b, i)));
    let before = |i: int, j: int| event_before(a, i, j);
    assert(before =~= (|i: int, j: int| event_before(b, i, j)));
    assert forall|i: int, j: int| #[trigger] before(i, j) implies !before(j, i) by {
        event_order_is_strict(a, i, j);
    }
    listing_is_unique(
        a.events_view,
        b.events_view,
        a.feed.len(),
        |i: int| event_shown(a, i),
        before,
    );
}

/// The entries, the filters and the sort settle what the cache panel lists.
pub proof fn cache_listing_is_settled(a: AppView, b: AppView, cache: Seq<ReverseEntryView>)
    requires
        cache_listed(a, cache),
        cache_listed(b, cache),
        a.ip_filter == b.ip_filter,
        search_key(a.filter) == search_key(b.filter),
        a.cache_sort == b.cache_sort,
    ensures
        a.cache_view == b.cache_view,
{
    assert((|i: int| entry_shown(a, cache, i)) =~= (|i: int| entry_shown(b, cache, i)));
    let before = |i: int, j: int| entry_before(a, cache, i, j);
    assert(before =~= (|i: int, j: int| entry_before(b, cache, i, j)));
    assert forall|i: int, j: int| #[trigger] before(i, j) implies !before(j, i) by {
        entry_order_is_strict(a, cache, i, j);
    }
    listing_is_unique(
        a.cache_view,
        b.cache_view,
        cache.len(),
        |i: int| entry_shown(a, cache, i),
        before,
    );
}

/// A listing turned round lists the same rows in the order turned round.
proof fn lemma_reversed_listing(
    list: Seq<usize>,
    n: nat,
    shown: spec_fn(int) -> bool,
    before: spec_fn(int, int) -> bool,
    after: spec_fn(int, int) -> bool,
)
    requires
        is_listing(list, n, shown, before),
        forall|i: int, j: int| #[trigger] before(i, j) ==> after(j, i),
    ensures
        is_listing(list.reverse(), n, shown, after),
{
    let rev = list.reverse();
    assert forall|x: usize| #[trigger] rev.contains(x) <==> x < n && shown(x as int) by {
        if rev.contains(x) {
            let k = choose|k: int| 0 <= k < rev.len() && rev[k] == x;
            assert(list[list.len() - 1 - k] == x);
            assert(list.contains(x));
        }
        if x < n && shown(x as int) {
            assert(list.contains(x));
            let k = choose|k: int| 0 <= k < list.len() && list[k] == x;
            assert(rev[list.len() - 1 - k] == x);
        }
    }
    assert forall|p: int, q: int| 0 <= p < q < rev.len() implies after(
        #[trigger] rev[p] as int,
        #[trigger] rev[q] as int,
    ) by {
        assert(rev[p] == list[list.len() - 1 - p]);
        assert(rev[q] == list[list.len() - 1 - q]);
        assert(before(list[list.len() - 1 - q] as int, list[list.len() - 1 - p] as int));
    }
}

/// Sorted by the same column in the other direction, the events panel lists the same rows from
/// the last to the first.
pub proof fn turning_the_sort_turns_the_events(a: AppView, b: AppView)
    requires
        events_listed(a),
        events_listed(b),
        a.feed == b.feed,
        a.ip_filter == b.ip_filter,
        search_key(a.filter) == search_key(b.filter),
        a.events_sort.col is Some,
        b.events_sort == (SortState { dir: opposite(a.events_sort.dir), ..a.events_sort }),
    ensures
        b.events_view == a.events_view.reverse(),
{
    let shown = |i: int| event_shown(a, i);
    assert(shown =~= (|i: int| event_shown(b, i)));
    let before = |i: int, j: int| event_before(a, i, j);
    let after = |i: int, j: int| event_before(b, i, j);
    let c = a.events_sort.col->0;
    assert forall|i: int, j: int| #[trigger] before(i, j) implies after(j, i) by {
        event_sign_antisymmetric(a.feed[i], a.feed[j], c);
    }
    lemma_reversed_listing(a.events_view, a.feed.len(), shown, before, after);
    assert forall|i: int, j: int| #[trigger] after(i, j) implies !after(j, i) by {
        event_order_is_strict(b, i, j);
    }
    listing_is_unique(b.events_view, a.events_view.reverse(), a.feed.len(), shown, after);
}

/// Sorted by the same column in the other direction, the cache panel lists the same rows from
/// the last to the first.
pub proof fn turning_the_sort_turns_the_cache(
    a: AppView,
    b: AppView,
    cache: Seq<ReverseEntryView>,
)
    requires
        cache_listed(a, cache),
        cache_listed(b, cache),
        a.ip_filter == b.ip_filter,
        search_key(a.filter) == search_key(b.filter),
        a.cache_sort.col is Some,
        b.cache_sort == (SortState { dir: opposite(a.cache_sort.dir), ..a.cache_sort }),
    ensures
        b.cache_view == a.cache_view.reverse(),
{
    let shown = |i: int| entry_shown(a, cache, i);
    assert(shown =~= (|i: int| entry_shown(b, cache, i)));
    let before = |i: int, j: int| entry_before(a, cache, i, j);
    let after = |i: int, j: int| entry_before(b, cache, i, j);
    let c = a.cache_sort.col->0;
    assert forall|i: int, j: int| #[trigger] before(i, j) implies after(j, i) by {
        cache_sign_antisymmetric(cache[i], cache[j], c);
    }
    lemma_reversed_listing(a.cache_view, cache.len(), shown, before, after);
    assert forall|i: int, j: int| #[trigger] after(i, j) implies !after(j, i) by {
        entry_order_is_strict(b, cache, i, j);
    }
    listing_is_unique(b.cache_view, a.cache_view.reverse(), cache.len(), shown, after);
}

/// Without a search text and with both families shown, every event is listed; shown newest first
/// they stand from the last that came to the first.
pub proof fn nothing_filtered_lists_all(a: AppView)
    requires
        events_listed(a),
        feed_ok(a),
        a.filter.len() == 0,
        a.ip_filter == IpFilter::Both,
    ensures
        forall|i: int| 0 <= i < a.feed.len() ==> #[trigger] event_shown(a, i),
        shows_latest(a) ==> a.events_view == Seq::new(
            a.feed.len(),
            |p: int| (a.feed.len() - 1 - p) as usize,
        ),
{
    if shows_latest(a) {
        let n = a.feed.len();
        let all = Seq::new(n, |p: int| (n - 1 - p) as usize);
        let shown = |i: int| event_shown(a, i);
        let before = |i: int, j: int| event_before(a, i, j);
        assert forall|x: usize| #[trigger] all.contains(x) <==> x < n && shown(x as int) by {
            if x < n {
                assert(all[n - 1 - x] == x);
            }
        }
        assert forall|i: int, j: int| #[trigger] before(i, j) implies !before(j, i) by {
            event_order_is_strict(a, i, j);
        }
        listing_is_unique(a.events_view, all, n, shown, before);
    }
}

/// Shown newest first, the listed events go from later to earlier ones.
pub proof fn latest_view_goes_back_in_time(a: AppView)
    requires
        events_listed(a),
        feed_ok(a),
        shows_latest(a),
    ensures
        forall|p: int, q: int|
            0 <= p < q < a.events_view.len() ==> #[trigger] a.events_view[p]
                > #[trigger] a.events_view[q],
{
    assert forall|p: int, q: int| 0 <= p < q < a.events_view.len() implies #[trigger] a.events_view[p]
        > #[trigger] a.events_view[q] by {
        let before = |i: int, j: int| event_before(a, i, j);
        assert(before(a.events_view[p] as int, a.events_view[q] as int));
        assert(a.events_view.contains(a.events_view[p]));
        assert(a.events_view.contains(a.events_view[q]));
        let i = a.events_view[p] as int;
        let j = a.events_view[q] as int;
        assert(a.feed[i].seq == a.seq_counter - a.feed.len() + i);
        assert(a.feed[j].seq == a.seq_counter - a.feed.len() + j);
    }
}

// The selection.

/// While the feed follows, its selection is on the newest of the events listed.
pub proof fn following_selects_the_newest(a: AppView)
    requires
        events_listed(a),
        feed_ok(a),
        follows(a),
        a.events_view.len() > 0,
    ensures
        synced(a).feed_state.selected == Some(0usize),
        forall|i: int|
            0 <= i < a.feed.len() && #[trigger] event_shown(a, i) ==> i <= a.events_view[0],
{
    latest_view_goes_back_in_time(a);
    assert forall|i: int| 0 <= i < a.feed.len() && #[trigger] event_shown(a, i) implies i
        <= a.events_view[0] by {
        let x = i as usize;
        assert(a.events_view.contains(x));
        let k = choose|k: int| 0 <= k < a.events_view.len() && a.events_view[k] == x;
    }
}

/// Once synced, a panel without rows has no selection, one with rows has one among them, and
/// syncing again changes nothing.
pub proof fn synced_selection_is_a_listed_row(a: AppView)
    requires
        a.events_view.len() <= usize::MAX,
        a.cache_view.len() <= usize::MAX,
    ensures
        synced(a).feed_state.selected is None <==> a.events_view.len() == 0,
        synced(a).cache_state.selected is None <==> a.cache_view.len() == 0,
        synced(a).feed_state.selected matches Some(i) ==> i < a.events_view.len(),
        synced(a).cache_state.selected matches Some(i) ==> i < a.cache_view.len(),
        synced(synced(a)) == synced(a),
{
    assert(synced(synced(a)) =~= synced(a));
}

/// Scrolling the feed pauses it and selects a row, and that row stays selected in every later state
/// in which the feed is still paused and lists more rows than stand before it.
pub proof fn scrolled_feed_holds_still(a: AppView, delta: int, later: AppView)
    requires
        a.active == Tab::Events,
        0 < a.events_view.len() <= usize::MAX,
        later.events_view.len() <= usize::MAX,
        later.feed_state == scrolled(a, delta).feed_state,
        later.paused,
        later.events_view.len() > row_or_first(later.feed_state),
    ensures
        scrolled(a, delta).paused,
        scrolled(a, delta).feed_state.selected == Some(
            clamped(row_or_first(a.feed_state) + delta, a.events_view.len() - 1) as usize,
        ),
        synced(later).feed_state == scrolled(a, delta).feed_state,
{
}

/// A paused feed keeps its selection while events come in and it lists no fewer rows than before.
pub proof fn paused_feed_keeps_its_row(a: AppView, later: AppView)
    requires
        a.paused,
        later.paused,
        later.feed_state == synced(a).feed_state,
        0 < a.events_view.len() <= later.events_view.len() <= usize::MAX,
    ensures
        synced(later).feed_state == synced(a).feed_state,
{
}

/// Any sort but newest first keeps the feed from following.
pub proof fn other_sorts_do_not_follow(a: AppView)
    ensures
        follows(a) ==> a.events_sort.col == Some(0usize) && a.events_sort.dir == SortDir::Desc,
        !shows_latest(a) ==> !follows(a),
{
}

// The sort.

/// The sort column after `n` steps.
pub open spec fn column_after(col: Option<usize>, n: nat) -> Option<usize>
    decreases n,
{
    if n == 0 {
        col
    } else {
        next_column(column_after(col, (n - 1) as nat))
    }
}

/// From no column, the steps go through all columns in turn.
pub proof fn columns_come_in_turn(n: nat)
    requires
        0 < n <= COLUMNS,
    ensures
        column_after(None, n) == Some((n - 1) as usize),
    decreases n,
{
    if n > 1 {
        columns_come_in_turn((n - 1) as nat);
    } else {
        reveal_with_fuel(column_after, 2);
    }
}

/// One step more than there are columns leads back to where the cycle began.
pub proof fn columns_cycle(col: Option<usize>)
    requires
        col matches Some(c) ==> c < COLUMNS,
    ensures
        column_after(col, COLUMNS as nat + 1) == col,
{
    reveal_with_fuel(column_after, 8);
}

/// Turning the direction twice leaves it as it was.
pub proof fn direction_turns_back(dir: SortDir)
    ensures
        opposite(opposite(dir)) == dir,
        opposite(dir) != dir,
{
}

// The keys.

/// A key event of the given code, without the control key.
pub open spec fn plain_key(code: KeyCode) -> KeyEvent {
    KeyEvent { code, ctrl: false, pressed: true }
}

/// The quit combination ends the program in every state, and changes nothing else.
pub proof fn quit_combo_always_quits(a: AppView, s: Signals, key: KeyEvent)
    requires
        key.ctrl,
        key.code == KeyCode::Char('c'),
    ensures
        after_key(a, s, key) == a,
        signals_after_key(a, s, key) == (Signals { stop: true, ..s }),
{
}

/// While the help is open, any other key closes it and does nothing else.
pub proof fn any_key_closes_the_help(a: AppView, s: Signals, key: KeyEvent)
    requires
        a.show_help,
        !(key.ctrl && key.code == KeyCode::Char('c')),
    ensures
        after_key(a, s, key) == (AppView { show_help: false, ..a }),
        signals_after_key(a, s, key) == s,
{
}

/// While the search text is typed, no key but the quit combination is a command: the flags stay,
/// and only the search text and the typing itself can change.
pub proof fn typing_is_not_commands(a: AppView, s: Signals, key: KeyEvent)
    requires
        a.filtering,
        !a.show_help,
        !(key.ctrl && key.code == KeyCode::Char('c')),
    ensures
        signals_after_key(a, s, key) == s,
        after_key(a, s, key) == (AppView {
            filter: after_key(a, s, key).filter,
            filtering: after_key(a, s, key).filtering,
            ..a
        }),
{
}

/// A character typed into the search text goes away again with a backspace.
pub proof fn backspace_undoes_typing(a: AppView, s: Signals, c: char)
    requires
        a.filtering,
        !a.show_help,
    ensures
        after_key(
            after_key(a, s, plain_key(KeyCode::Char(c))),
            s,
            plain_key(KeyCode::Backspace),
        ) == a,
{
    let typed = after_key(a, s, plain_key(KeyCode::Char(c)));
    assert(typed.filter.drop_last() =~= a.filter);
    assert(after_key(typed, s, plain_key(KeyCode::Backspace)) =~= a);
}

/// In command mode `p` turns the writing of payloads round, shows so, and pressed twice leaves it
/// as it was; the pause key does not touch it.
pub proof fn payload_key_toggles(a: AppView, s: Signals)
    requires
        !a.show_help,
        !a.filtering,
    ensures
        ({
            let p = plain_key(KeyCode::Char('p'));
            let once = signals_after_key(a, s, p);
            let shown = after_key(a, s, p);
            &&& once == (Signals { payload: !s.payload, ..s })
            &&& shown == (AppView { payload_on: once.payload, ..a })
            &&& signals_after_key(shown, once, p) == s
            &&& after_key(shown, once, p) == (AppView { payload_on: s.payload, ..a })
            &&& signals_after_key(a, s, plain_key(KeyCode::Char(' '))) == s
            &&& after_key(a, s, plain_key(KeyCode::Char(' '))) == (AppView {
                paused: !a.paused,
                ..a
            })
        }),
{
}

/// In command mode `l` leads from any state to the running feed, newest first.
pub proof fn latest_key_resets(a: AppView, s: Signals)
    requires
        !a.show_help,
        !a.filtering,
    ensures
        after_key(a, s, plain_key(KeyCode::Char('l'))) == at_latest(a),
        at_latest(a).active == Tab::Events,
        shows_latest(at_latest(a)),
        follows(at_latest(a)),
{
}

/// No key changes the feed, the numbering or what is listed, and the sorts stay on columns that
/// there are.
pub proof fn keys_keep_the_invariants(a: AppView, s: Signals, key: KeyEvent)
    ensures
        after_key(a, s, key).feed == a.feed,
        after_key(a, s, key).seq_counter == a.seq_counter,
        after_key(a, s, key).events_view == a.events_view,
        after_key(a, s, key).cache_view == a.cache_view,
        feed_ok(a) ==> feed_ok(after_key(a, s, key)),
        sorts_ok(a) ==> sorts_ok(after_key(a, s, key)),
{
}

/// The state at the start keeps all that the other functions ask for.
pub proof fn fresh_state_is_sound()
    ensures
        feed_ok(fresh_app()),
        sorts_ok(fresh_app()),
        follows(fresh_app()),
{
}

/// An event coming in, and a frame, leave the sorts alone, and a frame leaves the feed alone.
pub proof fn events_and_frames_keep_the_invariants(a: AppView, e: FeedEventView)
    requires
        a.seq_counter < u64::MAX,
    ensures
        feed_ok(a) ==> feed_ok(with_event(a, e)),
        sorts_ok(a) ==> sorts_ok(with_event(a, e)),
        feed_ok(a) ==> feed_ok(synced(a)),
        sorts_ok(a) ==> sorts_ok(synced(a)),
{
}

} // verus!
