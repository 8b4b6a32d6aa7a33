//! What each key does, said of what can be seen before and after it.

use vstd::prelude::*;

use crate::app::{
    after_key, at_bottom, at_latest, at_top, follows, fresh_app, scrolled, shows_latest,
    signals_after_key, synced, with_event, AppView,
};
use crate::feed::FeedEventView;
use crate::filter::{next_filter, IpFilter, SortDir, SortState, Tab};
use crate::keys::{KeyCode, KeyEvent, Signals};
use crate::table::{held, moved, with_selection, TableState};

verus! {

/// Keys are commands: neither the help nor the search text is open.
pub open spec fn commanding(a: AppView) -> bool {
    !a.show_help && !a.filtering
}

/// A character key, whatever else is held, but for the combination that quits.
pub open spec fn is_char(key: KeyEvent, c: char) -> bool {
    key.code == KeyCode::Char(c) && !(key.ctrl && c == 'c')
}

/// The active panel's table and the number of its rows.
pub open spec fn active_table(a: AppView) -> (TableState, nat) {
    match a.active {
        Tab::Events => (a.feed_state, a.events_view.len()),
        Tab::Cache => (a.cache_state, a.cache_view.len()),
    }
}

/// The selected row; the first where none is.
pub open spec fn row(t: TableState) -> int {
    if t.selected is Some {
        t.selected->0 as int
    } else {
        0
    }
}

/// The active panel's sort.
pub open spec fn sort_of(a: AppView) -> SortState {
    match a.active {
        Tab::Events => a.events_sort,
        Tab::Cache => a.cache_sort,
    }
}

/// `b` is `a` but for the active panel's sort.
pub open spec fn same_but_sort(a: AppView, b: AppView) -> bool {
    match a.active {
        Tab::Events => b == (AppView { events_sort: b.events_sort, ..a }),
        Tab::Cache => b == (AppView { cache_sort: b.cache_sort, ..a }),
    }
}

/// `b` is `a` but for the active panel's table and whether the feed is paused.
pub open spec fn same_but_place(a: AppView, b: AppView) -> bool {
    match a.active {
        Tab::Events => b == (AppView { feed_state: b.feed_state, paused: b.paused, ..a }),
        Tab::Cache => b == (AppView { cache_state: b.cache_state, ..a }),
    }
}

/// The tab key always goes to the other panel, and pressed twice leaves everything as it was.
pub proof fn tab_goes_to_the_other_panel(a: AppView, s: Signals, key: KeyEvent)
    requires
        commanding(a),
        key.code == KeyCode::Tab,
    ensures
        ({
            let b = after_key(a, s, key);
            &&& b.active != a.active
            &&& b == (AppView { active: b.active, ..a })
            &&& after_key(b, s, key) == a
            &&& signals_after_key(a, s, key) == s
        }),
{
    let b = after_key(a, s, key);
    assert(after_key(b, s, key) =~= a);
}

/// `?` and `h` open the help and do nothing else; any key then leads back to where it was opened.
pub proof fn help_opens_and_closes(a: AppView, s: Signals, key: KeyEvent, next: KeyEvent)
    requires
        commanding(a),
        is_char(key, '?') || is_char(key, 'h'),
        !(next.ctrl && next.code == KeyCode::Char('c')),
    ensures
        after_key(a, s, key) == (AppView { show_help: true, ..a }),
        signals_after_key(a, s, key) == s,
        after_key(after_key(a, s, key), s, next) == a,
        signals_after_key(after_key(a, s, key), s, next) == s,
{
    assert(after_key(after_key(a, s, key), s, next) =~= a);
}

/// The interface after a text was typed, key by key.
pub open spec fn typed(a: AppView, s: Signals, text: Seq<char>) -> AppView
    decreases text.len(),
{
    if text.len() == 0 {
        a
    } else {
        after_key(
            typed(a, s, text.drop_last()),
            s,
            KeyEvent { code: KeyCode::Char(text.last()), ctrl: false, pressed: true },
        )
    }
}

proof fn lemma_typed(a: AppView, s: Signals, text: Seq<char>)
    requires
        a.filtering,
        !a.show_help,
    ensures
        typed(a, s, text) == (AppView { filter: a.filter + text, ..a }),
    decreases text.len(),
{
    if text.len() == 0 {
        assert(a.filter + text =~= a.filter);
        assert(typed(a, s, text) =~= AppView { filter: a.filter + text, ..a });
    } else {
        lemma_typed(a, s, text.drop_last());
        assert((a.filter + text.drop_last()).push(text.last()) =~= a.filter + text);
        assert(typed(a, s, text) =~= AppView { filter: a.filter + text, ..a });
    }
}

/// What is typed between `/` and Enter, command letters too, goes to the end of the search text and
/// does nothing else; Escape in place of Enter clears the search text.
pub proof fn a_typed_text_is_searched_for(
    a: AppView,
    s: Signals,
    slash: KeyEvent,
    text: Seq<char>,
    enter: KeyEvent,
    escape: KeyEvent,
)
    requires
        commanding(a),
        is_char(slash, '/'),
        enter.code == KeyCode::Enter,
        escape.code == KeyCode::Esc,
    ensures
        signals_after_key(a, s, slash) == s,
        ({
            let t = typed(after_key(a, s, slash), s, text);
            &&& after_key(t, s, enter) == (AppView { filter: a.filter + text, ..a })
            &&& signals_after_key(t, s, enter) == s
            &&& after_key(t, s, escape) == (AppView { filter: Seq::empty(), ..a })
            &&& signals_after_key(t, s, escape) == s
        }),
{
    let open = after_key(a, s, slash);
    assert(open == (AppView { filtering: true, ..a }));
    lemma_typed(open, s, text);
    let t = typed(open, s, text);
    assert(after_key(t, s, enter) =~= AppView { filter: a.filter + text, ..a });
    assert(after_key(t, s, escape) =~= AppView { filter: Seq::empty(), ..a });
}

/// While the search text is typed, backspace takes its last character, if any; every key that is
/// neither that nor a character, Enter or Escape does nothing.
pub proof fn typing_keys(a: AppView, s: Signals, key: KeyEvent)
    requires
        a.filtering,
        !a.show_help,
        !(key.code is Char),
        key.code != KeyCode::Enter,
        key.code != KeyCode::Esc,
    ensures
        signals_after_key(a, s, key) == s,
        key.code != KeyCode::Backspace || a.filter.len() == 0 ==> after_key(a, s, key) == a,
        key.code == KeyCode::Backspace && a.filter.len() > 0 ==> {
            let b = after_key(a, s, key);
            &&& b == (AppView { filter: b.filter, ..a })
            &&& b.filter.push(a.filter[a.filter.len() - 1]) == a.filter
        },
{
    if key.code == KeyCode::Backspace && a.filter.len() > 0 {
        let b = after_key(a, s, key);
        assert(b.filter.push(a.filter[a.filter.len() - 1]) =~= a.filter);
    }
    assert(key.code != KeyCode::Backspace || a.filter.len() == 0 ==> after_key(a, s, key) =~= a);
}

/// `c` clears the search text and does nothing else.
pub proof fn c_clears_the_search(a: AppView, s: Signals, key: KeyEvent)
    requires
        commanding(a),
        is_char(key, 'c'),
    ensures
        after_key(a, s, key).filter.len() == 0,
        after_key(a, s, key) == (AppView { filter: after_key(a, s, key).filter, ..a }),
        signals_after_key(a, s, key) == s,
{
}

/// `v` goes from both families to IPv4, from there to IPv6, and back to both; it does nothing else.
pub proof fn v_goes_through_the_families(a: AppView, s: Signals, key: KeyEvent)
    requires
        commanding(a),
        is_char(key, 'v'),
    ensures
        ({
            let b = after_key(a, s, key);
            &&& a.ip_filter == IpFilter::Both ==> b.ip_filter == IpFilter::V4
            &&& a.ip_filter == IpFilter::V4 ==> b.ip_filter == IpFilter::V6
            &&& a.ip_filter == IpFilter::V6 ==> b.ip_filter == IpFilter::Both
            &&& b.ip_filter == next_filter(a.ip_filter)
            &&& b == (AppView { ip_filter: b.ip_filter, ..a })
            &&& signals_after_key(a, s, key) == s
        }),
{
}

/// `s` sorts the active panel by the next of its six columns, from none to the first and from the
/// last to none, in the same direction; it does nothing else.
pub proof fn s_goes_through_the_columns(a: AppView, s: Signals, key: KeyEvent)
    requires
        commanding(a),
        is_char(key, 's'),
    ensures
        ({
            let b = after_key(a, s, key);
            &&& sort_of(a).col is None ==> sort_of(b).col == Some(0usize)
            &&& sort_of(a).col is Some && sort_of(a).col->0 < 5 ==> sort_of(b).col is Some
                && sort_of(b).col->0 == sort_of(a).col->0 + 1
            &&& sort_of(a).col is Some && sort_of(a).col->0 >= 5 ==> sort_of(b).col is None
            &&& sort_of(b).dir == sort_of(a).dir
            &&& same_but_sort(a, b)
            &&& signals_after_key(a, s, key) == s
        }),
{
}

/// `S` turns the active panel's sort round, keeping its column, and pressed twice leaves everything
/// as it was.
pub proof fn capital_s_turns_the_sort(a: AppView, s: Signals, key: KeyEvent)
    requires
        commanding(a),
        is_char(key, 'S'),
    ensures
        ({
            let b = after_key(a, s, key);
            &&& sort_of(b).dir != sort_of(a).dir
            &&& sort_of(b).col == sort_of(a).col
            &&& same_but_sort(a, b)
            &&& after_key(b, s, key) == a
            &&& signals_after_key(a, s, key) == s
        }),
{
    let b = after_key(a, s, key);
    assert(after_key(b, s, key) =~= a);
}

/// `l` shows the events from the newest down, running, on the first row, from wherever it is
/// pressed; the filters and the other panel stay.
pub proof fn l_shows_the_latest(a: AppView, s: Signals, key: KeyEvent)
    requires
        commanding(a),
        is_char(key, 'l'),
    ensures
        ({
            let b = after_key(a, s, key);
            &&& b == at_latest(a)
            &&& b.active == Tab::Events
            &&& b.events_sort.col == Some(0usize)
            &&& b.events_sort.dir == SortDir::Desc
            &&& !b.paused
            &&& b.feed_state.selected == Some(0usize)
            &&& b.feed_state.offset == a.feed_state.offset
            &&& b == (AppView {
                active: b.active,
                events_sort: b.events_sort,
                paused: b.paused,
                feed_state: b.feed_state,
                ..a
            })
            &&& signals_after_key(a, s, key) == s
        }),
{
}

/// The blank pauses and resumes the feed, and does nothing else.
pub proof fn blank_pauses_and_resumes(a: AppView, s: Signals, key: KeyEvent)
    requires
        commanding(a),
        is_char(key, ' '),
    ensures
        after_key(a, s, key) == (AppView { paused: !a.paused, ..a }),
        signals_after_key(a, s, key) == s,
{
}

/// `p` turns the writing of payloads round and shows so; `r` asks for the cache, and `q` and Escape
/// for the end, and change nothing that is shown.
pub proof fn requests(a: AppView, s: Signals, key: KeyEvent)
    requires
        commanding(a),
    ensures
        is_char(key, 'p') ==> signals_after_key(a, s, key) == (Signals { payload: !s.payload, ..s })
            && after_key(a, s, key) == (AppView { payload_on: !s.payload, ..a }),
        is_char(key, 'r') ==> signals_after_key(a, s, key) == (Signals { refresh: true, ..s })
            && after_key(a, s, key) == a,
        is_char(key, 'q') || key.code == KeyCode::Esc ==> signals_after_key(a, s, key) == (Signals {
            stop: true,
            ..s
        }) && after_key(a, s, key) == a,
{
}

/// A table moved by `delta`: the selection goes so many rows on, and stops at the first and the last
/// row; what is drawn first stays.
pub open spec fn went(t: TableState, u: TableState, n: nat, delta: int) -> bool {
    &&& u.offset == t.offset
    &&& u.selected is Some
    &&& 0 <= row(t) + delta < n ==> u.selected->0 == row(t) + delta
    &&& row(t) + delta < 0 ==> u.selected->0 == 0
    &&& row(t) + delta >= n ==> u.selected->0 == n - 1
}

/// Scrolling moves the active panel's selection by so many rows within the table; a table without
/// rows stays. Scrolling the feed pauses it, scrolling the cache does not.
pub proof fn scrolling_moves_the_selection(a: AppView, delta: int)
    requires
        active_table(a).1 <= usize::MAX,
    ensures
        ({
            let b = scrolled(a, delta);
            let (t, n) = active_table(a);
            let u = active_table(b).0;
            &&& same_but_place(a, b)
            &&& n == 0 ==> u == t
            &&& n > 0 ==> went(t, u, n, delta)
            &&& b.paused == (a.paused || a.active == Tab::Events)
        }),
{
}

/// The arrows scroll by one row, the page keys by ten; up and down undo each other away from the
/// ends of the table.
pub proof fn arrows_and_pages_scroll(a: AppView, s: Signals, key: KeyEvent)
    requires
        commanding(a),
        active_table(a).1 <= usize::MAX,
    ensures
        key.code == KeyCode::Up ==> after_key(a, s, key) == scrolled(a, -1),
        key.code == KeyCode::Down ==> after_key(a, s, key) == scrolled(a, 1),
        key.code == KeyCode::PageUp ==> after_key(a, s, key) == scrolled(a, -10),
        key.code == KeyCode::PageDown ==> after_key(a, s, key) == scrolled(a, 10),
        key.code == KeyCode::Up || key.code == KeyCode::Down || key.code == KeyCode::PageUp
            || key.code == KeyCode::PageDown ==> signals_after_key(a, s, key) == s,
        forall|delta: int|
            0 <= row(active_table(a).0) < active_table(a).1 && 0 <= row(active_table(a).0) + delta
                < active_table(a).1 ==> row(
                active_table(#[trigger] scrolled(scrolled(a, delta), -delta)).0,
            ) == row(active_table(a).0),
{
    assert forall|delta: int|
        0 <= row(active_table(a).0) < active_table(a).1 && 0 <= row(active_table(a).0) + delta
            < active_table(a).1 implies row(
        active_table(#[trigger] scrolled(scrolled(a, delta), -delta)).0,
    ) == row(active_table(a).0) by {
        scrolling_moves_the_selection(a, delta);
        scrolling_moves_the_selection(scrolled(a, delta), -delta);
    }
}

/// `g` selects the first row of the active panel and lets the feed run if it is shown from the
/// newest down; `G` selects the last row, if there is one, and pauses the feed.
pub proof fn g_goes_to_the_ends(a: AppView, s: Signals, key: KeyEvent)
    requires
        commanding(a),
        active_table(a).1 <= usize::MAX,
    ensures
        is_char(key, 'g') ==> {
            let b = after_key(a, s, key);
            &&& b == at_top(a)
            &&& same_but_place(a, b)
            &&& active_table(b).0 == (TableState {
                selected: Some(0usize),
                ..active_table(a).0
            })
            &&& b.paused == (a.paused && !(a.active == Tab::Events && a.events_sort.col == Some(
                0usize,
            ) && a.events_sort.dir == SortDir::Desc))
            &&& signals_after_key(a, s, key) == s
        },
        is_char(key, 'G') ==> {
            let b = after_key(a, s, key);
            let (t, n) = active_table(a);
            &&& b == at_bottom(a)
            &&& same_but_place(a, b)
            &&& n == 0 ==> active_table(b).0 == t
            &&& n > 0 ==> active_table(b).0 == (TableState {
                selected: Some((n - 1) as usize),
                ..t
            })
            &&& b.paused == (a.paused || a.active == Tab::Events)
            &&& signals_after_key(a, s, key) == s
        },
{
}

/// Keys without a meaning do nothing.
pub proof fn other_keys_do_nothing(a: AppView, s: Signals, key: KeyEvent)
    requires
        commanding(a),
        key.code == KeyCode::Enter || key.code == KeyCode::Backspace || key.code == KeyCode::Other
            || (key.code is Char && {
            let c = key.code->Char_0;
            &&& c != 'q' && c != '?' && c != 'h' && c != '/' && c != 'c' && c != 'v'
            &&& c != 's' && c != 'S' && c != 'l' && c != ' ' && c != 'p' && c != 'r'
            &&& c != 'g' && c != 'G'
        }),
    ensures
        after_key(a, s, key) == a,
        signals_after_key(a, s, key) == s,
{
}

/// Before a frame is drawn, a panel without rows has no selection and is drawn from its start; the
/// feed's selection is on the first row while it is shown from the newest down and runs, and
/// otherwise stays, or goes to the last row where there are fewer. Nothing else changes.
pub proof fn selections_are_kept_inside(a: AppView)
    requires
        a.events_view.len() <= usize::MAX,
        a.cache_view.len() <= usize::MAX,
    ensures
        ({
            let b = synced(a);
            let live = a.events_sort.col == Some(0usize) && a.events_sort.dir == SortDir::Desc
                && !a.paused;
            &&& b == (AppView { feed_state: b.feed_state, cache_state: b.cache_state, ..a })
            &&& a.events_view.len() == 0 ==> b.feed_state == (TableState {
                offset: 0,
                selected: None,
            })
            &&& a.cache_view.len() == 0 ==> b.cache_state == (TableState {
                offset: 0,
                selected: None,
            })
            &&& a.events_view.len() > 0 && live ==> b.feed_state == (TableState {
                selected: Some(0usize),
                ..a.feed_state
            })
            &&& a.events_view.len() > 0 && !live ==> went(
                a.feed_state,
                b.feed_state,
                a.events_view.len(),
                0,
            )
            &&& a.cache_view.len() > 0 ==> went(
                a.cache_state,
                b.cache_state,
                a.cache_view.len(),
                0,
            )
        }),
{
}

/// The interface after the events `events`, from the start.
pub open spec fn fed(events: Seq<FeedEventView>) -> AppView
    decreases events.len(),
{
    if events.len() == 0 {
        fresh_app()
    } else {
        with_event(fed(events.drop_last()), events.last())
    }
}

/// Of all events that came in, the last thousand are kept, or all where they are fewer, in the order
/// in which they came; each is numbered by its place among all, from zero on. Nothing else changes.
pub proof fn the_last_thousand_are_kept(events: Seq<FeedEventView>)
    requires
        events.len() <= u64::MAX,
    ensures
        ({
            let b = fed(events);
            let n = events.len() as int;
            let kept = b.feed.len() as int;
            &&& n <= 1000 ==> kept == n
            &&& n > 1000 ==> kept == 1000
            &&& b.seq_counter == n
            &&& forall|i: int|
                0 <= i < kept ==> #[trigger] b.feed[i] == (FeedEventView {
                    seq: (n - kept + i) as u64,
                    ..events[n - kept + i]
                })
            &&& b == (AppView { feed: b.feed, seq_counter: b.seq_counter, ..fresh_app() })
        }),
    decreases events.len(),
{
    if events.len() > 0 {
        the_last_thousand_are_kept(events.drop_last());
    }
}

/// At the start nothing is in the feed, both tables are at their beginning without a selection, the
/// events are active, running and sorted from the newest down, and the cache is not sorted.
pub proof fn the_start()
    ensures
        ({
            let a = fresh_app();
            &&& a.feed.len() == 0 && a.events_view.len() == 0 && a.cache_view.len() == 0
            &&& a.active == Tab::Events && !a.paused && !a.payload_on && !a.show_help
            &&& !a.filtering && a.filter.len() == 0 && a.ip_filter == IpFilter::Both
            &&& a.events_sort == (SortState { col: Some(0), dir: SortDir::Desc })
            &&& a.cache_sort == (SortState { col: None, dir: SortDir::Asc })
            &&& a.feed_state == (TableState { offset: 0, selected: None })
            &&& a.cache_state == (TableState { offset: 0, selected: None })
            &&& a.dropped == 0 && a.status is None && a.seq_counter == 0
        }),
{
}

/// The feed is live when it is sorted by arrival, from the newest down, and not paused.
pub proof fn live_means_newest_first_and_running(a: AppView)
    ensures
        shows_latest(a) <==> a.events_sort.col is Some && a.events_sort.col->0 == 0
            && a.events_sort.dir == SortDir::Desc,
        follows(a) <==> shows_latest(a) && !a.paused,
{
}

/// Selecting a row leaves what is drawn first; selecting none goes back to the start.
pub proof fn selecting_none_goes_back_to_the_start(t: TableState, row: usize)
    ensures
        with_selection(t, Some(row)) == (TableState { selected: Some(row), ..t }),
        with_selection(t, None) == (TableState { offset: 0, selected: None }),
{
}

/// A table moves as [`went`] says, and one without rows stays; held inside its rows it moves only
/// where it must.
pub proof fn tables_move_within_their_rows(t: TableState, n: nat, delta: int)
    requires
        n <= usize::MAX,
    ensures
        moved(t, 0, delta) == t,
        n > 0 ==> went(t, moved(t, n, delta), n, delta),
        n > 0 ==> went(t, held(t, n), n, 0),
        held(t, 0) == (TableState { offset: 0, selected: None }),
{
}

/// An event that comes in stands last in the feed, with the next number; the oldest leaves where
/// there are a thousand already. Nothing else changes, in whatever state the interface is.
pub proof fn an_event_comes_in_last(a: AppView, e: FeedEventView)
    requires
        a.seq_counter < u64::MAX,
        a.feed.len() <= 1000,
    ensures
        ({
            let b = with_event(a, e);
            let gone = if a.feed.len() == 1000 {
                1int
            } else {
                0
            };
            &&& b.feed.len() == a.feed.len() + 1 - gone
            &&& b.feed[b.feed.len() - 1] == (FeedEventView { seq: a.seq_counter, ..e })
            &&& forall|i: int|
                0 <= i < b.feed.len() - 1 ==> #[trigger] b.feed[i] == a.feed[i + gone]
            &&& b.seq_counter == a.seq_counter + 1
            &&& b == (AppView { feed: b.feed, seq_counter: b.seq_counter, ..a })
        }),
{
}

/// While the search text is typed, every character key goes to its end and does nothing else.
pub proof fn any_character_is_typed(a: AppView, s: Signals, key: KeyEvent, c: char)
    requires
        a.filtering,
        !a.show_help,
        is_char(key, c),
    ensures
        after_key(a, s, key) == (AppView { filter: a.filter + seq![c], ..a }),
        signals_after_key(a, s, key) == s,
{
    assert(a.filter + seq![c] =~= a.filter.push(c));
}

} // verus!
