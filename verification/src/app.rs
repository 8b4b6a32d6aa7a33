//! The state of the interface and how keys, events and frames change it.

use std::collections::VecDeque;

use vstd::prelude::*;

use crate::feed::{event_sign, feed_view, EventRows, FeedEvent, FeedEventView};
use crate::filter::{
    family_shown, matches_filter, next_filter, query_matches, search_key, search_text, IpFilter,
    SortDir, SortState, Tab,
};
use crate::keys::{KeyCode, KeyEvent, Signals};
use crate::reverse::{cache_sign, cache_view, CacheRows, ReverseEntry, ReverseEntryView};
use crate::sort::{arrange_rows, ascending, is_listing, lemma_push_contains, listed_before};
use crate::table::{held, moved, with_selection, TableState};

verus! {

/// The number of events that the feed keeps.
pub const FEED_CAP: usize = 1000;

/// The number of columns of either panel.
pub const COLUMNS: usize = 6;

/// All state of the interface.
pub struct App {
    pub feed: VecDeque<FeedEvent>,
    pub active: Tab,
    pub feed_state: TableState,
    pub cache_state: TableState,
    pub dropped: u64,
    pub status: Option<String>,
    pub paused: bool,
    /// Whether captured payloads are written out.
    pub payload_on: bool,
    /// The search text, matched against name and address whatever their case.
    pub filter: String,
    /// Whether the search text is being typed.
    pub filtering: bool,
    pub ip_filter: IpFilter,
    pub show_help: bool,
    pub events_sort: SortState,
    pub cache_sort: SortState,
    /// The rows of the feed that are shown, in the order shown.
    pub events_view: Vec<usize>,
    /// The rows of the cache that are shown, in the order shown.
    pub cache_view: Vec<usize>,
    /// The number that the next event gets.
    pub seq_counter: u64,
}

/// What an [`App`] holds.
#[verifier::ext_equal]
pub struct AppView {
    pub feed: Seq<FeedEventView>,
    pub active: Tab,
    pub feed_state: TableState,
    pub cache_state: TableState,
    pub dropped: u64,
    pub status: Option<Seq<char>>,
    pub paused: bool,
    pub payload_on: bool,
    pub filter: Seq<char>,
    pub filtering: bool,
    pub ip_filter: IpFilter,
    pub show_help: bool,
    pub events_sort: SortState,
    pub cache_sort: SortState,
    pub events_view: Seq<usize>,
    pub cache_view: Seq<usize>,
    pub seq_counter: u64,
}

/// The text that is there, if any.
pub open spec fn optional_text(s: Option<String>) -> Option<Seq<char>> {
    match s {
        Some(t) => Some(t@),
        None => None,
    }
}

impl View for App {
    type V = AppView;

    open spec fn view(&self) -> AppView {
        AppView {
            feed: feed_view(self.feed@),
            active: self.active,
            feed_state: self.feed_state,
            cache_state: self.cache_state,
            dropped: self.dropped,
            status: optional_text(self.status),
            paused: self.paused,
            payload_on: self.payload_on,
            filter: self.filter@,
            filtering: self.filtering,
            ip_filter: self.ip_filter,
            show_help: self.show_help,
            events_sort: self.events_sort,
            cache_sort: self.cache_sort,
            events_view: self.events_view@,
            cache_view: self.cache_view@,
            seq_counter: self.seq_counter,
        }
    }
}

/// The sort that puts the newest event first.
pub open spec fn latest_sort() -> SortState {
    SortState { col: Some(0), dir: SortDir::Desc }
}

/// The interface at the start: nothing in it, following the newest event.
pub open spec fn fresh_app() -> AppView {
    AppView {
        feed: Seq::empty(),
        active: Tab::Events,
        feed_state: TableState { offset: 0, selected: None },
        cache_state: TableState { offset: 0, selected: None },
        dropped: 0,
        status: None,
        paused: false,
        payload_on: false,
        filter: Seq::empty(),
        filtering: false,
        ip_filter: IpFilter::Both,
        show_help: false,
        events_sort: latest_sort(),
        cache_sort: SortState { col: None, dir: SortDir::Asc },
        events_view: Seq::empty(),
        cache_view: Seq::empty(),
        seq_counter: 0,
    }
}

/// The feed keeps at most [`FEED_CAP`] events, and they are the last that came in, in the order
/// in which they came.
pub open spec fn feed_ok(a: AppView) -> bool {
    &&& a.feed.len() == if a.seq_counter < FEED_CAP {
        a.seq_counter as nat
    } else {
        FEED_CAP as nat
    }
    &&& forall|i: int|
        0 <= i < a.feed.len() ==> (#[trigger] a.feed[i]).seq == a.seq_counter - a.feed.len() + i
}

/// Both sorts are by a column that there is, or by none.
pub open spec fn sorts_ok(a: AppView) -> bool {
    &&& a.events_sort.col matches Some(c) ==> c < COLUMNS
    &&& a.cache_sort.col matches Some(c) ==> c < COLUMNS
}

/// The last `n` items, or all where there are no more.
pub open spec fn last_items<T>(s: Seq<T>, n: int) -> Seq<T> {
    if s.len() > n {
        s.skip(s.len() - n)
    } else {
        s
    }
}

/// The interface with one more event, numbered, at the end of the feed; the oldest events make
/// room.
pub open spec fn with_event(a: AppView, e: FeedEventView) -> AppView {
    AppView {
        feed: last_items(
            a.feed.push(FeedEventView { seq: a.seq_counter, ..e }),
            FEED_CAP as int,
        ),
        seq_counter: (a.seq_counter + 1) as u64,
        ..a
    }
}

/// Row `i` of the feed passes both filters.
pub open spec fn event_shown(a: AppView, i: int) -> bool {
    &&& family_shown(a.ip_filter, a.feed[i].addr)
    &&& query_matches(search_key(a.filter), a.feed[i].name, a.feed[i].addr)
}

/// Row `i` of the feed is listed before row `j`.
pub open spec fn event_before(a: AppView, i: int, j: int) -> bool {
    let sign = match a.events_sort.col {
        Some(c) => event_sign(a.feed[i], a.feed[j], c),
        None => 0,
    };
    listed_before(a.events_sort, sign, i, j)
}

/// Row `i` of the cache passes both filters.
pub open spec fn entry_shown(a: AppView, cache: Seq<ReverseEntryView>, i: int) -> bool {
    &&& family_shown(a.ip_filter, cache[i].addr)
    &&& query_matches(search_key(a.filter), cache[i].name, cache[i].addr)
}

/// Row `i` of the cache is listed before row `j`.
pub open spec fn entry_before(a: AppView, cache: Seq<ReverseEntryView>, i: int, j: int) -> bool {
    let sign = match a.cache_sort.col {
        Some(c) => cache_sign(cache[i], cache[j], c),
        None => 0,
    };
    listed_before(a.cache_sort, sign, i, j)
}

/// The events panel lists the events that pass the filters, in the order of its sort.
pub open spec fn events_listed(a: AppView) -> bool {
    is_listing(
        a.events_view,
        a.feed.len(),
        |i: int| event_shown(a, i),
        |i: int, j: int| event_before(a, i, j),
    )
}

/// The cache panel lists the entries that pass the filters, in the order of its sort.
pub open spec fn cache_listed(a: AppView, cache: Seq<ReverseEntryView>) -> bool {
    is_listing(
        a.cache_view,
        cache.len(),
        |i: int| entry_shown(a, cache, i),
        |i: int, j: int| entry_before(a, cache, i, j),
    )
}

/// The feed is shown newest first.
pub open spec fn shows_latest(a: AppView) -> bool {
    a.events_sort == latest_sort()
}

/// The feed's selection stays on the newest event.
pub open spec fn follows(a: AppView) -> bool {
    shows_latest(a) && !a.paused
}

/// Both selections held inside what is listed, and the feed's on its first row while it follows.
pub open spec fn synced(a: AppView) -> AppView {
    AppView {
        feed_state: if a.events_view.len() > 0 && follows(a) {
            with_selection(a.feed_state, Some(0))
        } else {
            held(a.feed_state, a.events_view.len())
        },
        cache_state: held(a.cache_state, a.cache_view.len()),
        ..a
    }
}

/// The active panel's selection moved by `delta` rows; moving in the feed pauses it.
pub open spec fn scrolled(a: AppView, delta: int) -> AppView {
    match a.active {
        Tab::Events => AppView {
            paused: true,
            feed_state: moved(a.feed_state, a.events_view.len(), delta),
            ..a
        },
        Tab::Cache => AppView {
            cache_state: moved(a.cache_state, a.cache_view.len(), delta),
            ..a
        },
    }
}

/// The active panel on its first row. In the newest-first feed that is the live position, so the
/// feed runs on.
pub open spec fn at_top(a: AppView) -> AppView {
    match a.active {
        Tab::Events => AppView {
            feed_state: with_selection(a.feed_state, Some(0)),
            paused: a.paused && !shows_latest(a),
            ..a
        },
        Tab::Cache => AppView { cache_state: with_selection(a.cache_state, Some(0)), ..a },
    }
}

/// The table on the last of its `n` rows.
pub open spec fn on_last_row(t: TableState, n: nat) -> TableState {
    if n == 0 {
        t
    } else {
        with_selection(t, Some((n - 1) as usize))
    }
}

/// The active panel on its last row; going there in the feed pauses it.
pub open spec fn at_bottom(a: AppView) -> AppView {
    match a.active {
        Tab::Events => AppView {
            paused: true,
            feed_state: on_last_row(a.feed_state, a.events_view.len()),
            ..a
        },
        Tab::Cache => AppView {
            cache_state: on_last_row(a.cache_state, a.cache_view.len()),
            ..a
        },
    }
}

/// The feed shown newest first, running, on its first row.
pub open spec fn at_latest(a: AppView) -> AppView {
    AppView {
        active: Tab::Events,
        events_sort: latest_sort(),
        paused: false,
        feed_state: with_selection(a.feed_state, Some(0)),
        ..a
    }
}

/// The active panel's sort.
pub open spec fn active_sort(a: AppView) -> SortState {
    match a.active {
        Tab::Events => a.events_sort,
        Tab::Cache => a.cache_sort,
    }
}

/// The active panel is sorted by a column that there is, or by none.
pub open spec fn active_sort_ok(a: AppView) -> bool {
    active_sort(a).col matches Some(c) ==> c < COLUMNS
}

/// The foot of the screen can name the active panel's sort, where it does.
pub open spec fn footer_ok(a: AppView) -> bool {
    !a.filtering ==> active_sort_ok(a)
}

/// The interface with another sort in the active panel.
pub open spec fn with_active_sort(a: AppView, s: SortState) -> AppView {
    match a.active {
        Tab::Events => AppView { events_sort: s, ..a },
        Tab::Cache => AppView { cache_sort: s, ..a },
    }
}

/// The column after `col` in the cycle none, first, ..., last, none.
pub open spec fn next_column(col: Option<usize>) -> Option<usize> {
    match col {
        None => Some(0),
        Some(c) => if c + 1 < COLUMNS {
            Some((c + 1) as usize)
        } else {
            None
        },
    }
}

/// The other direction.
pub open spec fn opposite(dir: SortDir) -> SortDir {
    match dir {
        SortDir::Asc => SortDir::Desc,
        SortDir::Desc => SortDir::Asc,
    }
}

/// What a key does while the search text is typed.
pub open spec fn key_typed(a: AppView, code: KeyCode) -> AppView {
    match code {
        KeyCode::Esc => AppView { filter: Seq::empty(), filtering: false, ..a },
        KeyCode::Enter => AppView { filtering: false, ..a },
        KeyCode::Backspace => AppView {
            filter: if a.filter.len() == 0 {
                a.filter
            } else {
                a.filter.drop_last()
            },
            ..a
        },
        KeyCode::Char(c) => AppView { filter: a.filter.push(c), ..a },
        _ => a,
    }
}

/// What a key asks of the rest of the program, with neither the help nor the search text open.
pub open spec fn key_signals(s: Signals, code: KeyCode) -> Signals {
    match code {
        KeyCode::Esc => Signals { stop: true, ..s },
        KeyCode::Char(c) => if c == 'q' {
            Signals { stop: true, ..s }
        } else if c == 'r' {
            Signals { refresh: true, ..s }
        } else if c == 'p' {
            Signals { payload: !s.payload, ..s }
        } else {
            s
        },
        _ => s,
    }
}

/// What a character key does to the interface, with neither the help nor the search text open.
pub open spec fn char_command(a: AppView, s: Signals, c: char) -> AppView {
    if c == '?' || c == 'h' {
        AppView { show_help: true, ..a }
    } else if c == '/' {
        AppView { filtering: true, ..a }
    } else if c == 'c' {
        AppView { filter: Seq::empty(), ..a }
    } else if c == 'v' {
        AppView { ip_filter: next_filter(a.ip_filter), ..a }
    } else if c == 's' {
        with_active_sort(a, SortState { col: next_column(active_sort(a).col), ..active_sort(a) })
    } else if c == 'S' {
        with_active_sort(a, SortState { dir: opposite(active_sort(a).dir), ..active_sort(a) })
    } else if c == 'l' {
        at_latest(a)
    } else if c == ' ' {
        AppView { paused: !a.paused, ..a }
    } else if c == 'p' {
        AppView { payload_on: !s.payload, ..a }
    } else if c == 'g' {
        at_top(a)
    } else if c == 'G' {
        at_bottom(a)
    } else {
        a
    }
}

/// What a key does to the interface, with neither the help nor the search text open.
pub open spec fn key_command(a: AppView, s: Signals, code: KeyCode) -> AppView {
    match code {
        KeyCode::Tab => AppView {
            active: match a.active {
                Tab::Events => Tab::Cache,
                Tab::Cache => Tab::Events,
            },
            ..a
        },
        KeyCode::Up => scrolled(a, -1),
        KeyCode::Down => scrolled(a, 1),
        KeyCode::PageUp => scrolled(a, -10),
        KeyCode::PageDown => scrolled(a, 10),
        KeyCode::Char(c) => char_command(a, s, c),
        _ => a,
    }
}

/// The key combination that always ends the program.
pub open spec fn is_quit_combo(key: KeyEvent) -> bool {
    key.ctrl && key.code == KeyCode::Char('c')
}

/// The interface after a key.
pub open spec fn after_key(a: AppView, s: Signals, key: KeyEvent) -> AppView {
    if is_quit_combo(key) {
        a
    } else if a.show_help {
        AppView { show_help: false, ..a }
    } else if a.filtering {
        key_typed(a, key.code)
    } else {
        key_command(a, s, key.code)
    }
}

/// The shared flags after a key.
pub open spec fn signals_after_key(a: AppView, s: Signals, key: KeyEvent) -> Signals {
    if is_quit_combo(key) {
        Signals { stop: true, ..s }
    } else if a.show_help || a.filtering {
        s
    } else {
        key_signals(s, key.code)
    }
}

impl App {
    pub fn new() -> (app: App)
        ensures
            app@ == fresh_app(),
    {
        let app = App {
            feed: VecDeque::new(),
            active: Tab::Events,
            feed_state: TableState { offset: 0, selected: None },
            cache_state: TableState { offset: 0, selected: None },
            dropped: 0,
            status: None,
            paused: false,
            payload_on: false,
            filter: String::new(),
            filtering: false,
            ip_filter: IpFilter::Both,
            show_help: false,
            events_sort: SortState { col: Some(0), dir: SortDir::Desc },
            cache_sort: SortState { col: None, dir: SortDir::Asc },
            events_view: Vec::new(),
            cache_view: Vec::new(),
            seq_counter: 0,
        };
        assert(app@ =~= fresh_app());
        app
    }

    /// Numbers an event and puts it at the end of the feed.
    pub fn push_event(&mut self, ev: FeedEvent)
        requires
            old(self).seq_counter < u64::MAX,
        ensures
            final(self)@ == with_event(old(self)@, ev@),
            feed_ok(old(self)@) ==> feed_ok(final(self)@),
    {
        let mut ev = ev;
        let ghost given = ev@;
        ev.seq = self.seq_counter;
        self.seq_counter += 1;
        let ghost all = self.feed@.push(ev);
        self.feed.push_back(ev);
        while self.feed.len() > FEED_CAP
            invariant
                self.feed@.len() <= all.len(),
                self.feed@ == all.skip(all.len() - self.feed@.len()),
                self.feed@.len() >= last_items(all, FEED_CAP as int).len(),
                self@ == (AppView {
                    feed: self@.feed,
                    seq_counter: (old(self).seq_counter + 1) as u64,
                    ..old(self)@
                }),
            decreases self.feed@.len(),
        {
            let _ = self.feed.pop_front();
        }
        assert(self.feed@ =~= last_items(all, FEED_CAP as int));
        assert(feed_view(all) =~= old(self)@.feed.push(
            FeedEventView { seq: old(self).seq_counter, ..given },
        ));
        assert(feed_view(self.feed@) =~= last_items(feed_view(all), FEED_CAP as int));
    }

    /// The rows of the feed that pass the filters, in the order of the events panel. `query` is
    /// what the search text looks for.
    fn list_events(&self, query: &str) -> (list: Vec<usize>)
        requires
            query@ == search_key(self.filter@),
        ensures
            events_listed(AppView { events_view: list@, ..self@ }),
    {
        let n: usize = self.feed.len();
        let mut list: Vec<usize> = Vec::new();
        for i in 0..n
            invariant
                n == self.feed@.len(),
                query@ == search_key(self.filter@),
                forall|p: int| 0 <= p < list@.len() ==> #[trigger] list@[p] < i,
                ascending(list@),
                forall|x: usize|
                    #[trigger] list@.contains(x) <==> x < i && event_shown(self@, x as int),
        {
            let ghost before = list@;
            assert(self@.feed[i as int] == self.feed@[i as int]@);
            if self.ip_filter.accepts(self.feed[i].addr.as_str()) && matches_filter(
                query,
                self.feed[i].name.as_str(),
                self.feed[i].addr.as_str(),
            ) {
                list.push(i);
            }
            proof {
                assert forall|x: usize| #[trigger] list@.contains(x) <==> x < i + 1 && event_shown(
                    self@,
                    x as int,
                ) by {
                    if event_shown(self@, i as int) {
                        lemma_push_contains(before, i, x);
                    }
                }
            }
        }
        let ghost picked = list@;
        let arranged = match self.events_sort.col {
            None => list,
            Some(col) => arrange_rows(
                &EventRows { feed: &self.feed, col },
                list,
                self.events_sort.dir,
            ),
        };
        proof {
            let a = AppView { events_view: arranged@, ..self@ };
            assert forall|x: usize| #[trigger] arranged@.contains(x) <==> x < n && event_shown(
                a,
                x as int,
            ) by {
                assert(picked.contains(x) <==> arranged@.contains(x));
                assert(event_shown(a, x as int) == event_shown(self@, x as int));
            }
            assert forall|p: int, q: int| 0 <= p < q < arranged@.len() implies event_before(
                a,
                #[trigger] arranged@[p] as int,
                #[trigger] arranged@[q] as int,
            ) by {
                assert(arranged@.contains(arranged@[p]));
                assert(arranged@.contains(arranged@[q]));
                assert(self@.feed[arranged@[p] as int] == self.feed@[arranged@[p] as int]@);
                assert(self@.feed[arranged@[q] as int] == self.feed@[arranged@[q] as int]@);
            }
        }
        arranged
    }

    /// The rows of the cache that pass the filters, in the order of the cache panel. `query` is
    /// what the search text looks for.
    fn list_cache(&self, query: &str, cache: &[ReverseEntry]) -> (list: Vec<usize>)
        requires
            query@ == search_key(self.filter@),
        ensures
            cache_listed(AppView { cache_view: list@, ..self@ }, cache_view(cache@)),
    {
        let ghost entries = cache_view(cache@);
        let n: usize = cache.len();
        let mut list: Vec<usize> = Vec::new();
        for i in 0..n
            invariant
                n == cache@.len(),
                entries == cache_view(cache@),
                query@ == search_key(self.filter@),
                forall|p: int| 0 <= p < list@.len() ==> #[trigger] list@[p] < i,
                ascending(list@),
                forall|x: usize|
                    #[trigger] list@.contains(x) <==> x < i && entry_shown(
                        self@,
                        entries,
                        x as int,
                    ),
        {
            let ghost before = list@;
            assert(entries[i as int] == cache@[i as int]@);
            if self.ip_filter.accepts(cache[i].addr.as_str()) && matches_filter(
                query,
                cache[i].name.as_str(),
                cache[i].addr.as_str(),
            ) {
                list.push(i);
            }
            proof {
                assert forall|x: usize| #[trigger] list@.contains(x) <==> x < i + 1 && entry_shown(
                    self@,
                    entries,
                    x as int,
                ) by {
                    if entry_shown(self@, entries, i as int) {
                        lemma_push_contains(before, i, x);
                    }
                }
            }
        }
        let ghost picked = list@;
        let arranged = match self.cache_sort.col {
            None => list,
            Some(col) => arrange_rows(&CacheRows { cache, col }, list, self.cache_sort.dir),
        };
        proof {
            let a = AppView { cache_view: arranged@, ..self@ };
            assert forall|x: usize| #[trigger] arranged@.contains(x) <==> x < n && entry_shown(
                a,
                entries,
                x as int,
            ) by {
                assert(picked.contains(x) <==> arranged@.contains(x));
                assert(entry_shown(a, entries, x as int) == entry_shown(
                    self@,
                    entries,
                    x as int,
                ));
            }
            assert forall|p: int, q: int| 0 <= p < q < arranged@.len() implies entry_before(
                a,
                entries,
                #[trigger] arranged@[p] as int,
                #[trigger] arranged@[q] as int,
            ) by {
                assert(arranged@.contains(arranged@[p]));
                assert(arranged@.contains(arranged@[q]));
                assert(entries[arranged@[p] as int] == cache@[arranged@[p] as int]@);
                assert(entries[arranged@[q] as int] == cache@[arranged@[q] as int]@);
            }
        }
        arranged
    }

    /// Lists anew what both panels show.
    pub fn rebuild_views(&mut self, cache: &[ReverseEntry])
        ensures
            events_listed(final(self)@),
            cache_listed(final(self)@, cache_view(cache@)),
            final(self)@ == (AppView {
                events_view: final(self)@.events_view,
                cache_view: final(self)@.cache_view,
                ..old(self)@
            }),
    {
        let query = search_text(&self.filter);
        let events = self.list_events(query.as_str());
        let entries = self.list_cache(query.as_str(), cache);
        let ghost was = self@;
        self.events_view = events;
        self.cache_view = entries;
        proof {
            let a = AppView { events_view: events@, ..was };
            let c = AppView { cache_view: entries@, ..was };
            assert((|i: int| event_shown(a, i)) =~= (|i: int| event_shown(self@, i)));
            assert((|i: int, j: int| event_before(a, i, j)) =~= (|i: int, j: int|
                event_before(self@, i, j)));
            let entries_view = cache_view(cache@);
            assert((|i: int| entry_shown(c, entries_view, i)) =~= (|i: int|
                entry_shown(self@, entries_view, i)));
            assert((|i: int, j: int| entry_before(c, entries_view, i, j)) =~= (|i: int, j: int|
                entry_before(self@, entries_view, i, j)));
        }
    }

    /// Tells whether the feed is shown newest first.
    pub fn is_latest_view(&self) -> (latest: bool)
        ensures
            latest == shows_latest(self@),
    {
        match self.events_sort.col {
            Some(c) => c == 0 && self.events_sort.dir == SortDir::Desc,
            None => false,
        }
    }

    /// Tells whether the feed's selection stays on the newest event.
    pub fn events_follow(&self) -> (following: bool)
        ensures
            following == follows(self@),
    {
        self.is_latest_view() && !self.paused
    }

    /// Keeps the feed on its newest row while it follows, and both selections inside what is
    /// listed.
    pub fn sync_selection(&mut self)
        ensures
            final(self)@ == synced(old(self)@),
    {
        let n: usize = self.events_view.len();
        if n > 0 && self.events_follow() {
            self.feed_state.select(Some(0));
        } else {
            self.feed_state.hold_within(n);
        }
        self.cache_state.hold_within(self.cache_view.len());
    }

    /// Moves the active panel's selection. Moving in the feed pauses it, so that it holds still.
    pub fn scroll(&mut self, delta: isize)
        ensures
            final(self)@ == scrolled(old(self)@, delta as int),
    {
        match self.active {
            Tab::Events => {
                self.paused = true;
                self.feed_state.move_by(self.events_view.len(), delta);
            },
            Tab::Cache => {
                self.cache_state.move_by(self.cache_view.len(), delta);
            },
        }
    }

    /// Goes to the first row of the active panel.
    pub fn scroll_to_top(&mut self)
        ensures
            final(self)@ == at_top(old(self)@),
    {
        match self.active {
            Tab::Events => {
                self.feed_state.select(Some(0));
                if self.is_latest_view() {
                    self.paused = false;
                }
            },
            Tab::Cache => {
                self.cache_state.select(Some(0));
            },
        }
    }

    /// Goes to the last row of the active panel. In the feed that is the oldest event, and the
    /// feed pauses.
    pub fn scroll_to_bottom(&mut self)
        ensures
            final(self)@ == at_bottom(old(self)@),
    {
        match self.active {
            Tab::Events => {
                self.paused = true;
                if !self.events_view.is_empty() {
                    self.feed_state.select(Some(self.events_view.len() - 1));
                }
            },
            Tab::Cache => {
                if !self.cache_view.is_empty() {
                    self.cache_state.select(Some(self.cache_view.len() - 1));
                }
            },
        }
    }

    /// Shows the feed newest first and lets it run on.
    pub fn reset_latest(&mut self)
        ensures
            final(self)@ == at_latest(old(self)@),
    {
        self.active = Tab::Events;
        self.events_sort = SortState { col: Some(0), dir: SortDir::Desc };
        self.paused = false;
        self.feed_state.select(Some(0));
    }

    /// Goes to the next sort column of the active panel: none, first, ..., last, none.
    pub fn cycle_sort(&mut self)
        ensures
            final(self)@ == with_active_sort(
                old(self)@,
                SortState {
                    col: next_column(active_sort(old(self)@).col),
                    ..active_sort(old(self)@)
                },
            ),
    {
        let st = self.active_sort_mut();
        let next: Option<usize> = match st.col {
            None => Some(0),
            Some(c) => if c < COLUMNS - 1 {
                Some(c + 1)
            } else {
                None
            },
        };
        st.col = next;
    }

    /// Turns the active panel's sort round.
    pub fn toggle_sort_dir(&mut self)
        ensures
            final(self)@ == with_active_sort(
                old(self)@,
                SortState {
                    dir: opposite(active_sort(old(self)@).dir),
                    ..active_sort(old(self)@)
                },
            ),
    {
        let st = self.active_sort_mut();
        st.dir = match st.dir {
            SortDir::Asc => SortDir::Desc,
            SortDir::Desc => SortDir::Asc,
        };
    }

    fn active_sort_mut(&mut self) -> (s: &mut SortState)
        ensures
            *s == active_sort(old(self)@),
            final(self)@ == with_active_sort(old(self)@, *final(s)),
    {
        match self.active {
            Tab::Events => &mut self.events_sort,
            Tab::Cache => &mut self.cache_sort,
        }
    }

    /// A key while the search text is typed.
    fn type_key(&mut self, code: KeyCode)
        ensures
            final(self)@ == key_typed(old(self)@, code),
    {
        match code {
            KeyCode::Esc => {
                self.filter = String::new();
                self.filtering = false;
            },
            KeyCode::Enter => {
                self.filtering = false;
            },
            KeyCode::Backspace => {
                let _ = self.filter.pop();
            },
            KeyCode::Char(c) => {
                self.filter.push(c);
            },
            _ => {},
        }
        assert(self@ =~= key_typed(old(self)@, code));
    }

    /// A character key, with neither the help nor the search text open.
    fn char_key(&mut self, c: char, signals: &mut Signals)
        ensures
            final(self)@ == char_command(old(self)@, *old(signals), c),
            *final(signals) == key_signals(*old(signals), KeyCode::Char(c)),
    {
        if c == 'q' {
            signals.stop = true;
        } else if c == '?' || c == 'h' {
            self.show_help = true;
        } else if c == '/' {
            self.filtering = true;
        } else if c == 'c' {
            self.filter = String::new();
        } else if c == 'v' {
            self.ip_filter = self.ip_filter.next();
        } else if c == 's' {
            self.cycle_sort();
        } else if c == 'S' {
            self.toggle_sort_dir();
        } else if c == 'l' {
            self.reset_latest();
        } else if c == ' ' {
            self.paused = !self.paused;
        } else if c == 'p' {
            let on: bool = !signals.payload;
            signals.payload = on;
            self.payload_on = on;
        } else if c == 'r' {
            signals.refresh = true;
        } else if c == 'g' {
            self.scroll_to_top();
        } else if c == 'G' {
            self.scroll_to_bottom();
        }
        assert(self@ =~= char_command(old(self)@, *old(signals), c));
    }

    /// Acts on a key.
    pub fn handle_key(&mut self, key: KeyEvent, signals: &mut Signals)
        ensures
            final(self)@ == after_key(old(self)@, *old(signals), key),
            *final(signals) == signals_after_key(old(self)@, *old(signals), key),
    {
        // The quit combination works even while typing.
        if key.ctrl && key.code == KeyCode::Char('c') {
            signals.stop = true;
            return;
        }
        // With the help open, any key closes it.
        if self.show_help {
            self.show_help = false;
            return;
        }
        // While the search text is typed, keys edit it.
        if self.filtering {
            self.type_key(key.code);
            return;
        }
        match key.code {
            KeyCode::Esc => {
                signals.stop = true;
            },
            KeyCode::Tab => {
                self.active = match self.active {
                    Tab::Events => Tab::Cache,
                    Tab::Cache => Tab::Events,
                };
            },
            KeyCode::Up => {
                self.scroll(-1);
            },
            KeyCode::Down => {
                self.scroll(1);
            },
            KeyCode::PageUp => {
                self.scroll(-10);
            },
            KeyCode::PageDown => {
                self.scroll(10);
            },
            KeyCode::Char(c) => {
                self.char_key(c, signals);
            },
            _ => {},
        }
    }

    /// Acts on a key event of the terminal; only a key that goes down counts.
    pub fn on_key_event(&mut self, key: KeyEvent, signals: &mut Signals)
        ensures
            key.pressed ==> final(self)@ == after_key(old(self)@, *old(signals), key),
            key.pressed ==> *final(signals) == signals_after_key(old(self)@, *old(signals), key),
            !key.pressed ==> *final(self) == *old(self) && *final(signals) == *old(signals),
    {
        if key.pressed {
            self.handle_key(key, signals);
        }
    }

    /// Takes over what the worker reports and makes both panels ready to draw.
    pub fn begin_frame(
        &mut self,
        dropped: u64,
        status: Option<String>,
        payload_on: bool,
        cache: &[ReverseEntry],
    )
        ensures
            events_listed(final(self)@),
            cache_listed(final(self)@, cache_view(cache@)),
            final(self)@ == synced(
                AppView {
                    dropped,
                    status: optional_text(status),
                    payload_on,
                    events_view: final(self)@.events_view,
                    cache_view: final(self)@.cache_view,
                    ..old(self)@
                },
            ),
    {
        self.dropped = dropped;
        self.status = status;
        self.payload_on = payload_on;
        self.rebuild_views(cache);
        let ghost listed = self@;
        self.sync_selection();
        proof {
            let a = self@;
            let entries = cache_view(cache@);
            assert((|i: int| event_shown(listed, i)) =~= (|i: int| event_shown(a, i)));
            assert((|i: int, j: int| event_before(listed, i, j)) =~= (|i: int, j: int|
                event_before(a, i, j)));
            assert((|i: int| entry_shown(listed, entries, i)) =~= (|i: int|
                entry_shown(a, entries, i)));
            assert((|i: int, j: int| entry_before(listed, entries, i, j)) =~= (|i: int, j: int|
                entry_before(a, entries, i, j)));
        }
    }
}

} // verus!
