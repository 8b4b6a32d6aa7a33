//! What is on the screen, as text: the tables, the bars above and below them, and the help.

use vstd::prelude::*;
use vstd::string::*;

use crate::app::{
    active_sort, active_sort_ok, cache_listed, events_listed, footer_ok, optional_text, synced, App,
    AppView, COLUMNS,
};
use crate::feed::{FeedEvent, FeedEventView, EVENTS_COLS};
use crate::filter::{filter_label, SortDir, SortState, Tab};
use crate::reverse::{
    cache_view, remaining_secs, seconds_left, ReverseEntry, ReverseEntryView, CACHE_COLS,
};
use crate::table::TableState;
use crate::text::{decimal, joined, joined_push, push_decimal};

verus! {

/// The arrow of a direction.
pub open spec fn arrow(dir: SortDir) -> Seq<char> {
    match dir {
        SortDir::Asc => "↑"@,
        SortDir::Desc => "↓"@,
    }
}

fn arrow_text(dir: SortDir) -> (s: &'static str)
    ensures
        s@ == arrow(dir),
{
    match dir {
        SortDir::Asc => "↑",
        SortDir::Desc => "↓",
    }
}

/// The name of a column of a panel.
pub open spec fn column_name(tab: Tab, c: int) -> Seq<char> {
    match tab {
        Tab::Events => EVENTS_COLS[c]@,
        Tab::Cache => CACHE_COLS[c]@,
    }
}

/// The active panel's sort in short: the column and an arrow, or `off`.
pub open spec fn sort_text(a: AppView) -> Seq<char> {
    match active_sort(a).col {
        None => "off"@,
        Some(c) => column_name(a.active, c as int) + arrow(active_sort(a).dir),
    }
}

/// The search text in quotes.
pub open spec fn quoted(s: Seq<char>) -> Seq<char> {
    "\""@ + s + "\""@
}

/// The status at the right of the top bar: rows shown and in all, address family, search text.
pub open spec fn top_bar_text(a: AppView, shown: nat, total: nat) -> Seq<char> {
    " rows:"@ + decimal(shown) + "/"@ + decimal(total) + "  ip:"@ + filter_label(a.ip_filter)
        + "  filter:"@ + (if a.filter.len() == 0 {
        "none"@
    } else {
        quoted(a.filter)
    }) + " "@
}

/// The bar at the foot: the search text while it is typed, else the keys and the state.
pub open spec fn footer_text(a: AppView) -> Seq<char> {
    if a.filtering {
        " Filter: "@ + a.filter + "_    (Enter to apply · Esc to clear)"@
    } else {
        " [?]help [/]filter [c]clear [v]ip [s/S]sort [l]latest [Tab]panel [Space]pause [p]payload [r]refresh [q]quit    "@
            + (if a.paused {
            "PAUSED"@
        } else {
            "LIVE"@
        }) + "  ip:"@ + filter_label(a.ip_filter) + "  sort:"@ + sort_text(a) + "  payload:"@ + (
        if a.payload_on {
            "on"@
        } else {
            "off"@
        }) + "  cache:"@ + decimal(a.cache_view.len()) + "  drop:"@ + decimal(a.dropped as nat) + (
        if a.filter.len() == 0 {
            Seq::empty()
        } else {
            "  filter:"@ + quoted(a.filter)
        }) + (match a.status {
            None => Seq::empty(),
            Some(err) => "    ! "@ + err,
        })
    }
}

impl App {
    /// The active panel's sort in short.
    pub fn sort_label(&self) -> (s: String)
        requires
            active_sort_ok(self@),
        ensures
            s@ == sort_text(self@),
    {
        let sort: SortState = match self.active {
            Tab::Events => self.events_sort,
            Tab::Cache => self.cache_sort,
        };
        match sort.col {
            None => "off".to_owned(),
            Some(c) => {
                let name: &'static str = match self.active {
                    Tab::Events => EVENTS_COLS[c],
                    Tab::Cache => CACHE_COLS[c],
                };
                let mut s = name.to_owned();
                s.append(arrow_text(sort.dir));
                s
            },
        }
    }

    /// The status at the right of the top bar.
    pub fn top_bar_line(&self, shown: usize, total: usize) -> (s: String)
        ensures
            s@ == top_bar_text(self@, shown as nat, total as nat),
    {
        let mut s = " rows:".to_owned();
        push_decimal(&mut s, shown as u64);
        s.append("/");
        push_decimal(&mut s, total as u64);
        s.append("  ip:");
        s.append(self.ip_filter.label());
        s.append("  filter:");
        if self.filter.as_str().is_empty() {
            s.append("none");
        } else {
            s.append("\"");
            s.append(self.filter.as_str());
            s.append("\"");
        }
        s.append(" ");
        assert(s@ =~= top_bar_text(self@, shown as nat, total as nat));
        s
    }

    /// The bar at the foot of the screen.
    pub fn footer_line(&self) -> (s: String)
        requires
            footer_ok(self@),
        ensures
            s@ == footer_text(self@),
    {
        if self.filtering {
            let mut s = " Filter: ".to_owned();
            s.append(self.filter.as_str());
            s.append("_    (Enter to apply · Esc to clear)");
            return s;
        }
        let mut s =
            " [?]help [/]filter [c]clear [v]ip [s/S]sort [l]latest [Tab]panel [Space]pause [p]payload [r]refresh [q]quit    ".to_owned();
        s.append(
            if self.paused {
                "PAUSED"
            } else {
                "LIVE"
            },
        );
        s.append("  ip:");
        s.append(self.ip_filter.label());
        s.append("  sort:");
        s.append(self.sort_label().as_str());
        s.append("  payload:");
        s.append(
            if self.payload_on {
                "on"
            } else {
                "off"
            },
        );
        s.append("  cache:");
        push_decimal(&mut s, self.cache_view.len() as u64);
        s.append("  drop:");
        push_decimal(&mut s, self.dropped);
        if !self.filter.as_str().is_empty() {
            s.append("  filter:");
            s.append("\"");
            s.append(self.filter.as_str());
            s.append("\"");
        }
        match &self.status {
            Some(err) => {
                s.append("    ! ");
                s.append(err.as_str());
            },
            None => {},
        }
        assert(s@ =~= footer_text(self@));
        s
    }
}

/// A header cell: the column's name, with an arrow where the table is sorted by it.
pub open spec fn header_cell(name: Seq<char>, i: int, sort: SortState) -> Seq<char> {
    if sort.col == Some(i as usize) {
        name + " "@ + arrow(sort.dir)
    } else {
        name
    }
}

/// The header cells of the columns with the given names.
pub open spec fn header_cells(names: Seq<Seq<char>>, sort: SortState) -> Seq<Seq<char>> {
    Seq::new(names.len(), |i: int| header_cell(names[i], i, sort))
}

/// The names of a panel's columns.
pub open spec fn column_names(tab: Tab) -> Seq<Seq<char>> {
    Seq::new(COLUMNS as nat, |i: int| column_name(tab, i))
}

/// The cells of the header, marking the column that the table is sorted by.
pub fn header_row(cols: &[&str], sort: SortState) -> (cells: Vec<String>)
    ensures
        cells.deep_view() == header_cells(cols@.map_values(|c: &str| c@), sort),
{
    let ghost names = cols@.map_values(|c: &str| c@);
    let mut cells: Vec<String> = Vec::new();
    let n: usize = cols.len();
    for i in 0..n
        invariant
            n == cols@.len(),
            names == cols@.map_values(|c: &str| c@),
            cells@.len() == i,
            forall|k: int| 0 <= k < i ==> (#[trigger] cells@[k])@ == header_cell(names[k], k, sort),
    {
        let mut cell = cols[i].to_owned();
        let sorted: bool = match sort.col {
            Some(c) => c == i,
            None => false,
        };
        if sorted {
            cell.append(" ");
            cell.append(arrow_text(sort.dir));
        }
        cells.push(cell);
    }
    assert(cells.deep_view() =~= header_cells(names, sort));
    cells
}

fn panel_header(tab: Tab, sort: SortState) -> (cells: Vec<String>)
    ensures
        cells.deep_view() == header_cells(column_names(tab), sort),
{
    match tab {
        Tab::Events => {
            assert(EVENTS_COLS@.map_values(|c: &str| c@) =~= column_names(tab));
            header_row(EVENTS_COLS.as_slice(), sort)
        },
        Tab::Cache => {
            assert(CACHE_COLS@.map_values(|c: &str| c@) =~= column_names(tab));
            header_row(CACHE_COLS.as_slice(), sort)
        },
    }
}

/// A number of seconds with its unit.
pub open spec fn seconds_text(n: nat) -> Seq<char> {
    decimal(n) + "s"@
}

fn seconds_cell(n: u64) -> (s: String)
    ensures
        s@ == seconds_text(n as nat),
{
    let mut s = String::new();
    push_decimal(&mut s, n);
    s.append("s");
    assert(s@ =~= seconds_text(n as nat));
    s
}

/// The cells of an event.
pub open spec fn event_cells(e: FeedEventView) -> Seq<Seq<char>> {
    seq![
        e.time,
        e.name,
        e.record_type,
        e.addr,
        seconds_text(e.ttl as nat),
        decimal(e.txid as nat) + "/"@ + decimal(e.answer_idx as nat),
    ]
}

/// The cells of an event's row.
pub fn event_row(e: &FeedEvent) -> (cells: Vec<String>)
    ensures
        cells.deep_view() == event_cells(e@),
{
    let mut cells: Vec<String> = Vec::new();
    cells.push(e.time.clone());
    cells.push(e.name.clone());
    cells.push(e.record_type.to_owned());
    cells.push(e.addr.clone());
    cells.push(seconds_cell(e.ttl as u64));
    let mut ids = String::new();
    push_decimal(&mut ids, e.txid as u64);
    ids.append("/");
    push_decimal(&mut ids, e.answer_idx as u64);
    assert(ids@ =~= decimal(e.txid as nat) + "/"@ + decimal(e.answer_idx as nat));
    cells.push(ids);
    assert(cells.deep_view() =~= event_cells(e@));
    cells
}

/// The cells of a cache entry.
pub open spec fn entry_cells(e: ReverseEntryView) -> Seq<Seq<char>> {
    seq![
        e.inserted,
        e.addr,
        e.name,
        seconds_text(e.ttl as nat),
        seconds_text(e.age_secs as nat),
        seconds_text(seconds_left(e) as nat),
    ]
}

/// The cells of a cache entry's row.
pub fn entry_row(e: &ReverseEntry) -> (cells: Vec<String>)
    ensures
        cells.deep_view() == entry_cells(e@),
{
    let mut cells: Vec<String> = Vec::new();
    cells.push(e.inserted.clone());
    cells.push(e.addr.clone());
    cells.push(e.name.clone());
    cells.push(seconds_cell(e.ttl as u64));
    cells.push(seconds_cell(e.age_secs));
    cells.push(seconds_cell(remaining_secs(e)));
    assert(cells.deep_view() =~= entry_cells(e@));
    cells
}

/// A table as text.
pub struct TableText {
    pub title: String,
    pub header: Vec<String>,
    pub rows: Vec<Vec<String>>,
}

/// What a [`TableText`] holds.
#[verifier::ext_equal]
pub struct TableTextView {
    pub title: Seq<char>,
    pub header: Seq<Seq<char>>,
    pub rows: Seq<Seq<Seq<char>>>,
}

impl View for TableText {
    type V = TableTextView;

    open spec fn view(&self) -> TableTextView {
        TableTextView {
            title: self.title@,
            header: self.header.deep_view(),
            rows: self.rows.deep_view(),
        }
    }
}

/// The events panel as text: one row for each listed event.
pub open spec fn events_text(a: AppView) -> TableTextView {
    TableTextView {
        title: " DNS Events ("@ + decimal(a.events_view.len()) + ") "@,
        header: header_cells(column_names(Tab::Events), a.events_sort),
        rows: Seq::new(
            a.events_view.len(),
            |p: int| event_cells(a.feed[a.events_view[p] as int]),
        ),
    }
}

/// The cache panel as text: one row for each listed entry.
pub open spec fn cache_text(a: AppView, cache: Seq<ReverseEntryView>) -> TableTextView {
    TableTextView {
        title: " Reverse Cache · address → name ("@ + decimal(a.cache_view.len()) + ") "@,
        header: header_cells(column_names(Tab::Cache), a.cache_sort),
        rows: Seq::new(a.cache_view.len(), |p: int| entry_cells(cache[a.cache_view[p] as int])),
    }
}

impl App {
    /// The events panel as text.
    pub fn events_table(&self) -> (t: TableText)
        requires
            forall|p: int|
                0 <= p < self.events_view@.len() ==> (#[trigger] self.events_view@[p])
                    < self.feed@.len(),
        ensures
            t@ == events_text(self@),
    {
        let mut title = " DNS Events (".to_owned();
        push_decimal(&mut title, self.events_view.len() as u64);
        title.append(") ");
        let n: usize = self.events_view.len();
        let mut rows: Vec<Vec<String>> = Vec::new();
        for p in 0..n
            invariant
                n == self.events_view@.len(),
                forall|q: int|
                    0 <= q < self.events_view@.len() ==> (#[trigger] self.events_view@[q])
                        < self.feed@.len(),
                rows@.len() == p,
                forall|q: int|
                    0 <= q < p ==> (#[trigger] rows@[q]).deep_view() == event_cells(
                        self@.feed[self.events_view@[q] as int],
                    ),
        {
            let i: usize = self.events_view[p];
            assert(self@.feed[i as int] == self.feed@[i as int]@);
            rows.push(event_row(&self.feed[i]));
        }
        let t = TableText { title, header: panel_header(Tab::Events, self.events_sort), rows };
        assert(t@ =~= events_text(self@));
        t
    }

    /// The cache panel as text.
    pub fn cache_table(&self, cache: &[ReverseEntry]) -> (t: TableText)
        requires
            forall|p: int|
                0 <= p < self.cache_view@.len() ==> (#[trigger] self.cache_view@[p])
                    < cache@.len(),
        ensures
            t@ == cache_text(self@, cache_view(cache@)),
    {
        let ghost entries = cache_view(cache@);
        let mut title = " Reverse Cache · address → name (".to_owned();
        push_decimal(&mut title, self.cache_view.len() as u64);
        title.append(") ");
        let n: usize = self.cache_view.len();
        let mut rows: Vec<Vec<String>> = Vec::new();
        for p in 0..n
            invariant
                n == self.cache_view@.len(),
                entries == cache_view(cache@),
                forall|q: int|
                    0 <= q < self.cache_view@.len() ==> (#[trigger] self.cache_view@[q])
                        < cache@.len(),
                rows@.len() == p,
                forall|q: int|
                    0 <= q < p ==> (#[trigger] rows@[q]).deep_view() == entry_cells(
                        entries[self.cache_view@[q] as int],
                    ),
        {
            let i: usize = self.cache_view[p];
            assert(entries[i as int] == cache@[i as int]@);
            rows.push(entry_row(&cache[i]));
        }
        let t = TableText { title, header: panel_header(Tab::Cache, self.cache_sort), rows };
        assert(t@ =~= cache_text(self@, entries));
        t
    }
}

/// The lines of the help.
pub const HELP_LINES: [&'static str; 16] = [
    "",
    "  ?, h        Toggle this help",
    "  /           Filter by name / address (Enter apply · Esc clear)",
    "  c           Clear the active filter",
    "  v           Cycle IP family: all → v4 → v6",
    "  s / S        Cycle sort column / toggle direction",
    "  l            Latest: events newest-first (Time ↓)",
    "  Tab          Switch panel (Events / Cache)",
    "  Space        Pause / resume the live feed",
    "  p            Toggle writing payloads to payloads.json",
    "  r            Refresh the reverse cache now",
    "  ↑ ↓          Move selection (PgUp/PgDn by 10)",
    "  g / G        Jump to top / bottom",
    "  q, Esc       Quit",
    "",
    "  Press any key to close",
];

/// The number of lines of the help.
pub const HELP_HEIGHT: u16 = 16;

/// The first `n` lines of the help.
pub open spec fn help_lines(n: nat) -> Seq<Seq<char>> {
    Seq::new(n, |i: int| HELP_LINES[i]@)
}

/// The help as one text.
pub fn help_text() -> (s: String)
    ensures
        s@ == joined(help_lines(HELP_HEIGHT as nat), "\n"@),
{
    let mut s = String::new();
    for i in 0..16usize
        invariant
            s@ == joined(help_lines(i as nat), "\n"@),
    {
        proof {
            joined_push(help_lines(i as nat), "\n"@, HELP_LINES[i as int]@);
            assert(help_lines(i as nat).push(HELP_LINES[i as int]@) =~= help_lines(
                (i + 1) as nat,
            ));
        }
        if i > 0 {
            s.append("\n");
        }
        s.append(HELP_LINES[i]);
        assert(s@ =~= joined(help_lines((i + 1) as nat), "\n"@));
    }
    s
}

/// All that is drawn in one frame.
pub struct Screen {
    /// The number of the active panel's tab.
    pub selected_tab: usize,
    /// The status at the right of the top bar.
    pub status: String,
    /// The cells that the status takes, as far as sixteen bits hold their number.
    pub status_width: u16,
    /// The active panel.
    pub table: TableText,
    /// Where the active panel's table stands.
    pub state: TableState,
    pub footer: String,
    /// The help, where it is open.
    pub help: Option<String>,
}

/// What a [`Screen`] holds.
#[verifier::ext_equal]
pub struct ScreenView {
    pub selected_tab: usize,
    pub status: Seq<char>,
    pub status_width: u16,
    pub table: TableTextView,
    pub state: TableState,
    pub footer: Seq<char>,
    pub help: Option<Seq<char>>,
}

impl View for Screen {
    type V = ScreenView;

    open spec fn view(&self) -> ScreenView {
        ScreenView {
            selected_tab: self.selected_tab,
            status: self.status@,
            status_width: self.status_width,
            table: self.table@,
            state: self.state,
            footer: self.footer@,
            help: optional_text(self.help),
        }
    }
}

/// The top bar's status for the active panel.
pub open spec fn status_text(a: AppView, cache: Seq<ReverseEntryView>) -> Seq<char> {
    match a.active {
        Tab::Events => top_bar_text(a, a.events_view.len(), a.feed.len()),
        Tab::Cache => top_bar_text(a, a.cache_view.len(), cache.len()),
    }
}

/// The screen of a state of the interface.
pub open spec fn screen_text(a: AppView, cache: Seq<ReverseEntryView>) -> ScreenView {
    ScreenView {
        selected_tab: match a.active {
            Tab::Events => 0,
            Tab::Cache => 1,
        },
        status: status_text(a, cache),
        status_width: (status_text(a, cache).len() % 65536) as u16,
        table: match a.active {
            Tab::Events => events_text(a),
            Tab::Cache => cache_text(a, cache),
        },
        state: match a.active {
            Tab::Events => a.feed_state,
            Tab::Cache => a.cache_state,
        },
        footer: footer_text(a),
        help: if a.show_help {
            Some(joined(help_lines(HELP_HEIGHT as nat), "\n"@))
        } else {
            None
        },
    }
}

impl App {
    /// The screen as it stands, for an active panel that lists rows that there are.
    pub fn screen(&self, cache: &[ReverseEntry]) -> (screen: Screen)
        requires
            footer_ok(self@),
            self.active == Tab::Events ==> forall|p: int|
                0 <= p < self.events_view@.len() ==> (#[trigger] self.events_view@[p])
                    < self.feed@.len(),
            self.active == Tab::Cache ==> forall|p: int|
                0 <= p < self.cache_view@.len() ==> (#[trigger] self.cache_view@[p])
                    < cache@.len(),
        ensures
            screen@ == screen_text(self@, cache_view(cache@)),
    {
        let status = match self.active {
            Tab::Events => self.top_bar_line(self.events_view.len(), self.feed.len()),
            Tab::Cache => self.top_bar_line(self.cache_view.len(), cache.len()),
        };
        let cells: usize = status.as_str().unicode_len();
        let screen = Screen {
            selected_tab: match self.active {
                Tab::Events => 0,
                Tab::Cache => 1,
            },
            status,
            status_width: (cells % 65536) as u16,
            table: match self.active {
                Tab::Events => self.events_table(),
                Tab::Cache => self.cache_table(cache),
            },
            state: match self.active {
                Tab::Events => self.feed_state,
                Tab::Cache => self.cache_state,
            },
            footer: self.footer_line(),
            help: if self.show_help {
                Some(help_text())
            } else {
                None
            },
        };
        assert(screen@ =~= screen_text(self@, cache_view(cache@)));
        screen
    }

    /// Takes over what the worker reports, lists both panels anew and says what to draw.
    pub fn frame(
        &mut self,
        dropped: u64,
        status: Option<String>,
        payload_on: bool,
        cache: &[ReverseEntry],
    ) -> (screen: Screen)
        requires
            footer_ok(old(self)@),
        ensures
            events_listed(final(self)@),
            cache_listed(final(self)@, cache_view(cache@)),
            final(self)@ == synced(
                AppView {
                    dropped,
                    status: optional_text(status),
                    payload_on,
                    events_view: final(self)@.events_view,
                    cache_view: final(self)@.cache_view,
                    ..old(self)@
                },
            ),
            screen@ == screen_text(final(self)@, cache_view(cache@)),
    {
        self.begin_frame(dropped, status, payload_on, cache);
        assert forall|p: int| 0 <= p < self.events_view@.len() implies (
        #[trigger] self.events_view@[p]) < self.feed@.len() by {
            assert(self@.events_view.contains(self.events_view@[p]));
        }
        assert forall|p: int| 0 <= p < self.cache_view@.len() implies (
        #[trigger] self.cache_view@[p]) < cache@.len() by {
            assert(self@.cache_view.contains(self.cache_view@[p]));
        }
        self.screen(cache)
    }

    /// Takes over where drawing left the active panel's table.
    pub fn set_table_state(&mut self, state: TableState)
        ensures
            final(self)@ == (match old(self).active {
                Tab::Events => AppView { feed_state: state, ..old(self)@ },
                Tab::Cache => AppView { cache_state: state, ..old(self)@ },
            }),
    {
        match self.active {
            Tab::Events => {
                self.feed_state = state;
            },
            Tab::Cache => {
                self.cache_state = state;
            },
        }
    }
}

} // verus!
