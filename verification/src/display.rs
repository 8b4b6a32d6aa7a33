//! What the screen and the payload file show: everything that there is to show, in full.

use vstd::prelude::*;

use crate::app::{AppView, COLUMNS, FEED_CAP};
use crate::areas::{column_sizes, is_help_area, Rect, Size, HELP_WIDTH};
use crate::capture::{
    capture_key, capture_line, captures_text, entry_text, lists, map_of, stands_at,
    taken_in, CaptureRecordView, CaptureView, Entry, CAPTURE_HEADER,
};
use crate::event::EVENT_SIZE;
use crate::feed::FeedEventView;
use crate::filter::{filter_label, IpFilter, SortDir, SortState, Tab};
use crate::order::text_sign;
use crate::ordering::{alphabetical, texts_are_alphabetical};
use crate::payload::{byte_text, payload_text, payload_text_push, BYTES_PER_LINE};
use crate::reading::{are_digits, number_of, numbers_read_back, plain_writing_is_unique, plainly};
use crate::records::DNS_MAX_NAME_LEN;
use crate::reverse::ReverseEntryView;
use crate::screen::{
    cache_text, column_name, column_names, entry_cells, event_cells, events_text, footer_text,
    header_cells, help_lines, screen_text, sort_text, status_text, top_bar_text,
    HELP_HEIGHT, HELP_LINES,
};
use crate::snapshot::{REVERSE_KEY_SIZE, REVERSE_VALUE_SIZE};
use crate::text::{decimal, joined, joined_push};
use crate::worker::{CACHE_REFRESH_NS, FEED_CHAN_CAP};

verus! {

/// A number in decimal is written plainly.
pub proof fn decimals_are_plain(n: nat)
    ensures
        plainly(decimal(n), n as int, 10),
{
    numbers_read_back(n, 10);
}

/// A cell of seconds: the number, plainly written, and `s`.
pub open spec fn shows_seconds(cell: Seq<char>, n: int) -> bool {
    &&& cell.len() > 1
    &&& cell[cell.len() - 1] == 's'
    &&& plainly(cell.subrange(0, cell.len() - 1), n, 10)
}

proof fn lemma_seconds(n: nat)
    ensures
        shows_seconds(crate::screen::seconds_text(n), n as int),
{
    reveal_strlit("s");
    decimals_are_plain(n);
    let cell = crate::screen::seconds_text(n);
    assert(cell.subrange(0, cell.len() - 1) =~= decimal(n));
}

/// The row of an event has six cells: its time, its name, its type and its address in full, its
/// time to live, and its transaction and answer with a slash between them.
pub proof fn event_rows_show_everything(e: FeedEventView, tx: Seq<char>, ans: Seq<char>)
    requires
        plainly(tx, e.txid as int, 10),
        plainly(ans, e.answer_idx as int, 10),
    ensures
        event_cells(e).len() == 6,
        event_cells(e)[0] == e.time,
        event_cells(e)[1] == e.name,
        event_cells(e)[2] == e.record_type,
        event_cells(e)[3] == e.addr,
        shows_seconds(event_cells(e)[4], e.ttl as int),
        event_cells(e)[5] == tx + seq!['/'] + ans,
{
    reveal_strlit("/");
    assert("/"@ =~= seq!['/']);
    lemma_seconds(e.ttl as nat);
    plain_writing_is_unique(tx, e.txid as nat, 10);
    plain_writing_is_unique(ans, e.answer_idx as nat, 10);
}

/// The row of an entry has six cells: its time of insertion, its address and its name in full, its
/// time to live, its age and what is left, none once its time is over.
pub proof fn entry_rows_show_everything(e: ReverseEntryView)
    ensures
        entry_cells(e).len() == 6,
        entry_cells(e)[0] == e.inserted,
        entry_cells(e)[1] == e.addr,
        entry_cells(e)[2] == e.name,
        shows_seconds(entry_cells(e)[3], e.ttl as int),
        shows_seconds(entry_cells(e)[4], e.age_secs as int),
        e.ttl >= e.age_secs ==> shows_seconds(entry_cells(e)[5], e.ttl - e.age_secs),
        e.ttl <= e.age_secs ==> shows_seconds(entry_cells(e)[5], 0),
{
    lemma_seconds(e.ttl as nat);
    lemma_seconds(e.age_secs as nat);
    lemma_seconds(crate::reverse::seconds_left(e) as nat);
}

/// Each panel shows a row for every listed row, in the order listed, and their number in its title.
pub proof fn panels_show_all_that_is_listed(
    a: AppView,
    cache: Seq<ReverseEntryView>,
    events: Seq<char>,
    entries: Seq<char>,
)
    requires
        plainly(events, a.events_view.len() as int, 10),
        plainly(entries, a.cache_view.len() as int, 10),
    ensures
        events_text(a).rows.len() == a.events_view.len(),
        forall|p: int|
            0 <= p < a.events_view.len() ==> #[trigger] events_text(a).rows[p] == event_cells(
                a.feed[a.events_view[p] as int],
            ),
        events_text(a).title == " DNS Events ("@ + events + ") "@,
        cache_text(a, cache).rows.len() == a.cache_view.len(),
        forall|p: int|
            0 <= p < a.cache_view.len() ==> #[trigger] cache_text(a, cache).rows[p] == entry_cells(
                cache[a.cache_view[p] as int],
            ),
        cache_text(a, cache).title == " Reverse Cache · address → name ("@ + entries + ") "@,
{
    plain_writing_is_unique(events, a.events_view.len(), 10);
    plain_writing_is_unique(entries, a.cache_view.len(), 10);
}

/// A header has the name of each column, and behind that of the sorted one, and no other, a blank
/// and an arrow, up for ascending and down for descending.
pub proof fn headers_mark_the_sorted_column(names: Seq<Seq<char>>, sort: SortState, i: int)
    requires
        0 <= i < names.len() <= usize::MAX,
    ensures
        header_cells(names, sort).len() == names.len(),
        !(sort.col is Some && sort.col->0 == i) ==> header_cells(names, sort)[i] == names[i],
        sort.col is Some && sort.col->0 == i ==> header_cells(names, sort)[i] == names[i] + seq![
            ' ',
            if sort.dir == SortDir::Asc {
                '↑'
            } else {
                '↓'
            },
        ],
{
    reveal_strlit(" ");
    reveal_strlit("↑");
    reveal_strlit("↓");
    let cell = header_cells(names, sort)[i];
    if sort.col is Some && sort.col->0 == i {
        assert(sort.col == Some(i as usize));
        assert(cell =~= names[i] + seq![
            ' ',
            if sort.dir == SortDir::Asc {
                '↑'
            } else {
                '↓'
            },
        ]);
    }
}

/// Each panel's header names its own columns and marks its own sort.
pub proof fn panels_have_their_own_headers(a: AppView, cache: Seq<ReverseEntryView>)
    ensures
        events_text(a).header == header_cells(column_names(Tab::Events), a.events_sort),
        cache_text(a, cache).header == header_cells(column_names(Tab::Cache), a.cache_sort),
        column_names(Tab::Events).len() == 6,
        column_names(Tab::Cache).len() == 6,
{
}

/// The top bar shows how many rows there are and how many of them are listed, the family, and the
/// search text in full, in quotes.
pub proof fn the_top_bar_shows_the_filters(
    a: AppView,
    shown: nat,
    total: nat,
    s: Seq<char>,
    t: Seq<char>,
)
    requires
        plainly(s, shown as int, 10),
        plainly(t, total as int, 10),
    ensures
        top_bar_text(a, shown, total) == " rows:"@ + s + "/"@ + t + "  ip:"@ + filter_label(
            a.ip_filter,
        ) + "  filter:"@ + (if a.filter.len() == 0 {
            "none"@
        } else {
            seq!['"'] + a.filter + seq!['"']
        }) + " "@,
{
    reveal_strlit("\"");
    assert("\""@ =~= seq!['"']);
    plain_writing_is_unique(s, shown, 10);
    plain_writing_is_unique(t, total, 10);
}

/// The status is that of the active panel: the rows that it lists, and those of the feed or of the
/// cache.
pub proof fn the_status_is_of_the_active_panel(a: AppView, cache: Seq<ReverseEntryView>)
    ensures
        a.active == Tab::Events ==> status_text(a, cache) == top_bar_text(
            a,
            a.events_view.len(),
            a.feed.len(),
        ),
        a.active == Tab::Cache ==> status_text(a, cache) == top_bar_text(
            a,
            a.cache_view.len(),
            cache.len(),
        ),
{
}

/// While the search text is typed, the foot shows it in full.
pub proof fn the_foot_shows_what_is_typed(a: AppView)
    requires
        a.filtering,
    ensures
        footer_text(a).len() == 9 + a.filter.len() + 36,
        footer_text(a).subrange(9, 9 + a.filter.len() as int) == a.filter,
        footer_text(a)[9 + a.filter.len() as int] == '_',
{
    reveal_strlit(" Filter: ");
    reveal_strlit("_    (Enter to apply · Esc to clear)");
    let f = footer_text(a);
    assert(f.subrange(9, 9 + a.filter.len() as int) =~= a.filter);
}

/// The text ends with `tail`.
pub open spec fn ends_with(text: Seq<char>, tail: Seq<char>) -> bool {
    text.len() >= tail.len() && text.subrange(text.len() - tail.len(), text.len() as int) == tail
}

/// Outside typing the foot ends with what went wrong, in full behind an exclamation mark, and before
/// that with the search text in full, in quotes.
pub proof fn the_foot_ends_with_search_and_error(a: AppView)
    requires
        !a.filtering,
    ensures
        ({
            let bare = footer_text(AppView { filter: Seq::empty(), status: None, ..a });
            let search = if a.filter.len() == 0 {
                Seq::empty()
            } else {
                "  filter:"@ + seq!['"'] + a.filter + seq!['"']
            };
            let error = match a.status {
                None => Seq::empty(),
                Some(err) => "    ! "@ + err,
            };
            footer_text(a) == bare + search + error
        }),
{
    reveal_strlit("\"");
    assert("\""@ =~= seq!['"']);
    let bare = footer_text(AppView { filter: Seq::empty(), status: None, ..a });
    let search = if a.filter.len() == 0 {
        Seq::empty()
    } else {
        "  filter:"@ + seq!['"'] + a.filter + seq!['"']
    };
    let error = match a.status {
        None => Seq::empty(),
        Some(err) => "    ! "@ + err,
    };
    assert(footer_text(a) =~= bare + search + error);
}

/// What the foot shows before that: whether the feed runs, the family, the active panel's sort,
/// whether payloads are written, how many entries are listed and how many events were dropped.
pub proof fn the_foot_shows_the_state(a: AppView, listed: Seq<char>, dropped: Seq<char>)
    requires
        !a.filtering,
        a.filter.len() == 0,
        a.status is None,
        plainly(listed, a.cache_view.len() as int, 10),
        plainly(dropped, a.dropped as int, 10),
    ensures
        ends_with(
            footer_text(a),
            (if a.paused {
                "PAUSED"@
            } else {
                "LIVE"@
            }) + "  ip:"@ + filter_label(a.ip_filter) + "  sort:"@ + sort_text(a) + "  payload:"@
                + (if a.payload_on {
                "on"@
            } else {
                "off"@
            }) + "  cache:"@ + listed + "  drop:"@ + dropped,
        ),
{
    plain_writing_is_unique(listed, a.cache_view.len(), 10);
    plain_writing_is_unique(dropped, a.dropped as nat, 10);
    let head =
        " [?]help [/]filter [c]clear [v]ip [s/S]sort [l]latest [Tab]panel [Space]pause [p]payload [r]refresh [q]quit    "@;
    let run = if a.paused {
        "PAUSED"@
    } else {
        "LIVE"@
    };
    let on = if a.payload_on {
        "on"@
    } else {
        "off"@
    };
    let tail = run + "  ip:"@ + filter_label(a.ip_filter) + "  sort:"@ + sort_text(a)
        + "  payload:"@ + on + "  cache:"@ + listed + "  drop:"@ + dropped;
    assert(footer_text(a) =~= head + tail);
    lemma_ends_with(head, tail);
}

proof fn lemma_ends_with(head: Seq<char>, tail: Seq<char>)
    ensures
        ends_with(head + tail, tail),
{
    let text = head + tail;
    assert(text.subrange(text.len() - tail.len(), text.len() as int) =~= tail);
}

/// A sort in short is the name of its column with an arrow up or down, or `off`.
pub proof fn sorts_in_short(a: AppView)
    ensures
        ({
            let sort = match a.active {
                Tab::Events => a.events_sort,
                Tab::Cache => a.cache_sort,
            };
            &&& sort.col is None ==> sort_text(a) == seq!['o', 'f', 'f']
            &&& sort.col is Some ==> sort_text(a) == column_name(a.active, sort.col->0 as int).push(
                if sort.dir == SortDir::Asc {
                    '↑'
                } else {
                    '↓'
                },
            )
        }),
{
    reveal_strlit("off");
    reveal_strlit("↑");
    reveal_strlit("↓");
    let sort = match a.active {
        Tab::Events => a.events_sort,
        Tab::Cache => a.cache_sort,
    };
    assert("off"@ =~= seq!['o', 'f', 'f']);
    if sort.col is Some {
        assert(sort_text(a) =~= column_name(a.active, sort.col->0 as int).push(
            if sort.dir == SortDir::Asc {
                '↑'
            } else {
                '↓'
            },
        ));
    }
}

/// The screen shows the active panel where it stands, marks its tab, gives the status as many cells
/// as it has characters, and shows the help, all its lines, exactly while that is open.
pub proof fn the_screen_shows_the_active_panel(a: AppView, cache: Seq<ReverseEntryView>)
    ensures
        ({
            let s = screen_text(a, cache);
            &&& a.active == Tab::Events ==> s.selected_tab == 0 && s.table == events_text(a)
                && s.state == a.feed_state
            &&& a.active == Tab::Cache ==> s.selected_tab == 1 && s.table == cache_text(a, cache)
                && s.state == a.cache_state
            &&& s.status == status_text(a, cache)
            &&& s.status.len() < 65536 ==> s.status_width == s.status.len()
            &&& s.footer == footer_text(a)
            &&& s.help is Some <==> a.show_help
            &&& s.help is Some ==> s.help->0 == joined(help_lines(16), "\n"@)
        }),
{
}

// The payload file.

/// A capture is written under its key in quotes, with its counts and its whole payload.
pub proof fn captures_are_written_in_full(
    entry: Entry,
    questions: Seq<char>,
    answers: Seq<char>,
)
    requires
        plainly(questions, entry.1.qdcount as int, 10),
        plainly(answers, entry.1.ancount as int, 10),
    ensures
        entry_text(entry) == "        "@ + seq!['"'] + entry.0 + seq!['"']
            + ": {\n            \"questions\": "@ + questions + ",\n            \"answers\": "@
            + answers + ",\n            \"payload\": [\n"@ + payload_text(entry.1.payload)
            + "\n            ]\n        }"@,
{
    plain_writing_is_unique(questions, entry.1.qdcount as nat, 10);
    plain_writing_is_unique(answers, entry.1.ancount as nat, 10);
    let start = "        "@ + seq!['"'];
    assert("        \""@ =~= start) by {
        reveal_strlit("        \"");
        reveal_strlit("        ");
    }
    let colon = seq!['"'] + ": {\n            \"questions\": "@;
    assert("\": {\n            \"questions\": "@ =~= colon) by {
        reveal_strlit("\": {\n            \"questions\": ");
        reveal_strlit(": {\n            \"questions\": ");
    }
    assert(entry_text(entry) =~= "        "@ + seq!['"'] + entry.0 + seq!['"']
        + ": {\n            \"questions\": "@ + questions + ",\n            \"answers\": "@ + answers
        + ",\n            \"payload\": [\n"@ + payload_text(entry.1.payload)
        + "\n            ]\n        }"@);
}

/// What stands before the captures in their file.
pub open spec fn file_start() -> Seq<char> {
    "{\n    \"payloads\": {\n"@
}

/// What stands behind the captures in their file.
pub open spec fn file_end() -> Seq<char> {
    "\n    }\n}\n"@
}

/// The file holds what is between its start and its end: nothing without captures; and one capture
/// more goes to the end of what was there, behind a comma and the end of a line.
pub proof fn the_file_grows_by_whole_captures(entries: Seq<Entry>, entry: Entry, inner: Seq<char>)
    requires
        captures_text(entries) == file_start() + inner + file_end(),
    ensures
        captures_text(Seq::empty()) == file_start() + file_end(),
        entries.len() == 0 ==> inner.len() == 0 && captures_text(entries.push(entry))
            == file_start() + entry_text(entry) + file_end(),
        entries.len() > 0 ==> captures_text(entries.push(entry)) == file_start() + (inner + ",\n"@
            + entry_text(entry)) + file_end(),
{
    let texts = entries.map_values(|e: Entry| entry_text(e));
    let more = entries.push(entry).map_values(|e: Entry| entry_text(e));
    assert(more =~= texts.push(entry_text(entry)));
    joined_push(texts, ",\n"@, entry_text(entry));
    let held = joined(texts, ",\n"@);
    assert(held =~= inner) by {
        let (w, v) = (file_start() + held + file_end(), file_start() + inner + file_end());
        assert(w == v && w.len() == v.len());
        let n = file_start().len() as int;
        assert(held =~= w.subrange(n, n + held.len()));
        assert(inner =~= v.subrange(n, n + inner.len()));
    }
    let none = Seq::<Entry>::empty();
    assert(none.map_values(|e: Entry| entry_text(e)) =~= Seq::empty());
    assert(captures_text(none) =~= file_start() + file_end());
}

/// What is written is exactly what is kept, each key once, in alphabetical order of the keys.
pub proof fn what_is_kept_is_written(entries: Seq<Entry>, captures: Map<Seq<char>, CaptureView>)
    requires
        lists(entries, captures),
    ensures
        forall|i: int|
            0 <= i < entries.len() ==> captures.contains_key((#[trigger] entries[i]).0)
                && captures[entries[i].0] == entries[i].1,
        forall|key: Seq<char>| #[trigger]
            captures.contains_key(key) ==> exists|i: int|
                0 <= i < entries.len() && (#[trigger] entries[i]).0 == key,
        forall|i: int, j: int|
            0 <= i < j < entries.len() ==> alphabetical(
                -1,
                (#[trigger] entries[i]).0,
                (#[trigger] entries[j]).0,
            ),
{
    assert forall|i: int| 0 <= i < entries.len() implies captures.contains_key(
        (#[trigger] entries[i]).0,
    ) && captures[entries[i].0] == entries[i].1 by {
        let key = entries[i].0;
        assert(stands_at(entries, key, i));
        let k = choose|k: int| stands_at(entries, key, k);
        crate::order::text_sign_antisymmetric(key, key);
        if k < i {
            assert(text_sign(entries[k].0, entries[i].0) < 0);
        }
        if i < k {
            assert(text_sign(entries[i].0, entries[k].0) < 0);
        }
        assert(map_of(entries)[key] == entries[k].1);
    }
    assert forall|key: Seq<char>| #[trigger] captures.contains_key(key) implies exists|i: int|
        0 <= i < entries.len() && (#[trigger] entries[i]).0 == key by {
        let i = choose|i: int| stands_at(entries, key, i);
        assert(entries[i].0 == key);
    }
    assert forall|i: int, j: int| 0 <= i < j < entries.len() implies alphabetical(
        -1,
        (#[trigger] entries[i]).0,
        (#[trigger] entries[j]).0,
    ) by {
        assert(text_sign(entries[i].0, entries[j].0) < 0);
        texts_are_alphabetical(entries[i].0, entries[j].0);
    }
}

/// A capture is logged with its key, its counts and the length that its record gives.
pub proof fn captures_are_logged(
    r: CaptureRecordView,
    tx: Seq<char>,
    cpu: Seq<char>,
    questions: Seq<char>,
    answers: Seq<char>,
    len: Seq<char>,
)
    requires
        plainly(tx, r.txid as int, 10),
        plainly(cpu, r.cpu as int, 10),
        plainly(questions, r.capture.qdcount as int, 10),
        plainly(answers, r.capture.ancount as int, 10),
        plainly(len, r.pay_len as int, 10),
    ensures
        capture_key(r.txid, r.cpu) == tx + seq!['_'] + cpu,
        capture_line(r) == "captured "@ + (tx + seq!['_'] + cpu) + " (q="@ + questions + " a="@
            + answers + " "@ + len + " bytes)"@,
{
    reveal_strlit("_");
    assert("_"@ =~= seq!['_']);
    plain_writing_is_unique(tx, r.txid as nat, 10);
    plain_writing_is_unique(cpu, r.cpu as nat, 10);
    plain_writing_is_unique(questions, r.capture.qdcount as nat, 10);
    plain_writing_is_unique(answers, r.capture.ancount as nat, 10);
    plain_writing_is_unique(len, r.pay_len as nat, 10);
}

/// A byte is written as `0x` and two small hexadecimal digits, which give it back.
pub proof fn bytes_are_hexadecimal(b: u8)
    ensures
        byte_text(b).len() == 4,
        byte_text(b)[0] == '0',
        byte_text(b)[1] == 'x',
        are_digits(byte_text(b).subrange(2, 4)),
        number_of(byte_text(b).subrange(2, 4), 16) == b,
{
    let d = byte_text(b).subrange(2, 4);
    reveal_with_fuel(number_of, 3);
    assert(d =~= seq![byte_text(b)[2], byte_text(b)[3]]);
    assert(d.drop_last() =~= seq![byte_text(b)[2]]);
    assert(d.drop_last().drop_last() =~= Seq::<char>::empty());
}

/// Twelve blanks.
pub open spec fn twelve_blanks() -> Seq<char> {
    Seq::new(12, |i: int| ' ')
}

/// The first line starts with twelve blanks, and after every twelfth byte a comma ends the line and
/// the next one starts so; between other bytes stand a comma and a blank.
pub proof fn twelve_bytes_stand_on_a_line(payload: Seq<u8>, b: u8)
    ensures
        payload_text(Seq::empty()).len() == 0,
        payload.len() == 0 ==> payload_text(payload.push(b)) == twelve_blanks() + byte_text(b),
        payload.len() > 0 && payload.len() % 12 == 0 ==> payload_text(payload.push(b))
            == payload_text(payload) + (seq![',', '\n'] + twelve_blanks()) + byte_text(b),
        payload.len() % 12 != 0 ==> payload_text(payload.push(b)) == payload_text(payload) + seq![
            ',',
            ' ',
        ] + byte_text(b),
{
    payload_text_push(payload, b);
    reveal_strlit("            ");
    reveal_strlit(",\n");
    reveal_strlit(", ");
    assert("            "@ =~= twelve_blanks());
    assert(",\n"@ =~= seq![',', '\n']);
    assert(", "@ =~= seq![',', ' ']);
    let none = Seq::<u8>::empty();
    assert(payload_text(none) =~= Seq::<char>::empty());
    if payload.len() == 0 {
        assert(payload =~= none);
        assert(payload_text(payload.push(b)) =~= twelve_blanks() + byte_text(b));
    }
}

// The screen's parts.

/// The help is 64 cells wide and 18 high where the screen is, and else as large as the screen; the
/// margins around it differ by a cell at most.
pub proof fn the_help_is_in_the_middle(help: Rect, area: Rect)
    requires
        is_help_area(help, area),
    ensures
        area.width >= 64 ==> help.width == 64,
        area.width < 64 ==> help.width == area.width,
        area.height >= 18 ==> help.height == 18,
        area.height < 18 ==> help.height == area.height,
        ({
            let (left, above) = (help.x - area.x, help.y - area.y);
            let (right, below) = (
                area.width - help.width - left,
                area.height - help.height - above,
            );
            &&& 0 <= left <= right <= left + 1
            &&& 0 <= above <= below <= above + 1
        }),
{
}

/// Columns of fixed width have room for what stands in them: eight characters of a time, the two
/// types, the longest address, and the numbers; the name takes the rest, twenty cells at least.
pub proof fn columns_have_room(tab: Tab)
    ensures
        column_sizes(tab).len() == 6,
        column_sizes(Tab::Events) == seq![
            Size::Length(10),
            Size::Min(20),
            Size::Length(6),
            Size::Length(39),
            Size::Length(8),
            Size::Length(14),
        ],
        column_sizes(Tab::Cache) == seq![
            Size::Length(10),
            Size::Length(39),
            Size::Min(20),
            Size::Length(8),
            Size::Length(10),
            Size::Length(10),
        ],
{
}

/// The columns of both panels, by name.
pub proof fn columns_are_named()
    ensures
        column_name(Tab::Events, 0) == "Time"@,
        column_name(Tab::Events, 1) == "Name"@,
        column_name(Tab::Events, 2) == "Type"@,
        column_name(Tab::Events, 3) == "Address"@,
        column_name(Tab::Events, 4) == "TTL"@,
        column_name(Tab::Events, 5) == "TxID/Ans"@,
        column_name(Tab::Cache, 0) == "Time"@,
        column_name(Tab::Cache, 1) == "Address"@,
        column_name(Tab::Cache, 2) == "Name"@,
        column_name(Tab::Cache, 3) == "TTL"@,
        column_name(Tab::Cache, 4) == "Age"@,
        column_name(Tab::Cache, 5) == "Left"@,
{
}

/// The help names every key and what it does.
pub proof fn the_help_names_every_key()
    ensures
        HELP_LINES[0]@ == ""@,
        HELP_LINES[1]@ == "  ?, h        Toggle this help"@,
        HELP_LINES[2]@ == "  /           Filter by name / address (Enter apply · Esc clear)"@,
        HELP_LINES[3]@ == "  c           Clear the active filter"@,
        HELP_LINES[4]@ == "  v           Cycle IP family: all → v4 → v6"@,
        HELP_LINES[5]@ == "  s / S        Cycle sort column / toggle direction"@,
        HELP_LINES[6]@ == "  l            Latest: events newest-first (Time ↓)"@,
        HELP_LINES[7]@ == "  Tab          Switch panel (Events / Cache)"@,
        HELP_LINES[8]@ == "  Space        Pause / resume the live feed"@,
        HELP_LINES[9]@ == "  p            Toggle writing payloads to payloads.json"@,
        HELP_LINES[10]@ == "  r            Refresh the reverse cache now"@,
        HELP_LINES[11]@ == "  ↑ ↓          Move selection (PgUp/PgDn by 10)"@,
        HELP_LINES[12]@ == "  g / G        Jump to top / bottom"@,
        HELP_LINES[13]@ == "  q, Esc       Quit"@,
        HELP_LINES[14]@ == ""@,
        HELP_LINES[15]@ == "  Press any key to close"@,
        forall|n: nat, i: int|
            0 <= i < n <= 16 ==> #[trigger] help_lines(n)[i] == HELP_LINES[i]@,
        forall|n: nat| #[trigger] help_lines(n).len() == n,
{
}

/// The families, by name.
pub proof fn families_are_named()
    ensures
        filter_label(IpFilter::Both) == "all"@,
        filter_label(IpFilter::V4) == "v4"@,
        filter_label(IpFilter::V6) == "v6"@,
{
}

/// The limits that the program keeps to.
pub proof fn limits()
    ensures
        FEED_CAP == 1000,
        COLUMNS == 6,
        BYTES_PER_LINE == 12,
        CAPTURE_HEADER == 10,
        EVENT_SIZE == 292,
        REVERSE_KEY_SIZE == 20,
        REVERSE_VALUE_SIZE == 272,
        DNS_MAX_NAME_LEN == 255,
        CACHE_REFRESH_NS == 5_000_000_000,
        FEED_CHAN_CAP == 4096,
        HELP_HEIGHT == 16,
        HELP_WIDTH == 64,
{
}

/// A capture record counts while payloads are written, if its ten bytes of header are there.
pub proof fn captures_count_while_switched_on(on: bool, data: Seq<u8>)
    ensures
        taken_in(on, data) <==> on && data.len() >= 10,
{
}

} // verus!
