use ebpf_dns_cache::app::App;
use ebpf_dns_cache::areas::{
    arrange, centered_rect, column_widths, place, screen_rows, top_bar_columns, Rect, Size,
};
use ebpf_dns_cache::feed::{FeedEvent, EVENTS_COLS};
use ebpf_dns_cache::filter::{SortDir, SortState, Tab};
use ebpf_dns_cache::reverse::ReverseEntry;
use ebpf_dns_cache::screen::{header_row, help_text};
use ebpf_dns_cache::table::TableState;

fn push(app: &mut App, name: &str, addr: &str, ttl: u32) {
    app.push_event(FeedEvent {
        time: "08:09:10".to_string(),
        seq: 0,
        name: name.to_string(),
        record_type: "A",
        addr: addr.to_string(),
        ttl,
        txid: 4660,
        answer_idx: 3,
    });
}

fn entry(name: &str, addr: &str, ttl: u32, age_secs: u64) -> ReverseEntry {
    ReverseEntry {
        inserted: "07:00:00".to_string(),
        addr: addr.to_string(),
        name: name.to_string(),
        ttl,
        age_secs,
    }
}

#[test]
fn the_events_panel_lists_the_newest_first() {
    let mut app = App::new();
    push(&mut app, "old.example", "1.1.1.1", 60);
    push(&mut app, "new.example", "2.2.2.2", 300);
    let screen = app.frame(7, None, true, &[]);
    assert_eq!(screen.selected_tab, 0);
    assert_eq!(screen.table.title, " DNS Events (2) ");
    assert_eq!(
        screen.table.header,
        vec!["Time ↓", "Name", "Type", "Address", "TTL", "TxID/Ans"]
    );
    assert_eq!(
        screen.table.rows,
        vec![
            vec!["08:09:10", "new.example", "A", "2.2.2.2", "300s", "4660/3"],
            vec!["08:09:10", "old.example", "A", "1.1.1.1", "60s", "4660/3"],
        ]
    );
    assert_eq!(screen.state.selected, Some(0));
    assert_eq!(screen.status, " rows:2/2  ip:all  filter:none ");
    assert_eq!(screen.status_width, 31);
    assert_eq!(
        screen.footer,
        " [?]help [/]filter [c]clear [v]ip [s/S]sort [l]latest [Tab]panel [Space]pause [p]payload [r]refresh [q]quit    LIVE  ip:all  sort:Time↓  payload:on  cache:0  drop:7"
    );
    assert!(screen.help.is_none());
}

#[test]
fn the_cache_panel_shows_what_is_left() {
    let mut app = App::new();
    app.active = Tab::Cache;
    app.filter = "B".to_string();
    app.paused = true;
    app.cache_sort = SortState {
        col: Some(5),
        dir: SortDir::Asc,
    };
    let cache = [
        entry("b.example", "1.1.1.1", 100, 10),
        entry("a.example", "2.2.2.2", 100, 10),
        entry("bb.example", "3.3.3.3", 100, 200),
    ];
    let screen = app.frame(0, Some("attach failed: busy".to_string()), false, &cache);
    assert_eq!(screen.selected_tab, 1);
    assert_eq!(screen.table.title, " Reverse Cache · address → name (2) ");
    assert_eq!(
        screen.table.header,
        vec!["Time", "Address", "Name", "TTL", "Age", "Left ↑"]
    );
    assert_eq!(
        screen.table.rows,
        vec![
            vec!["07:00:00", "3.3.3.3", "bb.example", "100s", "200s", "0s"],
            vec!["07:00:00", "1.1.1.1", "b.example", "100s", "10s", "90s"],
        ]
    );
    assert_eq!(screen.status, " rows:2/3  ip:all  filter:\"B\" ");
    assert_eq!(
        screen.footer,
        " [?]help [/]filter [c]clear [v]ip [s/S]sort [l]latest [Tab]panel [Space]pause [p]payload [r]refresh [q]quit    PAUSED  ip:all  sort:Left↑  payload:off  cache:2  drop:0  filter:\"B\"    ! attach failed: busy"
    );
}

#[test]
fn the_foot_shows_what_is_typed() {
    let mut app = App::new();
    app.filtering = true;
    app.filter = "exa".to_string();
    assert_eq!(app.footer_line(), " Filter: exa_    (Enter to apply · Esc to clear)");
    app.filtering = false;
    app.cache_sort = SortState::default();
    app.active = Tab::Cache;
    assert_eq!(app.sort_label(), "off");
}

#[test]
fn wide_status_lines_are_counted_in_characters() {
    let mut app = App::new();
    app.filter = "ü".repeat(70000);
    let screen = app.frame(0, None, false, &[]);
    // 29 characters stand around the text, and the width starts over at 65536.
    assert_eq!(screen.status.chars().count(), 70029);
    assert_eq!(screen.status_width, 4493);
}

#[test]
fn headers_mark_the_sorted_column() {
    let unsorted = SortState::default();
    assert_eq!(header_row(&EVENTS_COLS, unsorted), EVENTS_COLS.to_vec());
    let by_last = SortState {
        col: Some(1),
        dir: SortDir::Desc,
    };
    assert_eq!(header_row(&["a", "b"], by_last), vec!["a", "b ↓"]);
}

#[test]
fn the_help_opens() {
    let mut app = App::new();
    app.show_help = true;
    let screen = app.frame(0, None, false, &[]);
    let help = screen.help.unwrap();
    assert_eq!(help, help_text());
    assert_eq!(help.lines().count(), 16);
    assert!(help.starts_with("\n  ?, h        Toggle this help\n"));
    assert!(help.ends_with("\n\n  Press any key to close"));
}

#[test]
fn drawing_gives_the_table_position_back() {
    let mut app = App::new();
    let drawn = TableState {
        offset: 4,
        selected: Some(6),
    };
    app.set_table_state(drawn);
    assert_eq!(app.feed_state, drawn);
    app.active = Tab::Cache;
    app.set_table_state(TableState::default());
    assert_eq!(app.feed_state, drawn);
    assert_eq!(app.cache_state, TableState::default());
    app.feed_state.select(None);
    assert_eq!(app.feed_state.offset, 0);
}

fn rect(x: u16, y: u16, width: u16, height: u16) -> Rect {
    Rect {
        x,
        y,
        width,
        height,
    }
}

#[test]
fn rectangles_are_centered_and_cut() {
    assert_eq!(centered_rect(64, 18, rect(0, 0, 100, 40)), rect(18, 11, 64, 18));
    assert_eq!(centered_rect(64, 18, rect(5, 7, 65, 19)), rect(5, 7, 64, 18));
    assert_eq!(centered_rect(64, 18, rect(1, 2, 10, 4)), rect(1, 2, 10, 4));
    assert_eq!(centered_rect(0, 0, rect(0, 0, 3, 3)), rect(1, 1, 0, 0));
}

#[test]
fn the_screen_is_split_into_its_parts() {
    let a = place(rect(0, 0, 100, 40), 30, true);
    assert_eq!(a.tabs, rect(0, 0, 70, 1));
    assert_eq!(a.status, rect(70, 0, 30, 1));
    assert_eq!(a.panel, rect(0, 1, 100, 38));
    assert_eq!(a.footer, rect(0, 39, 100, 1));
    assert_eq!(a.help, Some(rect(18, 11, 64, 18)));
    assert_eq!(place(rect(0, 0, 100, 40), 30, false).help, None);
}

#[test]
fn parts_are_arranged_as_they_were_split() {
    let rows = [rect(0, 0, 9, 1), rect(0, 1, 9, 2), rect(0, 3, 9, 1)];
    let top = [rect(0, 0, 4, 1), rect(4, 0, 5, 1)];
    let a = arrange(rect(0, 0, 9, 4), &rows, &top, true);
    assert_eq!((a.tabs, a.status), (top[0], top[1]));
    assert_eq!((a.panel, a.footer), (rows[1], rows[2]));
    assert_eq!(a.help, Some(rect(0, 0, 9, 4)));
    assert_eq!(screen_rows(), vec![Size::Length(1), Size::Min(0), Size::Length(1)]);
    assert_eq!(top_bar_columns(12), vec![Size::Min(0), Size::Length(12)]);
}

#[test]
fn panels_have_six_columns_each() {
    let events = column_widths(Tab::Events);
    assert_eq!(events.len(), 6);
    assert_eq!(events[3], Size::Length(39));
    assert_eq!(events[1], Size::Min(20));
    let cache = column_widths(Tab::Cache);
    assert_eq!(cache.len(), 6);
    assert_eq!(cache[1], Size::Length(39));
    assert_eq!(cache[2], Size::Min(20));
}

#[test]
fn every_screen_is_split_end_to_end() {
    for height in 2..60u16 {
        for width in [0, 1, 5, 30, 31, 79, 80, 200] {
            for status in [0, 1, 30, 31, 32, 500] {
                let taken = status.min(width);
                let a = place(rect(3, 7, width, height), status, false);
                assert_eq!(a.tabs, rect(3, 7, width - taken, 1));
                assert_eq!(a.status, rect(3 + width - taken, 7, taken, 1));
                assert_eq!(a.panel, rect(3, 8, width, height - 2));
                assert_eq!(a.footer, rect(3, 7 + height - 1, width, 1));
            }
        }
    }
    let a = place(rect(0, 0, 65535, 65535), 4493, false);
    assert_eq!(a.status, rect(65535 - 4493, 0, 4493, 1));
    assert_eq!(a.panel, rect(0, 1, 65535, 65533));
    assert_eq!(a.footer, rect(0, 65534, 65535, 1));
}

#[test]
fn parts_stay_on_small_and_far_screens() {
    for area in [
        rect(0, 0, 0, 0),
        rect(2, 3, 40, 0),
        rect(2, 3, 40, 1),
        rect(65000, 65530, 1000, 20),
        rect(65535, 65535, 65535, 65535),
    ] {
        let a = place(area, 30, false);
        for part in [a.tabs, a.status, a.panel, a.footer] {
            assert!(part.x >= area.x && part.y >= area.y);
            assert!(part.x as u32 + part.width as u32 <= area.x as u32 + area.width as u32);
            assert!(part.y as u32 + part.height as u32 <= area.y as u32 + area.height as u32);
        }
        assert_eq!((a.panel.x, a.panel.width), (area.x, area.width));
        assert_eq!((a.footer.x, a.footer.width), (area.x, area.width));
    }
}

#[test]
fn only_the_sort_that_is_shown_matters() {
    let mut app = App::new();
    app.cache_sort.col = Some(99);
    assert_eq!(app.sort_label(), "Time↓");
    app.active = Tab::Cache;
    app.filtering = true;
    assert_eq!(app.footer_line(), " Filter: _    (Enter to apply · Esc to clear)");
}

#[test]
fn a_screen_of_one_row_has_no_panel() {
    for width in [0, 10, 30, 80] {
        let a = place(rect(4, 9, width, 1), 30, false);
        assert_eq!(a.tabs.y, 9);
        assert_eq!(a.panel, rect(4, 9 + a.tabs.height, width, 0));
        assert_eq!(a.footer.y, a.panel.y);
        assert_eq!(a.tabs.height + a.footer.height, 1);
        assert_eq!(a.status.height, a.tabs.height);
        let none = place(rect(4, 9, width, 0), 30, false);
        assert_eq!((none.tabs.height, none.panel.height, none.footer.height), (0, 0, 0));
    }
}

#[test]
fn the_hidden_panel_is_not_read() {
    let mut app = App::new();
    app.cache_view = vec![7];
    assert_eq!(app.screen(&[]).table.rows.len(), 0);
    app.active = Tab::Cache;
    app.cache_view = vec![0];
    app.events_view = vec![7];
    assert_eq!(app.screen(&[entry("a", "1.1.1.1", 1, 0)]).table.rows.len(), 1);
}
