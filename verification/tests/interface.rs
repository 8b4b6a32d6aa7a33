use ebpf_dns_cache::app::{App, FEED_CAP};
use ebpf_dns_cache::event::read_dns_event;
use ebpf_dns_cache::feed::FeedEvent;
use ebpf_dns_cache::filter::{IpFilter, SortDir, SortState, Tab};
use ebpf_dns_cache::keys::{KeyCode, KeyEvent, Signals};
use ebpf_dns_cache::reverse::CACHE_COLS;

/// The raw bytes of an event for an IPv4 A record.
fn a_record_bytes(name: &str, ip: [u8; 4], ttl: u32, txid: u16, answer_idx: u16) -> Vec<u8> {
    let mut bytes = Vec::new();
    bytes.extend_from_slice(&1u16.to_ne_bytes());
    bytes.extend_from_slice(&(name.len() as u16).to_ne_bytes());
    bytes.extend_from_slice(&txid.to_ne_bytes());
    bytes.extend_from_slice(&answer_idx.to_ne_bytes());
    bytes.extend_from_slice(&[0u8; 4]);
    bytes.extend_from_slice(&ip);
    bytes.extend_from_slice(&[0u8; 16]);
    bytes.extend_from_slice(&ttl.to_ne_bytes());
    bytes.extend_from_slice(name.as_bytes());
    bytes.resize(292, 0);
    bytes
}

#[test]
fn decodes_a_record_into_feed_event() {
    let bytes = a_record_bytes("example.com", [93, 184, 216, 34], 300, 0x1234, 2);
    let ev = read_dns_event(&bytes).expect("decoded event");
    let fe = FeedEvent::from(&ev, "12:34:56".to_string());
    assert_eq!(fe.name, "example.com");
    assert_eq!(fe.record_type, "A");
    assert_eq!(fe.addr, "93.184.216.34");
    assert_eq!(fe.ttl, 300);
    assert_eq!(fe.txid, 0x1234);
    assert_eq!(fe.answer_idx, 2);
    assert_eq!(fe.time, "12:34:56");
    assert_eq!(fe.seq, 0);
}

#[test]
fn short_buffer_decodes_to_none() {
    assert!(read_dns_event(&[0u8; 4]).is_none());
}

/// Push a feed event with the given name/address (other fields filled in).
fn push(app: &mut App, name: &str, addr: &str) {
    app.push_event(FeedEvent {
        time: "00:00:00".to_string(),
        seq: 0,
        name: name.to_string(),
        record_type: "A",
        addr: addr.to_string(),
        ttl: 60,
        txid: 0,
        answer_idx: 0,
    });
}

#[test]
fn feed_respects_cap_and_follows_newest() {
    let mut app = App::new();
    for i in 0..(FEED_CAP + 50) {
        push(&mut app, &format!("h{i}.example.com"), "1.2.3.4");
    }
    assert_eq!(app.feed.len(), FEED_CAP, "feed capped at FEED_CAP");
    app.rebuild_views(&[]);
    app.sync_selection();
    assert_eq!(
        app.feed_state.selected(),
        Some(0),
        "live feed follows the newest event at the top"
    );
    // The oldest events are gone, and the top row is the newest.
    assert_eq!(app.feed[0].name, "h50.example.com");
    assert_eq!(app.feed[0].seq, 50);
    assert_eq!(app.events_view[0], FEED_CAP - 1);
}

#[test]
fn scrolling_feed_pauses_follow() {
    let mut app = App::new();
    for i in 0..10 {
        push(&mut app, &format!("h{i}"), "1.2.3.4");
    }
    app.rebuild_views(&[]);
    app.sync_selection();
    assert_eq!(app.feed_state.selected(), Some(0));
    app.scroll(3);
    assert!(app.paused, "scrolling the feed pauses follow");
    assert_eq!(app.feed_state.selected(), Some(3));
    // Once paused, sync_selection must not snap back to the newest row.
    app.rebuild_views(&[]);
    app.sync_selection();
    assert_eq!(app.feed_state.selected(), Some(3));
}

#[test]
fn filter_narrows_feed_rows() {
    let mut app = App::new();
    push(&mut app, "api.example.com", "1.1.1.1");
    push(&mut app, "cdn.test.net", "2.2.2.2");
    push(&mut app, "mail.example.com", "3.3.3.3");

    app.filter = "EXAMPLE".to_string(); // case-insensitive
    app.rebuild_views(&[]);
    assert_eq!(app.events_view, vec![2, 0], "only example.com rows match");

    // A filter against the address field also matches.
    app.filter = "2.2.2.2".to_string();
    app.rebuild_views(&[]);
    assert_eq!(app.events_view, vec![1]);

    // Empty filter shows everything again (newest first).
    app.filter.clear();
    app.rebuild_views(&[]);
    assert_eq!(app.events_view, vec![2, 1, 0]);
}

#[test]
fn ip_filter_narrows_by_family() {
    let mut app = App::new();
    push(&mut app, "v4.example.com", "93.184.216.34");
    push(&mut app, "v6.example.com", "2606:2800:220:1:248:1893:25c8:1946");
    push(&mut app, "also4.example.com", "1.2.3.4");

    // Both families by default (newest first).
    app.rebuild_views(&[]);
    assert_eq!(app.events_view, vec![2, 1, 0]);

    // v4 only.
    app.ip_filter = IpFilter::V4;
    app.rebuild_views(&[]);
    assert_eq!(app.events_view, vec![2, 0]);

    // v6 only.
    app.ip_filter = IpFilter::V6;
    app.rebuild_views(&[]);
    assert_eq!(app.events_view, vec![1]);

    // The toggle cycles Both → v4 → v6 → Both.
    assert_eq!(IpFilter::Both.next(), IpFilter::V4);
    assert_eq!(IpFilter::V4.next(), IpFilter::V6);
    assert_eq!(IpFilter::V6.next(), IpFilter::Both);
}

#[test]
fn sorting_reorders_and_disables_follow() {
    let mut app = App::new();
    push(&mut app, "ccc", "1.1.1.1");
    push(&mut app, "aaa", "2.2.2.2");
    push(&mut app, "bbb", "3.3.3.3");

    // Sort by Name (column 1) ascending.
    app.events_sort = SortState {
        col: Some(1),
        dir: SortDir::Asc,
    };
    app.rebuild_views(&[]);
    assert_eq!(app.events_view, vec![1, 2, 0], "aaa, bbb, ccc");
    assert!(!app.events_follow(), "a non-default sort disables follow");

    // Toggle to descending.
    app.toggle_sort_dir();
    app.rebuild_views(&[]);
    assert_eq!(app.events_view, vec![0, 2, 1], "ccc, bbb, aaa");
}

#[test]
fn default_view_is_latest_first_and_l_resets() {
    let mut app = App::new();
    // The feed defaults to the latest-first view (Time ↓).
    assert!(app.is_latest_view());
    assert_eq!(app.events_sort.col, Some(0));
    assert_eq!(app.events_sort.dir, SortDir::Desc);

    push(&mut app, "first", "1.1.1.1");
    push(&mut app, "second", "2.2.2.2");
    push(&mut app, "third", "3.3.3.3");
    app.rebuild_views(&[]);
    assert_eq!(app.events_view, vec![2, 1, 0], "newest event on top");

    // Move away: another panel, a different sort, paused. `l` restores the
    // latest-first events view.
    app.active = Tab::Cache;
    app.events_sort = SortState {
        col: Some(1),
        dir: SortDir::Asc,
    };
    app.paused = true;

    app.reset_latest();
    assert_eq!(app.active, Tab::Events);
    assert!(app.is_latest_view());
    assert!(!app.paused, "l resumes the live feed");
    app.rebuild_views(&[]);
    assert_eq!(app.events_view, vec![2, 1, 0]);
}

#[test]
fn sort_cycles_through_columns_and_off() {
    let mut app = App::new();
    assert_eq!(app.cache_sort.col, None);
    app.active = Tab::Cache;
    for expected in 0..CACHE_COLS.len() {
        app.cycle_sort();
        assert_eq!(app.cache_sort.col, Some(expected));
    }
    app.cycle_sort();
    assert_eq!(app.cache_sort.col, None, "wraps back to natural order");
}

fn no_signals() -> Signals {
    Signals {
        stop: false,
        refresh: false,
        payload: false,
    }
}

fn key(code: KeyCode) -> KeyEvent {
    KeyEvent {
        code,
        ctrl: false,
        pressed: true,
    }
}

#[test]
fn filter_typing_consumes_keys() {
    let mut signals = no_signals();
    let mut app = App::new();

    app.handle_key(key(KeyCode::Char('/')), &mut signals);
    assert!(app.filtering);
    // 'q' is typed into the filter, not treated as quit.
    app.handle_key(key(KeyCode::Char('q')), &mut signals);
    app.handle_key(key(KeyCode::Char('z')), &mut signals);
    assert_eq!(app.filter, "qz");
    assert!(!signals.stop, "typing must not quit");

    // Enter applies and exits the input; Esc would clear it.
    app.handle_key(key(KeyCode::Enter), &mut signals);
    assert!(!app.filtering);
    assert_eq!(app.filter, "qz");

    app.handle_key(key(KeyCode::Char('q')), &mut signals);
    assert!(signals.stop, "q quits in normal mode");
}

#[test]
fn p_toggles_payload_flag() {
    let mut signals = no_signals();
    let mut app = App::new();

    app.handle_key(key(KeyCode::Char('p')), &mut signals);
    assert!(signals.payload, "p turns payload writing on");
    assert!(app.payload_on);

    app.handle_key(key(KeyCode::Char('p')), &mut signals);
    assert!(!signals.payload, "p toggles it back off");
    assert!(!app.payload_on);

    // Space still pauses without touching the payload flag.
    app.handle_key(key(KeyCode::Char(' ')), &mut signals);
    assert!(app.paused);
    assert!(!signals.payload);
}

#[test]
fn escape_clears_the_search_and_backspace_takes_one_back() {
    let mut signals = no_signals();
    let mut app = App::new();
    app.handle_key(key(KeyCode::Char('/')), &mut signals);
    app.handle_key(key(KeyCode::Char('a')), &mut signals);
    app.handle_key(key(KeyCode::Char('ß')), &mut signals);
    app.handle_key(key(KeyCode::Backspace), &mut signals);
    assert_eq!(app.filter, "a");
    app.handle_key(key(KeyCode::Tab), &mut signals);
    assert_eq!(app.active, Tab::Events, "other keys do nothing while typing");
    app.handle_key(key(KeyCode::Esc), &mut signals);
    assert_eq!(app.filter, "");
    assert!(!app.filtering);
    assert!(!signals.stop);
    // Nothing to take back from an empty search text.
    app.handle_key(key(KeyCode::Char('/')), &mut signals);
    app.handle_key(key(KeyCode::Backspace), &mut signals);
    assert_eq!(app.filter, "");
    assert!(app.filtering);
}

#[test]
fn control_c_quits_even_while_typing() {
    let mut signals = no_signals();
    let mut app = App::new();
    app.filtering = true;
    let ctrl_c = KeyEvent {
        code: KeyCode::Char('c'),
        ctrl: true,
        pressed: true,
    };
    app.handle_key(ctrl_c, &mut signals);
    assert!(signals.stop);
    assert!(app.filtering);
    assert_eq!(app.filter, "");
    // With control held, other letters are keys like any other.
    let mut signals = no_signals();
    app.handle_key(
        KeyEvent {
            code: KeyCode::Char('x'),
            ctrl: true,
            pressed: true,
        },
        &mut signals,
    );
    assert_eq!(app.filter, "x");
    assert!(!signals.stop);
}

#[test]
fn any_key_closes_the_help_and_does_nothing_else() {
    let mut signals = no_signals();
    let mut app = App::new();
    app.handle_key(key(KeyCode::Char('?')), &mut signals);
    assert!(app.show_help);
    app.handle_key(key(KeyCode::Char('q')), &mut signals);
    assert!(!app.show_help);
    assert!(!signals.stop);
    app.handle_key(key(KeyCode::Char('h')), &mut signals);
    assert!(app.show_help);
}

#[test]
fn keys_do_what_the_help_says() {
    let mut signals = no_signals();
    let mut app = App::new();
    for i in 0..30 {
        push(&mut app, &format!("h{i}"), "1.2.3.4");
    }
    app.rebuild_views(&[]);
    app.sync_selection();
    app.handle_key(key(KeyCode::Down), &mut signals);
    assert_eq!(app.feed_state.selected(), Some(1));
    app.handle_key(key(KeyCode::PageDown), &mut signals);
    assert_eq!(app.feed_state.selected(), Some(11));
    app.handle_key(key(KeyCode::Up), &mut signals);
    assert_eq!(app.feed_state.selected(), Some(10));
    app.handle_key(key(KeyCode::PageUp), &mut signals);
    assert_eq!(app.feed_state.selected(), Some(0));
    app.handle_key(key(KeyCode::PageUp), &mut signals);
    assert_eq!(app.feed_state.selected(), Some(0));
    app.handle_key(key(KeyCode::Char('G')), &mut signals);
    assert_eq!(app.feed_state.selected(), Some(29));
    assert!(app.paused);
    app.handle_key(key(KeyCode::PageDown), &mut signals);
    assert_eq!(app.feed_state.selected(), Some(29));
    app.handle_key(key(KeyCode::Char('g')), &mut signals);
    assert_eq!(app.feed_state.selected(), Some(0));
    assert!(!app.paused, "the top of the latest view is live");

    app.handle_key(key(KeyCode::Char('v')), &mut signals);
    assert_eq!(app.ip_filter, IpFilter::V4);
    app.handle_key(key(KeyCode::Char('s')), &mut signals);
    assert_eq!(app.events_sort.col, Some(1));
    app.handle_key(key(KeyCode::Char('S')), &mut signals);
    assert_eq!(app.events_sort.dir, SortDir::Asc);
    app.handle_key(key(KeyCode::Tab), &mut signals);
    assert_eq!(app.active, Tab::Cache);
    app.handle_key(key(KeyCode::Char('l')), &mut signals);
    assert_eq!(app.active, Tab::Events);
    assert!(app.is_latest_view());
    app.filter = "x".to_string();
    app.handle_key(key(KeyCode::Char('c')), &mut signals);
    assert_eq!(app.filter, "");
    app.handle_key(key(KeyCode::Char('r')), &mut signals);
    assert!(signals.refresh);
    app.handle_key(key(KeyCode::Other), &mut signals);
    assert!(!signals.stop);
    app.handle_key(key(KeyCode::Esc), &mut signals);
    assert!(signals.stop);
}

#[test]
fn only_presses_count() {
    let mut signals = no_signals();
    let mut app = App::new();
    let mut release = key(KeyCode::Char('q'));
    release.pressed = false;
    app.on_key_event(release, &mut signals);
    assert!(!signals.stop);
    app.on_key_event(key(KeyCode::Char('q')), &mut signals);
    assert!(signals.stop);
}

#[test]
fn empty_panels_select_nothing() {
    let mut app = App::new();
    app.feed_state.select(Some(4));
    app.rebuild_views(&[]);
    app.sync_selection();
    assert_eq!(app.feed_state.selected(), None);
    assert_eq!(app.cache_state.selected(), None);
    app.scroll(1);
    assert!(app.paused);
    assert_eq!(app.feed_state.selected(), None);
    app.scroll_to_bottom();
    assert_eq!(app.feed_state.selected(), None);
}

#[test]
fn equal_rows_keep_their_order_and_turn_with_it() {
    let mut app = App::new();
    push(&mut app, "Bb", "1.1.1.1");
    push(&mut app, "aa", "2.2.2.2");
    push(&mut app, "bB", "3.3.3.3");
    app.events_sort = SortState {
        col: Some(1),
        dir: SortDir::Asc,
    };
    app.rebuild_views(&[]);
    assert_eq!(app.events_view, vec![1, 0, 2]);
    app.events_sort.dir = SortDir::Desc;
    app.rebuild_views(&[]);
    assert_eq!(app.events_view, vec![2, 0, 1]);
    app.events_sort.col = None;
    app.rebuild_views(&[]);
    assert_eq!(app.events_view, vec![0, 1, 2]);
}

#[test]
fn scroll_holds_still_while_events_arrive() {
    let mut app = App::new();
    for i in 0..5 {
        push(&mut app, &format!("h{i}"), "1.2.3.4");
    }
    app.rebuild_views(&[]);
    app.sync_selection();
    app.scroll(2);
    push(&mut app, "late", "1.2.3.4");
    app.rebuild_views(&[]);
    app.sync_selection();
    assert_eq!(app.feed_state.selected(), Some(2));
    // Narrowed to fewer rows, the selection stays inside them.
    app.filter = "late".to_string();
    app.rebuild_views(&[]);
    app.sync_selection();
    assert_eq!(app.feed_state.selected(), Some(0));
}

#[test]
fn scrolling_the_cache_does_not_pause_the_feed() {
    let mut app = App::new();
    app.active = Tab::Cache;
    app.scroll(5);
    assert!(!app.paused);
    app.scroll_to_top();
    assert_eq!(app.cache_state.selected(), Some(0));
}
