use ebpf_dns_cache::args::{attached_line, parse_args, ArgsError};
use ebpf_dns_cache::reverse::ReverseEntry;
use ebpf_dns_cache::worker::{set_status, Outcome, Shared, Stage, Worker, CACHE_REFRESH_NS};

fn args(list: &[&str]) -> Vec<String> {
    list.iter().map(|s| s.to_string()).collect()
}

#[test]
fn one_interface_is_named() {
    let o = parse_args(&args(&["dns", "eth0"])).ok().unwrap();
    assert_eq!((o.ifname.as_str(), o.debug, o.tui), ("eth0", false, false));
    let o = parse_args(&args(&["-v", "--tui", "wlan0", "-v"])).ok().unwrap();
    assert_eq!((o.ifname.as_str(), o.debug, o.tui), ("wlan0", true, true));
}

#[test]
fn a_missing_interface_is_refused() {
    for list in [&[][..], &["dns"], &["dns", "-v"], &["eth0", "--tui"]] {
        assert_eq!(parse_args(&args(list)).err(), Some(ArgsError::MissingInterface));
    }
    assert_eq!(
        ArgsError::MissingInterface.message("dns"),
        "usage: dns [-v] <iface>"
    );
}

#[test]
fn a_second_interface_is_refused() {
    let r = parse_args(&args(&["dns", "eth0", "-v", "eth1"]));
    assert_eq!(r.err(), Some(ArgsError::TooManyArguments));
    assert_eq!(
        ArgsError::TooManyArguments.message("./dns"),
        "too many arguments\nusage: ./dns [-v] <iface>"
    );
}

#[test]
fn attaching_is_logged() {
    assert_eq!(
        attached_line("eth0", 2),
        "attached xdp_dns_ingress to eth0 (ifindex=2). Ctrl-C to detach."
    );
}

fn entries(n: usize) -> Vec<ReverseEntry> {
    (0..n)
        .map(|i| ReverseEntry {
            inserted: String::new(),
            addr: format!("10.0.0.{i}"),
            name: String::new(),
            ttl: 1,
            age_secs: 0,
        })
        .collect()
}

/// A worker that polls, its clock at `now_ns`.
fn polling(shared: &mut Shared, stop: &mut bool, now_ns: u64) -> Worker {
    let mut w = Worker::new();
    assert_eq!(w.stage, Stage::Attach);
    w.step(Outcome::Attached, shared, stop, false);
    assert_eq!(w.stage, Stage::Seed);
    w.step(Outcome::CacheRead(entries(2)), shared, stop, false);
    assert_eq!(w.stage, Stage::Setup);
    assert_eq!(shared.cache.len(), 2);
    w.step(Outcome::Ready { now_ns }, shared, stop, false);
    w
}

#[test]
fn the_cache_is_read_again_when_the_time_is_up() {
    let (mut shared, mut stop) = (Shared::new(), false);
    let mut w = polling(&mut shared, &mut stop, 100);
    assert_eq!(w.stage, Stage::Poll);
    w.step(Outcome::Polled { now_ns: 99 + CACHE_REFRESH_NS }, &mut shared, &mut stop, false);
    assert_eq!((w.stage, w.last_ns), (Stage::Poll, 100));
    w.step(Outcome::Polled { now_ns: 100 + CACHE_REFRESH_NS }, &mut shared, &mut stop, false);
    assert_eq!((w.stage, w.last_ns), (Stage::Refresh, 5_000_000_100));
    w.step(Outcome::CacheRead(entries(3)), &mut shared, &mut stop, false);
    assert_eq!(w.stage, Stage::Poll);
    assert_eq!(shared.cache.len(), 3);
    // A clock that runs backwards is never due.
    w.step(Outcome::Polled { now_ns: 0 }, &mut shared, &mut stop, false);
    assert_eq!(w.stage, Stage::Poll);
}

#[test]
fn the_cache_is_read_again_when_wanted() {
    let (mut shared, mut stop) = (Shared::new(), false);
    let mut w = polling(&mut shared, &mut stop, 100);
    shared.refresh = true;
    w.step(Outcome::Polled { now_ns: 101 }, &mut shared, &mut stop, false);
    assert_eq!((w.stage, w.last_ns), (Stage::Refresh, 101));
    assert!(!shared.refresh);
    // The wish is granted even when the worker is about to stop.
    stop = true;
    w.step(Outcome::CacheRead(entries(1)), &mut shared, &mut stop, false);
    assert_eq!(w.stage, Stage::Detach);
    assert_eq!(shared.cache.len(), 1);
}

#[test]
fn stopping_detaches_and_flushes_if_payloads_are_written() {
    for payload in [false, true] {
        let (mut shared, mut stop) = (Shared::new(), false);
        let mut w = polling(&mut shared, &mut stop, 0);
        stop = true;
        w.step(Outcome::Polled { now_ns: 1 }, &mut shared, &mut stop, payload);
        assert_eq!(w.stage, Stage::Detach);
        w.step(Outcome::Detached, &mut shared, &mut stop, payload);
        if payload {
            assert_eq!(w.stage, Stage::Flush);
            w.step(Outcome::Flushed, &mut shared, &mut stop, payload);
        }
        assert_eq!(w.stage, Stage::Finished);
        assert!(!w.failed);
        assert!(shared.status.is_none());
    }
}

#[test]
fn a_failed_attach_ends_the_work() {
    let (mut shared, mut stop) = (Shared::new(), false);
    let mut w = Worker::new();
    w.step(Outcome::AttachFailed("busy".to_string()), &mut shared, &mut stop, true);
    assert_eq!(w.stage, Stage::Finished);
    assert!(w.failed && stop);
    assert_eq!(shared.status.as_deref(), Some("attach failed: busy"));
    w.step(Outcome::Attached, &mut shared, &mut stop, true);
    assert_eq!(w.stage, Stage::Finished);
}

#[test]
fn a_failed_setup_still_detaches() {
    let (mut shared, mut stop) = (Shared::new(), false);
    let mut w = Worker::new();
    w.step(Outcome::Attached, &mut shared, &mut stop, false);
    w.step(Outcome::CacheRead(entries(0)), &mut shared, &mut stop, false);
    w.step(Outcome::SetupFailed("ringbuf build: no".to_string()), &mut shared, &mut stop, false);
    assert_eq!(w.stage, Stage::Detach);
    assert!(w.failed && stop);
    assert_eq!(shared.status.as_deref(), Some("ringbuf build: no"));
    w.step(Outcome::Detached, &mut shared, &mut stop, false);
    assert_eq!(w.stage, Stage::Finished);
    assert!(w.failed);
}

#[test]
fn a_stop_before_the_first_poll_polls_nothing() {
    let (mut shared, mut stop) = (Shared::new(), true);
    let w = polling(&mut shared, &mut stop, 0);
    assert_eq!(w.stage, Stage::Detach);
}

#[test]
fn outcomes_out_of_turn_change_nothing() {
    let (mut shared, mut stop) = (Shared::new(), false);
    let mut w = polling(&mut shared, &mut stop, 0);
    let before = w;
    w.step(Outcome::Detached, &mut shared, &mut stop, true);
    w.step(Outcome::Flushed, &mut shared, &mut stop, true);
    w.step(Outcome::AttachFailed("late".to_string()), &mut shared, &mut stop, true);
    assert_eq!(w, before);
    assert!(!stop && shared.status.is_none());
}

#[test]
fn dropped_events_are_counted() {
    let mut shared = Shared::new();
    shared.note_dropped();
    shared.note_dropped();
    assert_eq!(shared.dropped, 2);
    shared.dropped = u64::MAX;
    shared.note_dropped();
    assert_eq!(shared.dropped, 0);
}

#[test]
fn the_last_status_is_shown() {
    let mut shared = Shared::new();
    set_status(&mut shared, "first".to_string());
    set_status(&mut shared, "second".to_string());
    assert_eq!(shared.status.as_deref(), Some("second"));
}
