//! The worker beside the interface: what it shares with the interface, and what it does next.
//!
//! The worker attaches the kernel program, reads the reverse cache once, sets the ring buffers up
//! and then polls them until it is told to stop, reading the cache again now and then. Whatever
//! happens once the program is attached, it is detached in the end.

use vstd::prelude::*;
use vstd::string::*;

use crate::app::optional_text;
use crate::reverse::{cache_view, ReverseEntry, ReverseEntryView};

verus! {

/// How often the reverse cache is read again, in nanoseconds.
pub const CACHE_REFRESH_NS: u64 = 5_000_000_000;

/// How many events may wait for the interface; those beyond are dropped and counted.
pub const FEED_CHAN_CAP: usize = 4096;

/// What the worker tells the interface, and the interface the worker.
pub struct Shared {
    /// The reverse cache, as last read.
    pub cache: Vec<ReverseEntry>,
    /// The events dropped so far.
    pub dropped: u64,
    /// What went wrong.
    pub status: Option<String>,
    /// Whether the interface wants the cache read again.
    pub refresh: bool,
}

/// What a [`Shared`] holds.
#[verifier::ext_equal]
pub struct SharedView {
    pub cache: Seq<ReverseEntryView>,
    pub dropped: u64,
    pub status: Option<Seq<char>>,
    pub refresh: bool,
}

impl View for Shared {
    type V = SharedView;

    open spec fn view(&self) -> SharedView {
        SharedView {
            cache: cache_view(self.cache@),
            dropped: self.dropped,
            status: optional_text(self.status),
            refresh: self.refresh,
        }
    }
}

impl Shared {
    /// Nothing read, dropped, wrong or wanted yet.
    pub fn new() -> (s: Shared)
        ensures
            s@ == (SharedView { cache: Seq::empty(), dropped: 0, status: None, refresh: false }),
    {
        let s = Shared { cache: Vec::new(), dropped: 0, status: None, refresh: false };
        assert(s@.cache =~= Seq::<ReverseEntryView>::empty());
        s
    }

    /// Counts an event that found no room; the count starts over after the largest number.
    pub fn note_dropped(&mut self)
        ensures
            final(self)@ == (SharedView {
                dropped: if old(self).dropped == u64::MAX {
                    0
                } else {
                    (old(self).dropped + 1) as u64
                },
                ..old(self)@
            }),
    {
        self.dropped = self.dropped.wrapping_add(1);
    }
}

/// Lets the interface show what went wrong.
pub fn set_status(shared: &mut Shared, msg: String)
    ensures
        final(shared)@ == (SharedView { status: Some(msg@), ..old(shared)@ }),
{
    shared.status = Some(msg);
}

/// Where the worker is, and so what it does next.
#[derive(Clone, Copy, PartialEq, Eq, Debug, Structural)]
pub enum Stage {
    /// To attach the kernel program.
    Attach,
    /// To read the cache for the first time.
    Seed,
    /// To set the ring buffers up and look at the clock.
    Setup,
    /// To poll the ring buffers and look at the clock.
    Poll,
    /// To read the cache again.
    Refresh,
    /// To detach the kernel program.
    Detach,
    /// To write the captures out.
    Flush,
    /// Nothing more.
    Finished,
}

/// How what the worker did turned out.
pub enum Outcome {
    Attached,
    AttachFailed(String),
    CacheRead(Vec<ReverseEntry>),
    Ready { now_ns: u64 },
    SetupFailed(String),
    Polled { now_ns: u64 },
    Detached,
    Flushed,
}

/// The state of the worker.
#[derive(Clone, Copy, PartialEq, Eq, Debug, Structural)]
pub struct Worker {
    pub stage: Stage,
    /// When the cache was last due, in nanoseconds of the monotonic clock.
    pub last_ns: u64,
    /// Whether an error ended the work.
    pub failed: bool,
}

/// What the worker, the shared state and the stop flag are after a step.
#[verifier::ext_equal]
pub struct Stepped {
    pub worker: Worker,
    pub shared: SharedView,
    pub stop: bool,
}

/// The cache is read again when that is wanted, and when the time is up.
pub open spec fn refresh_due(last_ns: u64, now_ns: u64, wanted: bool) -> bool {
    wanted || now_ns - last_ns >= CACHE_REFRESH_NS
}

/// Between two polls: whether to go on.
pub open spec fn poll_stage(stop: bool) -> Stage {
    if stop {
        Stage::Detach
    } else {
        Stage::Poll
    }
}

/// An outcome that belongs to the stage.
pub open spec fn answers(stage: Stage, outcome: Outcome) -> bool {
    match stage {
        Stage::Attach => outcome is Attached || outcome is AttachFailed,
        Stage::Seed => outcome is CacheRead,
        Stage::Setup => outcome is Ready || outcome is SetupFailed,
        Stage::Poll => outcome is Polled,
        Stage::Refresh => outcome is CacheRead,
        Stage::Detach => outcome is Detached,
        Stage::Flush => outcome is Flushed,
        Stage::Finished => false,
    }
}

/// One step: by the outcome of what the worker did. Outcomes that do not belong to the stage
/// change nothing.
pub open spec fn stepped(
    w: Worker,
    outcome: Outcome,
    shared: SharedView,
    stop: bool,
    payload: bool,
) -> Stepped {
    let same = Stepped { worker: w, shared, stop };
    match (w.stage, outcome) {
        (Stage::Attach, Outcome::Attached) => Stepped {
            worker: Worker { stage: Stage::Seed, ..w },
            ..same
        },
        (Stage::Attach, Outcome::AttachFailed(e)) => Stepped {
            worker: Worker { stage: Stage::Finished, failed: true, ..w },
            shared: SharedView { status: Some("attach failed: "@ + e@), ..shared },
            stop: true,
        },
        (Stage::Seed, Outcome::CacheRead(entries)) => Stepped {
            worker: Worker { stage: Stage::Setup, ..w },
            shared: SharedView { cache: cache_view(entries@), ..shared },
            ..same
        },
        (Stage::Setup, Outcome::Ready { now_ns }) => Stepped {
            worker: Worker { stage: poll_stage(stop), last_ns: now_ns, ..w },
            ..same
        },
        (Stage::Setup, Outcome::SetupFailed(e)) => Stepped {
            worker: Worker { stage: Stage::Detach, failed: true, ..w },
            shared: SharedView { status: Some(e@), ..shared },
            stop: true,
        },
        (Stage::Poll, Outcome::Polled { now_ns }) => Stepped {
            worker: if refresh_due(w.last_ns, now_ns, shared.refresh) {
                Worker { stage: Stage::Refresh, last_ns: now_ns, ..w }
            } else {
                Worker { stage: poll_stage(stop), ..w }
            },
            shared: SharedView { refresh: false, ..shared },
            ..same
        },
        (Stage::Refresh, Outcome::CacheRead(entries)) => Stepped {
            worker: Worker { stage: poll_stage(stop), ..w },
            shared: SharedView { cache: cache_view(entries@), ..shared },
            ..same
        },
        (Stage::Detach, Outcome::Detached) => Stepped {
            worker: Worker {
                stage: if payload {
                    Stage::Flush
                } else {
                    Stage::Finished
                },
                ..w
            },
            ..same
        },
        (Stage::Flush, Outcome::Flushed) => Stepped {
            worker: Worker { stage: Stage::Finished, ..w },
            ..same
        },
        _ => same,
    }
}

fn stage_between_polls(stop: bool) -> (stage: Stage)
    ensures
        stage == poll_stage(stop),
{
    if stop {
        Stage::Detach
    } else {
        Stage::Poll
    }
}

/// A worker that has not begun.
pub open spec fn fresh_worker() -> Worker {
    Worker { stage: Stage::Attach, last_ns: 0, failed: false }
}

impl Worker {
    /// A worker that has not begun.
    pub fn new() -> (w: Worker)
        ensures
            w == fresh_worker(),
    {
        Worker { stage: Stage::Attach, last_ns: 0, failed: false }
    }

    /// Goes one step on, by the outcome of what the stage asked for. `payload` tells whether
    /// payloads are written.
    pub fn step(&mut self, outcome: Outcome, shared: &mut Shared, stop: &mut bool, payload: bool)
        ensures
            (Stepped { worker: *final(self), shared: final(shared)@, stop: *final(stop) })
                == stepped(*old(self), outcome, old(shared)@, *old(stop), payload),
    {
        match (self.stage, outcome) {
            (Stage::Attach, Outcome::Attached) => {
                self.stage = Stage::Seed;
            },
            (Stage::Attach, Outcome::AttachFailed(e)) => {
                let mut msg = "attach failed: ".to_owned();
                msg.append(e.as_str());
                set_status(shared, msg);
                *stop = true;
                self.failed = true;
                self.stage = Stage::Finished;
            },
            (Stage::Seed, Outcome::CacheRead(entries)) => {
                shared.cache = entries;
                self.stage = Stage::Setup;
            },
            (Stage::Setup, Outcome::Ready { now_ns }) => {
                self.last_ns = now_ns;
                self.stage = stage_between_polls(*stop);
            },
            (Stage::Setup, Outcome::SetupFailed(e)) => {
                set_status(shared, e);
                *stop = true;
                self.failed = true;
                self.stage = Stage::Detach;
            },
            (Stage::Poll, Outcome::Polled { now_ns }) => {
                let wanted = shared.refresh;
                shared.refresh = false;
                if wanted || now_ns.saturating_sub(self.last_ns) >= CACHE_REFRESH_NS {
                    self.last_ns = now_ns;
                    self.stage = Stage::Refresh;
                } else {
                    self.stage = stage_between_polls(*stop);
                }
            },
            (Stage::Refresh, Outcome::CacheRead(entries)) => {
                shared.cache = entries;
                self.stage = stage_between_polls(*stop);
            },
            (Stage::Detach, Outcome::Detached) => {
                self.stage = if payload {
                    Stage::Flush
                } else {
                    Stage::Finished
                };
            },
            (Stage::Flush, Outcome::Flushed) => {
                self.stage = Stage::Finished;
            },
            _ => {},
        }
    }
}

// What holds of the worker.

/// An error that ends the work is shown, and everything is told to stop.
pub proof fn fatal_errors_are_shown_and_stop(
    w: Worker,
    outcome: Outcome,
    shared: SharedView,
    stop: bool,
    payload: bool,
)
    requires
        answers(w.stage, outcome),
        outcome is AttachFailed || outcome is SetupFailed,
    ensures
        ({
            let after = stepped(w, outcome, shared, stop, payload);
            &&& after.shared.status is Some
            &&& after.stop
            &&& after.worker.failed
        }),
{
}

/// The cache is read again at the latest when [`CACHE_REFRESH_NS`] have gone by, at once when that
/// is wanted, and not otherwise; a wish is granted once.
pub proof fn cache_is_read_when_due(
    w: Worker,
    now_ns: u64,
    shared: SharedView,
    stop: bool,
    payload: bool,
)
    requires
        w.stage == Stage::Poll,
    ensures
        ({
            let after = stepped(w, Outcome::Polled { now_ns }, shared, stop, payload);
            &&& after.worker.stage == Stage::Refresh <==> shared.refresh || now_ns >= w.last_ns
                + CACHE_REFRESH_NS
            &&& after.worker.stage == Stage::Refresh ==> after.worker.last_ns == now_ns
            &&& after.worker.stage != Stage::Refresh ==> after.worker.last_ns == w.last_ns
            &&& !after.shared.refresh
        }),
{
}

/// How far the worker is from the end, once it is told to stop.
pub open spec fn steps_left(stage: Stage) -> nat {
    match stage {
        Stage::Attach => 7,
        Stage::Seed => 6,
        Stage::Setup => 5,
        Stage::Poll => 4,
        Stage::Refresh => 3,
        Stage::Detach => 2,
        Stage::Flush => 1,
        Stage::Finished => 0,
    }
}

/// Once told to stop the worker comes nearer to its end with each step.
pub proof fn stopping_leads_to_the_end(
    w: Worker,
    outcome: Outcome,
    shared: SharedView,
    payload: bool,
)
    requires
        answers(w.stage, outcome),
    ensures
        ({
            let after = stepped(w, outcome, shared, true, payload);
            &&& steps_left(after.worker.stage) < steps_left(w.stage)
            &&& after.stop
        }),
{
}

/// What a step is taken by.
pub struct Input {
    pub outcome: Outcome,
    pub shared: SharedView,
    pub stop: bool,
    pub payload: bool,
}

/// A fresh worker after a run of steps.
pub open spec fn worker_after(run: Seq<Input>) -> Worker
    decreases run.len(),
{
    if run.len() == 0 {
        fresh_worker()
    } else {
        let x = run.last();
        stepped(worker_after(run.drop_last()), x.outcome, x.shared, x.stop, x.payload).worker
    }
}

/// The kernel program is attached in these stages.
pub open spec fn is_attached(stage: Stage) -> bool {
    match stage {
        Stage::Seed | Stage::Setup | Stage::Poll | Stage::Refresh | Stage::Detach => true,
        _ => false,
    }
}

/// How often the kernel program was attached in a run.
pub open spec fn times_attached(run: Seq<Input>) -> nat
    decreases run.len(),
{
    if run.len() == 0 {
        0
    } else {
        let now = worker_after(run.drop_last()).stage == Stage::Attach && run.last().outcome is Attached;
        times_attached(run.drop_last()) + if now {
            1nat
        } else {
            0
        }
    }
}

/// How often the kernel program was detached in a run.
pub open spec fn times_detached(run: Seq<Input>) -> nat
    decreases run.len(),
{
    if run.len() == 0 {
        0
    } else {
        let now = worker_after(run.drop_last()).stage == Stage::Detach && run.last().outcome is Detached;
        times_detached(run.drop_last()) + if now {
            1nat
        } else {
            0
        }
    }
}

/// Whatever happens, a kernel program that was attached is detached before the worker is finished,
/// once, and it is not detached before.
pub proof fn attached_is_detached_in_the_end(run: Seq<Input>)
    ensures
        times_attached(run) == times_detached(run) + if is_attached(worker_after(run).stage) {
            1nat
        } else {
            0
        },
        times_attached(run) <= 1,
        worker_after(run).stage == Stage::Attach ==> times_attached(run) == 0,
        worker_after(run).stage == Stage::Flush ==> times_detached(run) == 1,
        worker_after(run).stage == Stage::Finished && !worker_after(run).failed ==> times_detached(
            run,
        ) == 1,
    decreases run.len(),
{
    if run.len() > 0 {
        attached_is_detached_in_the_end(run.drop_last());
    }
}

/// A finished worker stays as it is.
pub proof fn finished_is_finished(
    w: Worker,
    outcome: Outcome,
    shared: SharedView,
    stop: bool,
    payload: bool,
)
    requires
        w.stage == Stage::Finished,
    ensures
        stepped(w, outcome, shared, stop, payload) == (Stepped { worker: w, shared, stop }),
{
}

} // verus!
