//! What the worker does at each stage, and what the command line asks for, said of what goes in and
//! what comes out.

use vstd::prelude::*;

use crate::args::{arguments, attached_text, interfaces, refusal_text, usage_text, ArgsError};
use crate::display::ends_with;
use crate::reading::{plain_writing_is_unique, plainly};
use crate::reverse::{ReverseEntry, ReverseEntryView};
use crate::worker::{
    answers, fresh_worker, stepped, Outcome, SharedView, Stage, Stepped, Worker,
};

verus! {

/// The list holds what was read, entry by entry.
pub open spec fn is_what_was_read(cache: Seq<ReverseEntryView>, entries: Seq<ReverseEntry>) -> bool {
    &&& cache.len() == entries.len()
    &&& forall|i: int| 0 <= i < entries.len() ==> #[trigger] cache[i] == entries[i]@
}

/// A worker begins by attaching.
pub proof fn the_worker_begins_by_attaching()
    ensures
        fresh_worker().stage == Stage::Attach,
        !fresh_worker().failed,
{
}

/// Once attached, the worker reads the cache; a failure to attach is shown in full, ends the work
/// and stops everything, and nothing is read.
pub proof fn attaching(w: Worker, e: String, s: SharedView, stop: bool, payload: bool)
    requires
        w.stage == Stage::Attach,
    ensures
        stepped(w, Outcome::Attached, s, stop, payload) == (Stepped {
            worker: Worker { stage: Stage::Seed, ..w },
            shared: s,
            stop,
        }),
        ({
            let after = stepped(w, Outcome::AttachFailed(e), s, stop, payload);
            &&& after.worker.stage == Stage::Finished
            &&& after.worker.failed
            &&& after.stop
            &&& after.shared.status is Some
            &&& ends_with(after.shared.status->0, e@)
            &&& after.shared.status->0.len() == 15 + e@.len()
            &&& after.shared == (SharedView { status: after.shared.status, ..s })
        }),
{
    reveal_strlit("attach failed: ");
    let text = "attach failed: "@ + e@;
    assert(text.subrange(text.len() - e@.len(), text.len() as int) =~= e@);
}

/// What is read of the cache, the first time and again, takes the place of what was there, whole;
/// nothing else of what is shared changes.
pub proof fn reading_the_cache(
    w: Worker,
    entries: Vec<ReverseEntry>,
    s: SharedView,
    stop: bool,
    payload: bool,
)
    requires
        w.stage == Stage::Seed || w.stage == Stage::Refresh,
    ensures
        ({
            let after = stepped(w, Outcome::CacheRead(entries), s, stop, payload);
            &&& is_what_was_read(after.shared.cache, entries@)
            &&& after.shared == (SharedView { cache: after.shared.cache, ..s })
            &&& after.stop == stop
            &&& after.worker == (Worker { stage: after.worker.stage, ..w })
            &&& w.stage == Stage::Seed ==> after.worker.stage == Stage::Setup
            &&& w.stage == Stage::Refresh && stop ==> after.worker.stage == Stage::Detach
            &&& w.stage == Stage::Refresh && !stop ==> after.worker.stage == Stage::Poll
        }),
{
}

/// Once set up, the worker polls unless it is to stop; a failure is shown in full and stops
/// everything, and the worker detaches.
pub proof fn setting_up(
    w: Worker,
    now_ns: u64,
    e: String,
    s: SharedView,
    stop: bool,
    payload: bool,
)
    requires
        w.stage == Stage::Setup,
    ensures
        ({
            let after = stepped(w, Outcome::Ready { now_ns }, s, stop, payload);
            &&& after.worker.last_ns == now_ns
            &&& after.worker.failed == w.failed
            &&& stop ==> after.worker.stage == Stage::Detach
            &&& !stop ==> after.worker.stage == Stage::Poll
            &&& after.shared == s
            &&& after.stop == stop
        }),
        stepped(w, Outcome::SetupFailed(e), s, stop, payload) == (Stepped {
            worker: Worker { stage: Stage::Detach, failed: true, ..w },
            shared: SharedView { status: Some(e@), ..s },
            stop: true,
        }),
{
}

/// After a poll the cache is read again if that is wanted, or if five seconds have gone by since it
/// was last due; otherwise the worker polls on, or detaches where it is to stop. The wish is gone
/// in any case, and nothing else of what is shared changes.
pub proof fn polling(w: Worker, now_ns: u64, s: SharedView, stop: bool, payload: bool)
    requires
        w.stage == Stage::Poll,
    ensures
        ({
            let after = stepped(w, Outcome::Polled { now_ns }, s, stop, payload);
            let due = s.refresh || now_ns >= w.last_ns + 5_000_000_000;
            &&& due ==> after.worker == (Worker { stage: Stage::Refresh, last_ns: now_ns, ..w })
            &&& !due && stop ==> after.worker == (Worker { stage: Stage::Detach, ..w })
            &&& !due && !stop ==> after.worker == w
            &&& after.shared == (SharedView { refresh: false, ..s })
            &&& after.stop == stop
        }),
{
}

/// Once detached, the captures are written out exactly if payloads are written; then the worker is
/// finished.
pub proof fn ending(w: Worker, s: SharedView, stop: bool, payload: bool)
    ensures
        w.stage == Stage::Detach ==> stepped(w, Outcome::Detached, s, stop, payload) == (Stepped {
            worker: Worker {
                stage: if payload {
                    Stage::Flush
                } else {
                    Stage::Finished
                },
                ..w
            },
            shared: s,
            stop,
        }),
        w.stage == Stage::Flush ==> stepped(w, Outcome::Flushed, s, stop, payload) == (Stepped {
            worker: Worker { stage: Stage::Finished, ..w },
            shared: s,
            stop,
        }),
{
}

/// An outcome that does not belong to the stage changes nothing.
pub proof fn out_of_turn(w: Worker, outcome: Outcome, s: SharedView, stop: bool, payload: bool)
    requires
        !answers(w.stage, outcome),
    ensures
        stepped(w, outcome, s, stop, payload) == (Stepped { worker: w, shared: s, stop }),
{
}

// The command line.

/// The two options.
pub open spec fn is_option(arg: Seq<char>) -> bool {
    arg == seq!['-', 'v'] || arg == seq!['-', '-', 't', 'u', 'i']
}

/// The arguments are all that follows the name of the program.
pub proof fn the_program_name_is_no_argument(args: Seq<String>, i: int)
    requires
        0 <= i < args.len() - 1,
    ensures
        arguments(args).len() == args.len() - 1,
        arguments(args)[i] == args[i + 1]@,
{
}

/// Every argument but the two options names an interface, wherever it stands.
pub proof fn every_other_argument_names_an_interface(
    before: Seq<Seq<char>>,
    arg: Seq<char>,
    after: Seq<Seq<char>>,
)
    ensures
        interfaces(Seq::empty()).len() == 0,
        is_option(arg) ==> interfaces(before.push(arg) + after) == interfaces(before) + interfaces(
            after,
        ),
        !is_option(arg) ==> interfaces(before.push(arg) + after) == interfaces(before).push(arg)
            + interfaces(after),
{
    reveal_strlit("-v");
    reveal_strlit("--tui");
    assert("-v"@ =~= seq!['-', 'v']);
    assert("--tui"@ =~= seq!['-', '-', 't', 'u', 'i']);
    let pred = |arg: Seq<char>| crate::args::names_interface(arg);
    reveal(Seq::filter);
    Seq::filter_distributes_over_add(before.push(arg), after, pred);
    assert(before.push(arg).drop_last() =~= before);
    assert(before.push(arg).filter(pred) == if pred(arg) {
        before.filter(pred).push(arg)
    } else {
        before.filter(pred)
    });
}

/// One interface among options is the one that is taken.
pub proof fn one_interface_among_options(
    before: Seq<Seq<char>>,
    name: Seq<char>,
    after: Seq<Seq<char>>,
)
    requires
        !is_option(name),
        forall|i: int| 0 <= i < before.len() ==> is_option(#[trigger] before[i]),
        forall|i: int| 0 <= i < after.len() ==> is_option(#[trigger] after[i]),
    ensures
        interfaces(before.push(name) + after) == seq![name],
        interfaces(before + after).len() == 0,
{
    every_other_argument_names_an_interface(before, name, after);
    lemma_options_only(before);
    lemma_options_only(after);
    let pred = |arg: Seq<char>| crate::args::names_interface(arg);
    Seq::filter_distributes_over_add(before, after, pred);
    assert(interfaces(before) =~= Seq::empty() && interfaces(after) =~= Seq::empty());
    assert(interfaces(before.push(name) + after) =~= seq![name]);
}

proof fn lemma_options_only(args: Seq<Seq<char>>)
    requires
        forall|i: int| 0 <= i < args.len() ==> is_option(#[trigger] args[i]),
    ensures
        interfaces(args).len() == 0,
    decreases args.len(),
{
    let none = Seq::<Seq<char>>::empty();
    if args.len() > 0 {
        let less = args.drop_last();
        assert forall|i: int| 0 <= i < less.len() implies is_option(#[trigger] less[i]) by {
            assert(less[i] == args[i]);
        }
        assert(is_option(args[args.len() - 1]));
        lemma_options_only(less);
        every_other_argument_names_an_interface(less, args.last(), none);
        assert(less.push(args.last()) + none =~= args);
    } else {
        every_other_argument_names_an_interface(none, seq!['-', 'v'], none);
        assert(args =~= none);
    }
}

/// A refusal names the program in full, and says so where there were too many arguments.
pub proof fn refusals_name_the_program(program: Seq<char>)
    ensures
        usage_text(program) == "usage: "@ + program + " [-v] <iface>"@,
        refusal_text(ArgsError::MissingInterface, program) == usage_text(program),
        refusal_text(ArgsError::TooManyArguments, program) == "too many arguments\n"@ + usage_text(
            program,
        ),
{
}

/// The line on attaching names the interface in full, and its number.
pub proof fn attaching_names_the_interface(ifname: Seq<char>, ifindex: u32, number: Seq<char>)
    requires
        plainly(number, ifindex as int, 10),
    ensures
        attached_text(ifname, ifindex) == "attached xdp_dns_ingress to "@ + ifname + " (ifindex="@
            + number + "). Ctrl-C to detach."@,
{
    plain_writing_is_unique(number, ifindex as nat, 10);
}

} // verus!
