//! The command line.

use vstd::prelude::*;
use vstd::string::*;

use crate::text::{decimal, push_decimal, same_text};

verus! {

/// What the command line asks for.
pub struct Options {
    /// The name of the network interface to watch.
    pub ifname: String,
    /// Whether the kernel side logs what it does.
    pub debug: bool,
    /// Whether the interactive interface is wanted.
    pub tui: bool,
}

/// Why a command line is refused.
#[derive(Clone, Copy, PartialEq, Eq, Debug, Structural)]
pub enum ArgsError {
    /// No interface is named.
    MissingInterface,
    /// More than one interface is named.
    TooManyArguments,
}

/// The arguments, without the name of the program.
pub open spec fn arguments(args: Seq<String>) -> Seq<Seq<char>> {
    if args.len() == 0 {
        Seq::empty()
    } else {
        args.map_values(|s: String| s@).skip(1)
    }
}

/// An argument that is no option names an interface.
pub open spec fn names_interface(arg: Seq<char>) -> bool {
    arg != "-v"@ && arg != "--tui"@
}

/// The interfaces that are named.
pub open spec fn interfaces(args: Seq<Seq<char>>) -> Seq<Seq<char>> {
    args.filter(|arg: Seq<char>| names_interface(arg))
}

proof fn lemma_next_argument(args: Seq<Seq<char>>, i: int)
    requires
        0 <= i < args.len(),
    ensures
        interfaces(args.take(i + 1)) == if names_interface(args[i]) {
            interfaces(args.take(i)).push(args[i])
        } else {
            interfaces(args.take(i))
        },
        interfaces(args.take(i + 1)).len() <= interfaces(args).len(),
    decreases args.len() - i,
{
    reveal(Seq::filter);
    assert(args.take(i + 1).drop_last() =~= args.take(i));
    if i + 1 < args.len() {
        lemma_next_argument(args, i + 1);
    } else {
        assert(args.take(i + 1) =~= args);
    }
}

/// Reads the command line, program name first: `-v` turns logging in the kernel on, `--tui` asks
/// for the interactive interface, and exactly one other argument names the network interface.
pub fn parse_args(args: &[String]) -> (r: Result<Options, ArgsError>)
    ensures
        r is Ok <==> interfaces(arguments(args@)).len() == 1,
        r == Err::<Options, ArgsError>(ArgsError::MissingInterface) <==> interfaces(
            arguments(args@),
        ).len() == 0,
        r == Err::<Options, ArgsError>(ArgsError::TooManyArguments) <==> interfaces(
            arguments(args@),
        ).len() > 1,
        r matches Ok(o) ==> {
            &&& o.ifname@ == interfaces(arguments(args@))[0]
            &&& o.debug == arguments(args@).contains("-v"@)
            &&& o.tui == arguments(args@).contains("--tui"@)
        },
{
    let mut ifname: Option<String> = None;
    let mut debug = false;
    let mut tui = false;
    let ghost given = arguments(args@);
    let n: usize = args.len();
    let mut i: usize = 1;
    proof {
        reveal(Seq::filter);
        reveal_strlit("-v");
        reveal_strlit("--tui");
        assert("-v"@.len() != "--tui"@.len());
    }
    while i < n
        invariant
            n == args@.len(),
            1 <= i <= n || (i == 1 && n == 0),
            given == arguments(args@),
            "-v"@ != "--tui"@,
            debug == given.take(i - 1).contains("-v"@),
            tui == given.take(i - 1).contains("--tui"@),
            match ifname {
                None => interfaces(given.take(i - 1)).len() == 0,
                Some(name) => interfaces(given.take(i - 1)) == seq![name@],
            },
        decreases n - i,
    {
        let arg = &args[i];
        proof {
            assert(given[i - 1] == arg@);
            lemma_next_argument(given, i - 1);
            assert(given.take(i as int) =~= given.take(i - 1).push(arg@));
            let (before, after) = (given.take(i - 1), given.take(i as int));
            assert(after[i - 1] == arg@);
            assert forall|s: Seq<char>| after.contains(s) == (before.contains(s) || s == arg@) by {
                if before.contains(s) {
                    let k = choose|k: int| 0 <= k < before.len() && before[k] == s;
                    assert(after[k] == s);
                }
                if after.contains(s) && s != arg@ {
                    let k = choose|k: int| 0 <= k < after.len() && after[k] == s;
                    assert(before[k] == s);
                }
            }
        }
        if same_text(arg.as_str(), "-v") {
            debug = true;
        } else if same_text(arg.as_str(), "--tui") {
            tui = true;
        } else if ifname.is_none() {
            ifname = Some(arg.clone());
        } else {
            return Err(ArgsError::TooManyArguments);
        }
        i += 1;
    }
    assert(given.take(i - 1) =~= given);
    match ifname {
        Some(ifname) => Ok(Options { ifname, debug, tui }),
        None => Err(ArgsError::MissingInterface),
    }
}

/// The line that says how the program is called.
pub open spec fn usage_text(program: Seq<char>) -> Seq<char> {
    "usage: "@ + program + " [-v] <iface>"@
}

/// What is printed of a refused command line.
pub open spec fn refusal_text(error: ArgsError, program: Seq<char>) -> Seq<char> {
    match error {
        ArgsError::MissingInterface => usage_text(program),
        ArgsError::TooManyArguments => "too many arguments\n"@ + usage_text(program),
    }
}

impl ArgsError {
    /// What is printed, given the name of the program.
    pub fn message(self, program: &str) -> (s: String)
        ensures
            s@ == refusal_text(self, program@),
    {
        let mut s = match self {
            ArgsError::MissingInterface => String::new(),
            ArgsError::TooManyArguments => "too many arguments\n".to_owned(),
        };
        s.append("usage: ");
        s.append(program);
        s.append(" [-v] <iface>");
        assert(s@ =~= refusal_text(self, program@));
        s
    }
}

/// What is logged once the kernel program is attached to an interface.
pub open spec fn attached_text(ifname: Seq<char>, ifindex: u32) -> Seq<char> {
    "attached xdp_dns_ingress to "@ + ifname + " (ifindex="@ + decimal(ifindex as nat)
        + "). Ctrl-C to detach."@
}

/// The line that is logged once the kernel program is attached to an interface.
pub fn attached_line(ifname: &str, ifindex: u32) -> (s: String)
    ensures
        s@ == attached_text(ifname@, ifindex),
{
    let mut s = "attached xdp_dns_ingress to ".to_owned();
    s.append(ifname);
    s.append(" (ifindex=");
    push_decimal(&mut s, ifindex as u64);
    s.append("). Ctrl-C to detach.");
    s
}

} // verus!
