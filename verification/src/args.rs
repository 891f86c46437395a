//! The command line of `sxd`.

use vstd::prelude::*;
use vstd::string::*;

use crate::proto;
use crate::text;

verus! {

/// Which gate the daemon asks through.
#[derive(Debug, Clone, Copy, PartialEq, Eq, Structural)]
pub enum GateChoice {
    /// The one of the platform.
    Platform,
    /// A question on the terminal.
    Terminal,
    /// None: everything is approved.
    AllowAll,
}

/// What `sxd` is to do.
#[derive(Debug)]
pub enum Invocation {
    /// Install the auto-start service and record the path of the `aws` CLI.
    Install { dry_run: bool },
    /// Record the path of the `aws` CLI.
    Setup { dry_run: bool },
    /// Remove the auto-start service.
    Uninstall,
    /// Print the usage.
    Help,
    /// Serve on a socket: this one, or the default.
    Serve { socket: Option<String>, gate: GateChoice },
    /// Fail with this message.
    Fail { message: String },
}

/// The contents of an [`Invocation`].
pub enum InvocationView {
    Install { dry_run: bool },
    Setup { dry_run: bool },
    Uninstall,
    Help,
    Serve { socket: Option<Seq<char>>, gate: GateChoice },
    Fail { message: Seq<char> },
}

impl View for Invocation {
    type V = InvocationView;

    open spec fn view(&self) -> InvocationView {
        match *self {
            Invocation::Install { dry_run } => InvocationView::Install { dry_run },
            Invocation::Setup { dry_run } => InvocationView::Setup { dry_run },
            Invocation::Uninstall => InvocationView::Uninstall,
            Invocation::Help => InvocationView::Help,
            Invocation::Serve { socket, gate } => InvocationView::Serve {
                socket: proto::opt_text(socket),
                gate,
            },
            Invocation::Fail { message } => InvocationView::Fail { message: message@ },
        }
    }
}

/// Whether a dry run is asked for.
pub open spec fn is_dry(args: Seq<Seq<char>>) -> bool {
    exists|i: int| 0 <= i < args.len() && (#[trigger] args[i] == "--print"@ || args[i] == "--dry-run"@)
}

/// What the options of a serving daemon come to, after those before them gave
/// `socket` and `gate`. A later option wins; the first error or `--help` ends
/// the reading.
pub open spec fn serving(
    args: Seq<Seq<char>>,
    socket: Option<Seq<char>>,
    gate: GateChoice,
) -> InvocationView
    decreases args.len(),
{
    if args.len() == 0 {
        InvocationView::Serve { socket, gate }
    } else if args[0] == "--socket"@ {
        if args.len() < 2 {
            InvocationView::Fail { message: "--socket needs a value"@ }
        } else {
            serving(args.skip(2), Some(args[1]), gate)
        }
    } else if args[0] == "--no-gate"@ {
        serving(args.skip(1), socket, GateChoice::AllowAll)
    } else if args[0] == "--cli-gate"@ {
        serving(args.skip(1), socket, GateChoice::Terminal)
    } else if args[0] == "-h"@ || args[0] == "--help"@ {
        InvocationView::Help
    } else {
        InvocationView::Fail { message: "unknown argument: "@ + args[0] }
    }
}

/// What a command line asks for.
pub open spec fn invocation_of(args: Seq<Seq<char>>) -> InvocationView {
    if args.len() > 0 && args[0] == "install"@ {
        InvocationView::Install { dry_run: is_dry(args) }
    } else if args.len() > 0 && args[0] == "setup"@ {
        InvocationView::Setup { dry_run: is_dry(args) }
    } else if args.len() > 0 && args[0] == "uninstall"@ {
        InvocationView::Uninstall
    } else {
        serving(args, None, GateChoice::Platform)
    }
}

fn dry(args: &Vec<String>) -> (r: bool)
    ensures
        r == is_dry(text::texts(args@)),
{
    let ghost all: Seq<Seq<char>> = text::texts(args@);
    let mut i: usize = 0;
    while i < args.len()
        invariant
            i <= args@.len(),
            all == text::texts(args@),
            forall|k: int|
                0 <= k < i ==> #[trigger] all[k] != "--print"@ && all[k] != "--dry-run"@,
        decreases args@.len() - i,
    {
        if text::same(args[i].as_str(), "--print") || text::same(args[i].as_str(), "--dry-run") {
            assert(all[i as int] == "--print"@ || all[i as int] == "--dry-run"@);
            return true;
        }
        i = i + 1;
    }
    false
}

/// What a command line (without the name of the program) asks for.
pub fn invocation(args: &Vec<String>) -> (r: Invocation)
    ensures
        r@ == invocation_of(text::texts(args@)),
{
    let ghost all: Seq<Seq<char>> = text::texts(args@);
    let len: usize = args.len();
    if len > 0 {
        let first: &str = args[0].as_str();
        assert(all[0] == first@);
        if text::same(first, "install") {
            return Invocation::Install { dry_run: dry(args) };
        }
        if text::same(first, "setup") {
            return Invocation::Setup { dry_run: dry(args) };
        }
        if text::same(first, "uninstall") {
            return Invocation::Uninstall;
        }
    }
    let mut socket: Option<String> = None;
    let mut gate: GateChoice = GateChoice::Platform;
    let mut i: usize = 0;
    assert(all.skip(0) =~= all);
    while i < len
        invariant
            len == args@.len(),
            i <= len,
            all == text::texts(args@),
            serving(all.skip(i as int), proto::opt_text(socket), gate) == invocation_of(all),
        decreases len - i,
    {
        let ghost rest: Seq<Seq<char>> = all.skip(i as int);
        let arg: &str = args[i].as_str();
        assert(rest[0] == arg@);
        if text::same(arg, "--socket") {
            if i + 1 == len {
                return Invocation::Fail { message: text::text("--socket needs a value") };
            }
            assert(rest[1] == args@[i + 1]@);
            assert(rest.skip(2) =~= all.skip(i + 2));
            socket = Some(args[i + 1].clone());
            i = i + 2;
        } else if text::same(arg, "--no-gate") {
            assert(rest.skip(1) =~= all.skip(i + 1));
            gate = GateChoice::AllowAll;
            i = i + 1;
        } else if text::same(arg, "--cli-gate") {
            assert(rest.skip(1) =~= all.skip(i + 1));
            gate = GateChoice::Terminal;
            i = i + 1;
        } else if text::same(arg, "-h") || text::same(arg, "--help") {
            return Invocation::Help;
        } else {
            return Invocation::Fail { message: text::text("unknown argument: ").concat(arg) };
        }
    }
    assert(all.skip(i as int).len() == 0);
    Invocation::Serve { socket, gate }
}

// ---------------------------------------------------------------------------
// What holds of every command line

/// The first word of a command line is none of the three subcommands.
pub open spec fn serves(args: Seq<Seq<char>>) -> bool {
    args.len() > 0 ==> args[0] != "install"@ && args[0] != "setup"@ && args[0] != "uninstall"@
}

proof fn options_are_words_of_their_own()
    ensures
        "--socket"@ != "--no-gate"@,
        "--socket"@ != "--cli-gate"@,
        "--socket"@ != "-h"@,
        "--socket"@ != "--help"@,
        "--no-gate"@ != "--cli-gate"@,
        "--no-gate"@ != "-h"@,
        "--no-gate"@ != "--help"@,
        "--cli-gate"@ != "-h"@,
        "--cli-gate"@ != "--help"@,
{
    reveal_strlit("--socket");
    reveal_strlit("--no-gate");
    reveal_strlit("--cli-gate");
    reveal_strlit("-h");
    reveal_strlit("--help");
    assert("--socket"@.len() == 8);
    assert("--no-gate"@.len() == 9);
    assert("--cli-gate"@.len() == 10);
    assert("-h"@.len() == 2);
    assert("--help"@.len() == 6);
}

/// Options that were read to the end give way to those behind them.
proof fn serving_goes_on(
    args: Seq<Seq<char>>,
    more: Seq<Seq<char>>,
    socket: Option<Seq<char>>,
    gate: GateChoice,
)
    ensures
        serving(args, socket, gate) matches InvocationView::Serve { socket: s, gate: g } ==> serving(
            args + more,
            socket,
            gate,
        ) == serving(more, s, g),
        serving(args, socket, gate) is Help ==> serving(args + more, socket, gate) is Help,
    decreases args.len(),
{
    let all = args + more;
    if args.len() == 0 {
        assert(all =~= more);
    } else {
        assert(all[0] == args[0]);
        assert(all.skip(1) =~= args.skip(1) + more);
        if args[0] == "--socket"@ {
            if args.len() >= 2 {
                assert(all[1] == args[1]);
                assert(all.skip(2) =~= args.skip(2) + more);
                serving_goes_on(args.skip(2), more, Some(args[1]), gate);
            }
        } else if args[0] == "--no-gate"@ {
            serving_goes_on(args.skip(1), more, socket, GateChoice::AllowAll);
        } else if args[0] == "--cli-gate"@ {
            serving_goes_on(args.skip(1), more, socket, GateChoice::Terminal);
        }
    }
}

/// Without arguments the daemon serves on the default socket, and asks in the
/// way of the platform. A further option changes what it stands for and nothing
/// else, whatever came before: the last socket counts, and the last way to ask. A
/// call for help is answered, and what is no option, or lacks its value, is an
/// error.
pub proof fn the_last_option_counts(args: Seq<Seq<char>>, word: Seq<char>, other: Seq<char>)
    requires
        serves(args),
    ensures
        invocation_of(Seq::empty()) == (InvocationView::Serve {
            socket: None,
            gate: GateChoice::Platform,
        }),
        invocation_of(args) matches InvocationView::Serve { socket, gate } ==> {
            &&& invocation_of(args + seq!["--socket"@, word]) == (InvocationView::Serve {
                socket: Some(word),
                gate,
            })
            &&& invocation_of(args + seq!["--no-gate"@]) == (InvocationView::Serve {
                socket,
                gate: GateChoice::AllowAll,
            })
            &&& invocation_of(args + seq!["--cli-gate"@]) == (InvocationView::Serve {
                socket,
                gate: GateChoice::Terminal,
            })
            &&& invocation_of(args + seq!["-h"@]) is Help
            &&& invocation_of(args + seq!["--help"@]) is Help
            &&& invocation_of(args + seq!["--socket"@]) == (InvocationView::Fail {
                message: "--socket needs a value"@,
            })
            &&& is_no_word(other) ==> invocation_of(args + seq![other]) == (InvocationView::Fail {
                message: "unknown argument: "@ + other,
            })
        },
{
    let none: Seq<Seq<char>> = Seq::empty();
    options_are_words_of_their_own();
    subcommands_are_no_options();
    let s = seq!["--socket"@, word];
    assert(s.skip(2) =~= none);
    assert(seq!["--no-gate"@].skip(1) =~= none);
    assert(seq!["--cli-gate"@].skip(1) =~= none);
    reveal_with_fuel(serving, 2);
    serving_goes_on(args, s, None, GateChoice::Platform);
    serving_goes_on(args, seq!["--no-gate"@], None, GateChoice::Platform);
    serving_goes_on(args, seq!["--cli-gate"@], None, GateChoice::Platform);
    serving_goes_on(args, seq!["-h"@], None, GateChoice::Platform);
    serving_goes_on(args, seq!["--help"@], None, GateChoice::Platform);
    serving_goes_on(args, seq!["--socket"@], None, GateChoice::Platform);
    serving_goes_on(args, seq![other], None, GateChoice::Platform);
    if args.len() > 0 {
        assert((args + s)[0] == args[0]);
        assert((args + seq!["--no-gate"@])[0] == args[0]);
        assert((args + seq!["--cli-gate"@])[0] == args[0]);
        assert((args + seq!["-h"@])[0] == args[0]);
        assert((args + seq!["--help"@])[0] == args[0]);
        assert((args + seq!["--socket"@])[0] == args[0]);
        assert((args + seq![other])[0] == args[0]);
    } else {
        assert((args + s)[0] == s[0]);
        assert((args + seq!["--no-gate"@])[0] == "--no-gate"@);
        assert((args + seq!["--cli-gate"@])[0] == "--cli-gate"@);
        assert((args + seq!["-h"@])[0] == "-h"@);
        assert((args + seq!["--help"@])[0] == "--help"@);
        assert((args + seq!["--socket"@])[0] == "--socket"@);
        assert((args + seq![other])[0] == other);
    }
}

proof fn subcommands_are_no_options()
    ensures
        forall|w: Seq<char>|
            #![trigger is_option(w)]
            is_option(w) ==> w != "install"@ && w != "setup"@ && w != "uninstall"@,
        is_option("--socket"@),
        is_option("--no-gate"@),
        is_option("--cli-gate"@),
        is_option("-h"@),
        is_option("--help"@),
{
    reveal_strlit("--socket");
    reveal_strlit("--no-gate");
    reveal_strlit("--cli-gate");
    reveal_strlit("-h");
    reveal_strlit("--help");
    reveal_strlit("install");
    reveal_strlit("setup");
    reveal_strlit("uninstall");
    assert forall|w: Seq<char>|
        #![trigger is_option(w)]
        is_option(w) implies w != "install"@ && w != "setup"@ && w != "uninstall"@ by {
        assert(w[0] == '-');
        assert("install"@[0] == 'i' && "setup"@[0] == 's' && "uninstall"@[0] == 'u');
    }
}

/// One of the options.
pub open spec fn is_option(w: Seq<char>) -> bool {
    w == "--socket"@ || w == "--no-gate"@ || w == "--cli-gate"@ || w == "-h"@ || w == "--help"@
}

/// None of the options and of the subcommands.
pub open spec fn is_no_word(w: Seq<char>) -> bool {
    !is_option(w) && w != "install"@ && w != "setup"@ && w != "uninstall"@
}

/// A subcommand stands first, and counts whatever follows; `--print` or
/// `--dry-run` anywhere behind it makes it a dry run.
pub proof fn a_subcommand_stands_first(rest: Seq<Seq<char>>)
    ensures
        ({
            let dry = rest.contains("--print"@) || rest.contains("--dry-run"@);
            &&& invocation_of(seq!["install"@] + rest) == (InvocationView::Install { dry_run: dry })
            &&& invocation_of(seq!["setup"@] + rest) == (InvocationView::Setup { dry_run: dry })
            &&& invocation_of(seq!["uninstall"@] + rest) == InvocationView::Uninstall
        }),
{
    reveal_strlit("install");
    reveal_strlit("setup");
    reveal_strlit("uninstall");
    reveal_strlit("--print");
    reveal_strlit("--dry-run");
    assert("install"@.len() == 7 && "setup"@.len() == 5 && "uninstall"@.len() == 9);
    assert("--print"@[0] == '-' && "--dry-run"@[0] == '-');
    assert("install"@[0] == 'i' && "setup"@[0] == 's' && "uninstall"@[0] == 'u');
    dryness_is_that_of_the_rest("install"@, rest);
    dryness_is_that_of_the_rest("setup"@, rest);
}

proof fn dryness_is_that_of_the_rest(first: Seq<char>, rest: Seq<Seq<char>>)
    requires
        first != "--print"@,
        first != "--dry-run"@,
    ensures
        is_dry(seq![first] + rest) == (rest.contains("--print"@) || rest.contains("--dry-run"@)),
{
    let all = seq![first] + rest;
    if is_dry(all) {
        let i = choose|i: int|
            0 <= i < all.len() && (#[trigger] all[i] == "--print"@ || all[i] == "--dry-run"@);
        assert(all[i] == rest[i - 1]);
    }
    if rest.contains("--print"@) {
        let i = choose|i: int| 0 <= i < rest.len() && rest[i] == "--print"@;
        assert(all[i + 1] == rest[i]);
    }
    if rest.contains("--dry-run"@) {
        let i = choose|i: int| 0 <= i < rest.len() && rest[i] == "--dry-run"@;
        assert(all[i + 1] == rest[i]);
    }
}

} // verus!
