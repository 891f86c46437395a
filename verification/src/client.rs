//! The `sx` client: what it asks the daemon, what it shows, and how it keeps
//! secret values out of what it shows.

use vstd::prelude::*;
use vstd::string::*;
use vstd::utf8::*;

use crate::paths::FilePath;
use crate::proto;
use crate::proto::{CaptureInfo, CaptureView, Request, RequestView, Response, ResponseView};
use crate::redaction;
use crate::skill::Targets;
use crate::source;
use crate::text;
use crate::vars::Listing;

verus! {

// ---------------------------------------------------------------------------
// From the command line to a request

/// What the user asked for on the command line.
#[derive(Debug)]
pub enum Command {
    /// Drop granted sources: a path, a profile, or all of them.
    Clear { path: Option<String>, aws_profile: Option<String> },
    /// Show active grants.
    Status,
    /// The same as [`Command::Status`].
    List,
    /// Install the usage skill, or only say what would be written.
    InstallSkill { targets: Targets, print: bool },
    /// Remove the usage skill.
    UninstallSkill { targets: Targets },
    /// Allow all commands of sources for a lease.
    GrantAll { env: Vec<String>, aws_profile: Vec<String>, lease: Option<u64> },
    /// Run a command with the secrets of sources.
    Run { env: Vec<String>, aws_profile: Vec<String>, grant_all: bool, argv: Vec<String> },
}

/// The contents of a [`Command`].
pub enum CommandView {
    Clear { path: Option<Seq<char>>, aws_profile: Option<Seq<char>> },
    Status,
    List,
    InstallSkill { targets: Targets, print: bool },
    UninstallSkill { targets: Targets },
    GrantAll { env: Seq<Seq<char>>, aws_profile: Seq<Seq<char>>, lease: Option<u64> },
    Run {
        env: Seq<Seq<char>>,
        aws_profile: Seq<Seq<char>>,
        grant_all: bool,
        argv: Seq<Seq<char>>,
    },
}

impl View for Command {
    type V = CommandView;

    open spec fn view(&self) -> CommandView {
        match *self {
            Command::Clear { path, aws_profile } => CommandView::Clear {
                path: proto::opt_text(path),
                aws_profile: proto::opt_text(aws_profile),
            },
            Command::Status => CommandView::Status,
            Command::List => CommandView::List,
            Command::InstallSkill { targets, print } => CommandView::InstallSkill {
                targets,
                print,
            },
            Command::UninstallSkill { targets } => CommandView::UninstallSkill { targets },
            Command::GrantAll { env, aws_profile, lease } => CommandView::GrantAll {
                env: text::texts(env@),
                aws_profile: text::texts(aws_profile@),
                lease,
            },
            Command::Run { env, aws_profile, grant_all, argv } => CommandView::Run {
                env: text::texts(env@),
                aws_profile: text::texts(aws_profile@),
                grant_all,
                argv: text::texts(argv@),
            },
        }
    }
}

/// What the client does.
#[derive(Debug)]
pub enum Plan {
    /// Send the request and show the reply.
    Show { request: Request },
    /// Send the request and, with the secrets it is granted, run `argv`.
    Exec { request: Request, argv: Vec<String> },
    /// Install the usage skill; the daemon is not asked.
    InstallSkill { targets: Targets, print: bool },
    /// Remove the usage skill; the daemon is not asked.
    UninstallSkill { targets: Targets },
    /// Fail with this message.
    Fail { message: String },
}

/// The contents of a [`Plan`].
pub enum PlanView {
    Show { request: RequestView },
    Exec { request: RequestView, argv: Seq<Seq<char>> },
    InstallSkill { targets: Targets, print: bool },
    UninstallSkill { targets: Targets },
    Fail { message: Seq<char> },
}

impl View for Plan {
    type V = PlanView;

    open spec fn view(&self) -> PlanView {
        match *self {
            Plan::Show { request } => PlanView::Show { request: request@ },
            Plan::Exec { request, argv } => PlanView::Exec {
                request: request@,
                argv: text::texts(argv@),
            },
            Plan::InstallSkill { targets, print } => PlanView::InstallSkill { targets, print },
            Plan::UninstallSkill { targets } => PlanView::UninstallSkill { targets },
            Plan::Fail { message } => PlanView::Fail { message: message@ },
        }
    }
}

/// What the client does for a command line.
pub open spec fn plan_of(c: CommandView) -> PlanView {
    match c {
        CommandView::Clear { path, aws_profile } => PlanView::Show {
            request: RequestView::Clear {
                path: match aws_profile {
                    Some(p) => Some(source::AWS_SOURCE_PREFIX@ + p),
                    None => path,
                },
            },
        },
        CommandView::Status => PlanView::Show { request: RequestView::Status },
        CommandView::List => PlanView::Show { request: RequestView::Status },
        CommandView::InstallSkill { targets, print } => PlanView::InstallSkill { targets, print },
        CommandView::UninstallSkill { targets } => PlanView::UninstallSkill { targets },
        CommandView::GrantAll { env, aws_profile, lease } => if env.len() == 0
            && aws_profile.len() == 0 {
            PlanView::Fail {
                message: "grant-all requires at least one --env <path> or --aws-profile <profile>"@,
            }
        } else {
            PlanView::Show {
                request: RequestView::GrantAll {
                    env,
                    aws_profiles: aws_profile,
                    lease_secs: lease,
                },
            }
        },
        CommandView::Run { env, aws_profile, grant_all, argv } => if env.len() == 0
            && aws_profile.len() == 0 {
            PlanView::Fail {
                message: "run requires at least one --env <path> or --aws-profile <profile>"@,
            }
        } else {
            PlanView::Exec {
                request: RequestView::Run { env, aws_profiles: aws_profile, argv, grant_all },
                argv,
            }
        },
    }
}

/// What the client does for a command line. It never says where it runs: the
/// daemon finds that out for itself.
pub fn plan(command: Command) -> (r: Plan)
    ensures
        r@ == plan_of(command@),
{
    match command {
        Command::Clear { path, aws_profile } => Plan::Show {
            request: Request::Clear {
                path: match aws_profile {
                    Some(p) => Some(text::text(source::AWS_SOURCE_PREFIX).concat(p.as_str())),
                    None => path,
                },
            },
        },
        Command::Status => Plan::Show { request: Request::Status },
        Command::List => Plan::Show { request: Request::Status },
        Command::InstallSkill { targets, print } => Plan::InstallSkill { targets, print },
        Command::UninstallSkill { targets } => Plan::UninstallSkill { targets },
        Command::GrantAll { env, aws_profile, lease } => if env.len() == 0 && aws_profile.len()
            == 0 {
            Plan::Fail {
                message: text::text(
                    "grant-all requires at least one --env <path> or --aws-profile <profile>",
                ),
            }
        } else {
            Plan::Show {
                request: Request::GrantAll { env, aws_profiles: aws_profile, lease_secs: lease },
            }
        },
        Command::Run { env, aws_profile, grant_all, argv } => if env.len() == 0
            && aws_profile.len() == 0 {
            Plan::Fail {
                message: text::text(
                    "run requires at least one --env <path> or --aws-profile <profile>",
                ),
            }
        } else {
            let shown: Vec<String> = text::copy_texts(&argv);
            Plan::Exec {
                request: Request::Run { env, aws_profiles: aws_profile, argv: shown, grant_all },
                argv,
            }
        },
    }
}

// ---------------------------------------------------------------------------
// Showing a reply

/// What a command line prints, and whether it succeeds.
#[derive(Debug)]
pub struct Shown {
    pub stdout: String,
    pub stderr: String,
    pub success: bool,
}

/// The contents of a [`Shown`].
pub struct ShownView {
    pub stdout: Seq<char>,
    pub stderr: Seq<char>,
    pub success: bool,
}

impl View for Shown {
    type V = ShownView;

    open spec fn view(&self) -> ShownView {
        ShownView { stdout: self.stdout@, stderr: self.stderr@, success: self.success }
    }
}

/// Names, each on an indented line.
pub open spec fn names_text(names: Seq<Seq<char>>) -> Seq<char>
    decreases names.len(),
{
    if names.len() == 0 {
        Seq::empty()
    } else {
        names_text(names.drop_last()) + "  "@ + names.last() + "\n"@
    }
}

/// How a grant confirms commands.
pub open spec fn mode_text(allow_all: bool) -> Seq<char> {
    if allow_all {
        " [allow-all]"@
    } else {
        " [confirm each command]"@
    }
}

/// One grant as it is shown: its source, its lease and mode, and its names.
pub open spec fn capture_text(c: CaptureView) -> Seq<char> {
    c.source + " (expires in "@ + text::decimal((c.expires_in_secs / 60) as nat) + "m)"@
        + mode_text(c.allow_all) + "\n"@ + names_text(c.names)
}

/// Grants as they are shown.
pub open spec fn captures_text(captures: Seq<CaptureView>) -> Seq<char>
    decreases captures.len(),
{
    if captures.len() == 0 {
        Seq::empty()
    } else {
        captures_text(captures.drop_last()) + capture_text(captures.last())
    }
}

/// A reply as it is shown.
pub open spec fn shown_of(r: ResponseView) -> ShownView {
    match r {
        ResponseView::Done { message } => ShownView {
            stdout: message + "\n"@,
            stderr: Seq::empty(),
            success: true,
        },
        ResponseView::Status { captures } => ShownView {
            stdout: if captures.len() == 0 {
                "no active grants\n"@
            } else {
                captures_text(captures)
            },
            stderr: Seq::empty(),
            success: true,
        },
        ResponseView::Granted { .. } => ShownView {
            stdout: Seq::empty(),
            stderr: "error: unexpected grant outside of run\n"@,
            success: false,
        },
        ResponseView::Denied { reason } => ShownView {
            stdout: Seq::empty(),
            stderr: "denied: "@ + reason + "\n"@,
            success: false,
        },
        ResponseView::Error { message } => ShownView {
            stdout: Seq::empty(),
            stderr: "error: "@ + message + "\n"@,
            success: false,
        },
    }
}

fn names_shown(names: &Vec<String>) -> (r: String)
    ensures
        r@ == names_text(text::texts(names@)),
{
    let ghost all: Seq<Seq<char>> = text::texts(names@);
    let mut out: String = String::new();
    let mut i: usize = 0;
    while i < names.len()
        invariant
            i <= names@.len(),
            all == text::texts(names@),
            out@ == names_text(all.take(i as int)),
        decreases names@.len() - i,
    {
        proof {
            assert(all.take(i as int + 1).drop_last() =~= all.take(i as int));
        }
        out.append("  ");
        out.append(names[i].as_str());
        out.append("\n");
        i = i + 1;
    }
    assert(all.take(i as int) =~= all);
    out
}

fn captures_shown(captures: &Vec<CaptureInfo>) -> (r: String)
    ensures
        r@ == captures_text(proto::captures_of(captures@)),
{
    let ghost all: Seq<CaptureView> = proto::captures_of(captures@);
    let mut out: String = String::new();
    let mut i: usize = 0;
    while i < captures.len()
        invariant
            i <= captures@.len(),
            all == proto::captures_of(captures@),
            out@ == captures_text(all.take(i as int)),
        decreases captures@.len() - i,
    {
        proof {
            assert(all.take(i as int + 1).drop_last() =~= all.take(i as int));
        }
        let c: &CaptureInfo = &captures[i];
        let mode: &str = if c.allow_all {
            " [allow-all]"
        } else {
            " [confirm each command]"
        };
        let one: String = c.source.clone().concat(" (expires in ").concat(
            text::decimal_text(c.expires_in_secs / 60).as_str(),
        ).concat("m)").concat(mode).concat("\n").concat(names_shown(&c.names).as_str());
        assert(one@ == capture_text(c@));
        out.append(one.as_str());
        i = i + 1;
    }
    assert(all.take(i as int) =~= all);
    out
}

/// A reply as it is shown. A grant is not shown: it is for running a command.
pub fn render(response: Response) -> (r: Shown)
    ensures
        r@ == shown_of(response@),
{
    match response {
        Response::Done { message } => Shown {
            stdout: message.concat("\n"),
            stderr: String::new(),
            success: true,
        },
        Response::Status { captures } => Shown {
            stdout: if captures.len() == 0 {
                text::text("no active grants\n")
            } else {
                captures_shown(&captures)
            },
            stderr: String::new(),
            success: true,
        },
        Response::Granted { .. } => Shown {
            stdout: String::new(),
            stderr: text::text("error: unexpected grant outside of run\n"),
            success: false,
        },
        Response::Denied { reason } => Shown {
            stdout: String::new(),
            stderr: text::text("denied: ").concat(reason.as_str()).concat("\n"),
            success: false,
        },
        Response::Error { message } => Shown {
            stdout: String::new(),
            stderr: text::text("error: ").concat(message.as_str()).concat("\n"),
            success: false,
        },
    }
}

// ---------------------------------------------------------------------------
// Running a command

/// What follows the reply to a request to run a command.
#[derive(Debug)]
pub enum Launch {
    /// Run `program` with `args`, with `secrets` in its environment.
    Child { program: String, args: Vec<String>, secrets: Vec<(String, String)> },
    /// Show this; nothing is run.
    Refused { shown: Shown },
}

/// The contents of a [`Launch`].
pub enum LaunchView {
    Child { program: Seq<char>, args: Seq<Seq<char>>, secrets: Listing },
    Refused { shown: ShownView },
}

impl View for Launch {
    type V = LaunchView;

    open spec fn view(&self) -> LaunchView {
        match *self {
            Launch::Child { program, args, secrets } => LaunchView::Child {
                program: program@,
                args: text::texts(args@),
                secrets: text::pairs(secrets@),
            },
            Launch::Refused { shown } => LaunchView::Refused { shown: shown@ },
        }
    }
}

/// What follows the reply to a request to run `argv`.
pub open spec fn launch_of(r: ResponseView, argv: Seq<Seq<char>>) -> LaunchView {
    match r {
        ResponseView::Granted { secrets } => LaunchView::Child {
            program: argv[0],
            args: argv.drop_first(),
            secrets,
        },
        _ => LaunchView::Refused { shown: shown_of(r) },
    }
}

/// What follows the reply to a request to run `argv`: only a grant leads to a
/// child, which gets the released values and no others.
pub fn exec_with_secrets(response: Response, argv: &Vec<String>) -> (r: Launch)
    requires
        response is Granted ==> argv@.len() > 0,
    ensures
        r@ == launch_of(response@, text::texts(argv@)),
{
    match response {
        Response::Granted { secrets } => {
            let ghost all: Seq<Seq<char>> = text::texts(argv@);
            let mut args: Vec<String> = Vec::new();
            let mut i: usize = 1;
            assert(text::texts(args@) =~= all.subrange(1, 1));
            while i < argv.len()
                invariant
                    1 <= i <= argv@.len(),
                    all == text::texts(argv@),
                    text::texts(args@) == all.subrange(1, i as int),
                decreases argv@.len() - i,
            {
                let ghost done: Seq<Seq<char>> = text::texts(args@);
                args.push(argv[i].clone());
                proof {
                    assert(text::texts(args@) =~= done.push(all[i as int]));
                    assert(all.subrange(1, i + 1) =~= done.push(all[i as int]));
                }
                i = i + 1;
            }
            assert(all.subrange(1, i as int) =~= all.drop_first());
            Launch::Child { program: argv[0].clone(), args, secrets }
        },
        other => Launch::Refused { shown: render(other) },
    }
}

/// What a finished child leads to.
#[derive(Debug)]
pub struct Finished {
    pub stdout: String,
    pub stderr: String,
    pub code: u8,
}

/// The exit code that is handed on: that of the child where it has one that
/// fits, otherwise failure.
pub open spec fn exit_code_of(code: Option<i32>) -> u8 {
    match code {
        Some(c) => if 0 <= c <= 255 {
            c as u8
        } else {
            1
        },
        None => 1,
    }
}

/// What a finished child leads to: its output without the secret values, and
/// its exit code.
pub fn finished(
    stdout: &[u8],
    stderr: &[u8],
    code: Option<i32>,
    secrets: &Vec<(String, String)>,
) -> (r: Finished)
    ensures
        r.stdout@ == redaction::redacted(
            text::lossy(stdout@),
            redaction::values_in(text::pairs(secrets@)),
        ),
        r.stderr@ == redaction::redacted(
            text::lossy(stderr@),
            redaction::values_in(text::pairs(secrets@)),
        ),
        r.code == exit_code_of(code),
        valid_utf8(stdout@) ==> r.stdout@ == redaction::redacted(
            decode_utf8(stdout@),
            redaction::values_in(text::pairs(secrets@)),
        ),
        valid_utf8(stderr@) ==> r.stderr@ == redaction::redacted(
            decode_utf8(stderr@),
            redaction::values_in(text::pairs(secrets@)),
        ),
{
    Finished {
        stdout: redaction::redact(text::lossy_text(stdout), secrets),
        stderr: redaction::redact(text::lossy_text(stderr), secrets),
        code: match code {
            Some(c) => if 0 <= c && c <= 255 {
                c as u8
            } else {
                1
            },
            None => 1,
        },
    }
}

// ---------------------------------------------------------------------------
// What the client says when something fails

/// The message for a daemon that cannot be reached at `path`.
pub fn unreachable_daemon(path: &FilePath) -> (r: String)
    ensures
        r@ == "cannot reach daemon at "@ + text::lossy(path@) + " (is sxd running?)"@,
{
    text::text("cannot reach daemon at ").concat(path.display().as_str()).concat(
        " (is sxd running?)",
    )
}

/// The message for a reply that is none.
pub fn bad_response(line: &str) -> (r: String)
    ensures
        r@ == "bad response from daemon: "@ + text::quoted(line@),
{
    text::text("bad response from daemon: ").concat(text::quote(line).as_str())
}

// ---------------------------------------------------------------------------
// What holds of every command line and every reply

/// A command line becomes the request that it spells, with all that it names;
/// `--aws-profile` names the key of the profile to clear. One that names no
/// source fails, and the daemon is not asked.
pub proof fn a_command_line_asks_for_what_it_says(
    path: Option<Seq<char>>,
    profile: Seq<char>,
    env: Seq<Seq<char>>,
    aws_profile: Seq<Seq<char>>,
    grant_all: bool,
    argv: Seq<Seq<char>>,
    lease: Option<u64>,
    targets: Targets,
    print: bool,
)
    ensures
        plan_of(CommandView::Clear { path, aws_profile: None }) == (PlanView::Show {
            request: RequestView::Clear { path },
        }),
        plan_of(CommandView::Clear { path, aws_profile: Some(profile) }) == (PlanView::Show {
            request: RequestView::Clear { path: Some("aws:"@ + profile) },
        }),
        plan_of(CommandView::Status) == (PlanView::Show { request: RequestView::Status }),
        plan_of(CommandView::List) == (PlanView::Show { request: RequestView::Status }),
        plan_of(CommandView::InstallSkill { targets, print }) == (PlanView::InstallSkill {
            targets,
            print,
        }),
        plan_of(CommandView::UninstallSkill { targets }) == (PlanView::UninstallSkill { targets }),
        env.len() > 0 || aws_profile.len() > 0 ==> {
            &&& plan_of(CommandView::GrantAll { env, aws_profile, lease }) == (PlanView::Show {
                request: RequestView::GrantAll {
                    env,
                    aws_profiles: aws_profile,
                    lease_secs: lease,
                },
            })
            &&& plan_of(CommandView::Run { env, aws_profile, grant_all, argv }) == (
            PlanView::Exec {
                request: RequestView::Run { env, aws_profiles: aws_profile, argv, grant_all },
                argv,
            })
        },
        env.len() == 0 && aws_profile.len() == 0 ==> {
            &&& plan_of(CommandView::GrantAll { env, aws_profile, lease }) == (PlanView::Fail {
                message: "grant-all requires at least one --env <path> or --aws-profile <profile>"@,
            })
            &&& plan_of(CommandView::Run { env, aws_profile, grant_all, argv }) == (
            PlanView::Fail {
                message: "run requires at least one --env <path> or --aws-profile <profile>"@,
            })
        },
{
}

/// A success is shown on stdout, a refusal or an error on stderr, each with its
/// text and nothing else; only the first two kinds of reply succeed, and a grant
/// shows no value.
pub proof fn a_reply_is_shown_where_it_belongs(text: Seq<char>, secrets: Listing)
    ensures
        shown_of(ResponseView::Done { message: text }) == (ShownView {
            stdout: text + "\n"@,
            stderr: Seq::empty(),
            success: true,
        }),
        shown_of(ResponseView::Denied { reason: text }) == (ShownView {
            stdout: Seq::empty(),
            stderr: "denied: "@ + text + "\n"@,
            success: false,
        }),
        shown_of(ResponseView::Error { message: text }) == (ShownView {
            stdout: Seq::empty(),
            stderr: "error: "@ + text + "\n"@,
            success: false,
        }),
        shown_of(ResponseView::Granted { secrets }) == (ShownView {
            stdout: Seq::empty(),
            stderr: "error: unexpected grant outside of run\n"@,
            success: false,
        }),
        shown_of(ResponseView::Status { captures: Seq::empty() }) == (ShownView {
            stdout: "no active grants\n"@,
            stderr: Seq::empty(),
            success: true,
        }),
{
}

/// What a status shows on stdout.
pub open spec fn status_text(captures: Seq<CaptureView>) -> Seq<char> {
    shown_of(ResponseView::Status { captures }).stdout
}

proof fn captures_of_both(a: Seq<CaptureView>, b: Seq<CaptureView>)
    ensures
        captures_text(a + b) == captures_text(a) + captures_text(b),
    decreases b.len(),
{
    if b.len() == 0 {
        assert(a + b =~= a);
        assert(captures_text(a) + captures_text(b) =~= captures_text(a));
    } else {
        assert((a + b).drop_last() =~= a + b.drop_last());
        captures_of_both(a, b.drop_last());
        assert(captures_text(a + b) =~= captures_text(a) + captures_text(b));
    }
}

/// A status shows every grant, one after the other, on stdout, and succeeds.
pub proof fn every_grant_is_shown(a: Seq<CaptureView>, b: Seq<CaptureView>)
    requires
        a.len() > 0,
        b.len() > 0,
    ensures
        status_text(a + b) == status_text(a) + status_text(b),
        shown_of(ResponseView::Status { captures: a }).success,
        shown_of(ResponseView::Status { captures: a }).stderr.len() == 0,
{
    captures_of_both(a, b);
}

/// A grant is shown by its source, the whole minutes that are left of its lease,
/// its mode, and then each of its names on a line of its own.
pub proof fn a_grant_is_shown_with_all_its_names(c: CaptureView, name: Seq<char>)
    ensures
        c.names.len() == 0 ==> status_text(seq![c]) == c.source + " (expires in "@ + text::decimal(
            (c.expires_in_secs / 60) as nat,
        ) + "m)"@ + (if c.allow_all {
            " [allow-all]"@
        } else {
            " [confirm each command]"@
        }) + "\n"@,
        status_text(seq![CaptureView { names: c.names.push(name), ..c }]) == status_text(seq![c])
            + "  "@ + name + "\n"@,
{
    let longer = CaptureView { names: c.names.push(name), ..c };
    let none: Seq<CaptureView> = Seq::empty();
    reveal_with_fuel(captures_text, 2);
    assert(seq![c].drop_last() =~= none);
    assert(seq![longer].drop_last() =~= none);
    assert(longer.names.drop_last() =~= c.names);
    let nothing: Seq<char> = Seq::empty();
    assert(nothing + capture_text(c) =~= capture_text(c));
    assert(nothing + capture_text(longer) =~= capture_text(longer));
    let head = c.source + " (expires in "@ + text::decimal((c.expires_in_secs / 60) as nat) + "m)"@
        + mode_text(c.allow_all) + "\n"@;
    assert(head + nothing =~= head);
    assert(capture_text(longer) =~= capture_text(c) + "  "@ + name + "\n"@);
}

/// A grant runs the command that was asked for, with all its arguments and
/// exactly the values that were released; any other reply runs nothing and is
/// shown.
pub proof fn a_grant_runs_the_command(r: ResponseView, argv: Seq<Seq<char>>)
    requires
        argv.len() > 0,
    ensures
        r matches ResponseView::Granted { secrets } ==> (launch_of(r, argv) matches
            LaunchView::Child { program, args, secrets: s } && seq![program] + args == argv && s
            == secrets),
        !(r is Granted) ==> launch_of(r, argv) == (LaunchView::Refused { shown: shown_of(r) }),
{
    assert(seq![argv[0]] + argv.drop_first() =~= argv);
}

/// An exit code of the child is handed on; where it has none that fits, the
/// command has failed.
pub proof fn the_exit_code_is_handed_on(code: i32)
    ensures
        0 <= code <= 255 ==> exit_code_of(Some(code)) as int == code,
        code < 0 || code > 255 ==> exit_code_of(Some(code)) == 1,
        exit_code_of(None) == 1,
{
}

} // verus!
