//! Self-installation as a per-user auto-start service.
//!
//! On macOS this is a LaunchAgent: `sxd` shows prompts, which needs the user's
//! GUI session, and it must run as the user. Elsewhere there is none yet.

use vstd::prelude::*;
use vstd::string::*;
use vstd::utf8::*;

use crate::config;
use crate::paths;
use crate::paths::FilePath;
use crate::peer::Platform;
use crate::text;

verus! {

/// launchd / service label.
pub const LABEL: &'static str = "dev.sx.sxd";

/// One thing to do for an installation or a removal, in order.
#[derive(Debug)]
pub enum Act {
    /// Print this.
    Print { text: String },
    /// Create this directory and those above it.
    CreateDir { path: FilePath },
    /// Write this file.
    Write { path: FilePath, contents: String },
    /// Run `launchctl`; where it is `required`, its failure ends the command.
    Launchctl { args: Vec<String>, required: bool },
    /// Remove this file if it exists.
    Remove { path: FilePath },
}

/// The contents of an [`Act`].
pub enum ActView {
    Print { text: Seq<char> },
    CreateDir { path: Seq<u8> },
    Write { path: Seq<u8>, contents: Seq<char> },
    Launchctl { args: Seq<Seq<char>>, required: bool },
    Remove { path: Seq<u8> },
}

impl View for Act {
    type V = ActView;

    open spec fn view(&self) -> ActView {
        match *self {
            Act::Print { text } => ActView::Print { text: text@ },
            Act::CreateDir { path } => ActView::CreateDir { path: path@ },
            Act::Write { path, contents } => ActView::Write { path: path@, contents: contents@ },
            Act::Launchctl { args, required } => ActView::Launchctl {
                args: text::texts(args@),
                required,
            },
            Act::Remove { path } => ActView::Remove { path: path@ },
        }
    }
}

/// The contents of a list of acts.
pub open spec fn acts_of(v: Seq<Act>) -> Seq<ActView> {
    v.map_values(|a: Act| a@)
}

/// The contents of a list of acts, or of the reason that there is none.
pub open spec fn acts_or_reason(r: Result<Vec<Act>, String>) -> Result<Seq<ActView>, Seq<char>> {
    match r {
        Ok(v) => Ok(acts_of(v@)),
        Err(e) => Err(e@),
    }
}

/// A character as XML text.
pub open spec fn xml_char(c: char) -> Seq<char> {
    if c == '&' {
        "&amp;"@
    } else if c == '<' {
        "&lt;"@
    } else if c == '>' {
        "&gt;"@
    } else {
        seq![c]
    }
}

/// A text as XML text.
pub open spec fn xml_text(s: Seq<char>) -> Seq<char>
    decreases s.len(),
{
    if s.len() == 0 {
        Seq::empty()
    } else {
        xml_text(s.drop_last()) + xml_char(s.last())
    }
}

/// Minimal XML text escaping for values embedded in the plist.
pub fn xml_escape(s: &str) -> (r: String)
    ensures
        r@ == xml_text(s@),
{
    let cs: Vec<char> = text::chars_of(s);
    let mut out: String = String::new();
    let mut i: usize = 0;
    while i < cs.len()
        invariant
            i <= cs@.len(),
            cs@ == s@,
            out@ == xml_text(cs@.take(i as int)),
        decreases cs@.len() - i,
    {
        let c: char = cs[i];
        let ghost done: Seq<char> = out@;
        proof {
            assert(cs@.take(i as int + 1).drop_last() =~= cs@.take(i as int));
        }
        if c == '&' {
            out.append("&amp;");
        } else if c == '<' {
            out.append("&lt;");
        } else if c == '>' {
            out.append("&gt;");
        } else {
            out.push(c);
            assert(out@ =~= done + seq![c]);
        }
        i = i + 1;
    }
    assert(cs@.take(i as int) =~= cs@);
    out
}

/// Escaped text holds no markup.
pub proof fn escaped_text_holds_no_markup(s: Seq<char>)
    ensures
        !xml_text(s).contains('<'),
        !xml_text(s).contains('>'),
    decreases s.len(),
{
    if s.len() > 0 {
        escaped_text_holds_no_markup(s.drop_last());
        reveal_strlit("&amp;");
        reveal_strlit("&lt;");
        reveal_strlit("&gt;");
        let head = xml_text(s.drop_last());
        let tail = xml_char(s.last());
        assert forall|i: int| 0 <= i < xml_text(s).len() implies xml_text(s)[i] != '<'
            && xml_text(s)[i] != '>' by {
            if i < head.len() {
                assert(xml_text(s)[i] == head[i]);
                assert(head.contains(head[i]));
            } else {
                assert(xml_text(s)[i] == tail[i - head.len()]);
            }
        }
    }
}

/// Where the agents of the user are described.
pub open spec fn agents_dir(home: Seq<u8>) -> Seq<u8> {
    paths::under_text(home, "Library/LaunchAgents"@)
}

/// Where the agent is described.
pub open spec fn plist_file(home: Seq<u8>) -> Seq<u8> {
    paths::under_text(agents_dir(home), LABEL@ + ".plist"@)
}

/// The directory of the socket, the log and the config file.
pub open spec fn sx_home(home: Seq<u8>) -> Seq<u8> {
    paths::under_text(home, ".sx"@)
}

/// Where the daemon logs.
pub open spec fn log_file(home: Seq<u8>) -> Seq<u8> {
    paths::under_text(sx_home(home), "sxd.log"@)
}

/// The part of the description that carries a custom socket path.
pub open spec fn env_block(socket: Option<Seq<char>>) -> Seq<char> {
    match socket {
        Some(s) =>
            "    <key>EnvironmentVariables</key>\n    <dict>\n        <key>SX_SOCKET</key>\n        <string>"@
            + xml_text(s) + "</string>\n    </dict>\n"@,
        None => Seq::empty(),
    }
}

/// The description of the agent.
pub open spec fn plist_text(exe: Seq<u8>, log: Seq<u8>, socket: Option<Seq<char>>) -> Seq<char> {
    "<?xml version=\"1.0\" encoding=\"UTF-8\"?>\n<!DOCTYPE plist PUBLIC \"-//Apple//DTD PLIST 1.0//EN\" \"http://www.apple.com/DTDs/PropertyList-1.0.dtd\">\n<plist version=\"1.0\">\n<dict>\n    <key>Label</key>\n    <string>"@
        + LABEL@
        + "</string>\n    <key>ProgramArguments</key>\n    <array>\n        <string>"@
        + xml_text(text::lossy(exe))
        + "</string>\n    </array>\n    <key>RunAtLoad</key>\n    <true/>\n    <key>KeepAlive</key>\n    <true/>\n    <key>ProcessType</key>\n    <string>Interactive</string>\n"@
        + env_block(socket) + "    <key>StandardOutPath</key>\n    <string>"@ + xml_text(
        text::lossy(log),
    ) + "</string>\n    <key>StandardErrorPath</key>\n    <string>"@ + xml_text(text::lossy(log))
        + "</string>\n</dict>\n</plist>\n"@
}

/// The description of the agent. It carries `$SX_SOCKET`, where that is set, so
/// that the daemon and its clients agree on the socket path.
pub fn plist_contents(exe: &FilePath, log: &FilePath, socket: &Option<String>) -> (r: String)
    ensures
        r@ == plist_text(
            exe@,
            log@,
            match socket {
                Some(s) => Some(s@),
                None => None,
            },
        ),
{
    let block: String = match socket {
        Some(s) => text::text(
            "    <key>EnvironmentVariables</key>\n    <dict>\n        <key>SX_SOCKET</key>\n        <string>",
        ).concat(xml_escape(s.as_str()).as_str()).concat("</string>\n    </dict>\n"),
        None => String::new(),
    };
    let out: String = xml_escape(log.display().as_str());
    text::text(
        "<?xml version=\"1.0\" encoding=\"UTF-8\"?>\n<!DOCTYPE plist PUBLIC \"-//Apple//DTD PLIST 1.0//EN\" \"http://www.apple.com/DTDs/PropertyList-1.0.dtd\">\n<plist version=\"1.0\">\n<dict>\n    <key>Label</key>\n    <string>",
    ).concat(LABEL).concat(
        "</string>\n    <key>ProgramArguments</key>\n    <array>\n        <string>",
    ).concat(xml_escape(exe.display().as_str()).as_str()).concat(
        "</string>\n    </array>\n    <key>RunAtLoad</key>\n    <true/>\n    <key>KeepAlive</key>\n    <true/>\n    <key>ProcessType</key>\n    <string>Interactive</string>\n",
    ).concat(block.as_str()).concat("    <key>StandardOutPath</key>\n    <string>").concat(
        out.as_str(),
    ).concat("</string>\n    <key>StandardErrorPath</key>\n    <string>").concat(
        out.as_str(),
    ).concat("</string>\n</dict>\n</plist>\n")
}

/// The launchd domain of a user.
pub open spec fn domain_text(uid: u32) -> Seq<char> {
    "gui/"@ + text::decimal(uid as nat)
}

/// The agent in the launchd domain of a user.
pub open spec fn target_text(uid: u32) -> Seq<char> {
    domain_text(uid) + "/"@ + LABEL@
}

/// What a dry run of the installation prints.
pub open spec fn preview_text(home: Seq<u8>, uid: u32, plist: Seq<char>) -> Seq<char> {
    "# would write "@ + text::lossy(plist_file(home)) + ":\n\n"@ + plist
        + "\n# would run:\nlaunchctl bootout "@ + target_text(uid)
        + "    # (ignore failure)\nlaunchctl bootstrap "@ + domain_text(uid) + " "@ + text::lossy(
        plist_file(home),
    ) + "\nlaunchctl enable "@ + target_text(uid) + "\nlaunchctl kickstart -k "@ + target_text(uid)
        + "\n"@
}

/// What the installation prints at its end.
pub open spec fn installed_text(home: Seq<u8>, uid: u32) -> Seq<char> {
    "Installed LaunchAgent "@ + LABEL@ + "\n  plist: "@ + text::lossy(plist_file(home))
        + "\n  log:   "@ + text::lossy(log_file(home))
        + "\nsxd now starts at login and is running.\nCheck it:  launchctl print "@ + target_text(
        uid,
    ) + "\n"@
}

/// The reason that there is no installation on this platform.
pub open spec fn no_install_text() -> Seq<char> {
    "auto-start install is only implemented on macOS so far (Linux needs a GUI approval gate; run `sxd` manually meanwhile)"@
}

/// The installation of the agent.
pub open spec fn install_acts(
    home: Seq<u8>,
    uid: u32,
    plist: Seq<char>,
    dry_run: bool,
) -> Seq<ActView> {
    if dry_run {
        seq![ActView::Print { text: preview_text(home, uid, plist) }]
    } else {
        seq![
            ActView::CreateDir { path: agents_dir(home) },
            ActView::CreateDir { path: sx_home(home) },
            ActView::Write { path: plist_file(home), contents: plist },
            ActView::Launchctl { args: seq!["bootout"@, target_text(uid)], required: false },
            ActView::Launchctl {
                args: seq!["bootstrap"@, domain_text(uid), text::lossy(plist_file(home))],
                required: true,
            },
            ActView::Launchctl { args: seq!["enable"@, target_text(uid)], required: false },
            ActView::Launchctl {
                args: seq!["kickstart"@, "-k"@, target_text(uid)],
                required: false,
            },
            ActView::Print { text: installed_text(home, uid) },
        ]
    }
}

/// What `sxd install` does: for the path of the program (or the reason that it
/// is unknown), `$HOME`, the user and `$SX_SOCKET`.
pub open spec fn install_of(
    platform: Platform,
    exe: Result<Seq<u8>, Seq<char>>,
    home: Option<Seq<u8>>,
    uid: u32,
    socket: Option<Seq<char>>,
    dry_run: bool,
) -> Result<Seq<ActView>, Seq<char>> {
    if platform == Platform::MacOs {
        match (exe, home) {
            (Err(e), _) => Err(e),
            (Ok(_), None) => Err("$HOME is not set"@),
            (Ok(x), Some(h)) => Ok(
                install_acts(h, uid, plist_text(x, log_file(h), socket), dry_run),
            ),
        }
    } else {
        Err(no_install_text())
    }
}

/// What `sxd uninstall` does.
pub open spec fn uninstall_of(platform: Platform, home: Option<Seq<u8>>, uid: u32) -> Result<
    Seq<ActView>,
    Seq<char>,
> {
    if platform == Platform::MacOs {
        match home {
            None => Err("$HOME is not set"@),
            Some(h) => Ok(
                seq![
                    ActView::Launchctl {
                        args: seq!["bootout"@, target_text(uid)],
                        required: false,
                    },
                    ActView::Remove { path: plist_file(h) },
                    ActView::Print {
                        text: "Removed LaunchAgent "@ + LABEL@ + " ("@ + text::lossy(plist_file(h))
                            + ")\n"@,
                    },
                ],
            ),
        }
    } else {
        Err("auto-start install is only implemented on macOS so far"@)
    }
}

fn domain(uid: u32) -> (r: String)
    ensures
        r@ == domain_text(uid),
{
    text::text("gui/").concat(text::decimal_text(uid as u64).as_str())
}

fn target(uid: u32) -> (r: String)
    ensures
        r@ == target_text(uid),
{
    domain(uid).concat("/").concat(LABEL)
}

fn agents(home: &FilePath) -> (r: FilePath)
    ensures
        r@ == agents_dir(home@),
{
    home.join("Library/LaunchAgents")
}

fn plist_path(home: &FilePath) -> (r: FilePath)
    ensures
        r@ == plist_file(home@),
{
    agents(home).join(text::text(LABEL).concat(".plist").as_str())
}

fn launchctl(first: &str, second: String, third: Option<String>, required: bool) -> (r: Act)
    ensures
        r@ == (ActView::Launchctl {
            args: match third {
                Some(t) => seq![first@, second@, t@],
                None => seq![first@, second@],
            },
            required,
        }),
{
    let mut args: Vec<String> = Vec::new();
    args.push(text::text(first));
    args.push(second);
    match third {
        Some(t) => {
            args.push(t);
            assert(text::texts(args@) =~= seq![first@, second@, t@]);
        },
        None => {
            assert(text::texts(args@) =~= seq![first@, second@]);
        },
    }
    Act::Launchctl { args, required }
}

/// What `sxd install` does: install and start the auto-start service, or, in a
/// dry run, print what would happen. A home directory that is not text cannot
/// be handed to `launchctl`.
pub fn install(
    platform: Platform,
    exe: Result<FilePath, String>,
    home: Option<FilePath>,
    uid: u32,
    socket: Option<String>,
    dry_run: bool,
) -> (r: Result<Vec<Act>, String>)
    requires
        platform == Platform::MacOs && exe is Ok && !dry_run ==> (home matches Some(h)
            ==> valid_utf8(h@)),
    ensures
        acts_or_reason(r) == install_of(
            platform,
            match exe {
                Ok(x) => Ok(x@),
                Err(e) => Err(e@),
            },
            config::opt_path(home),
            uid,
            match socket {
                Some(s) => Some(s@),
                None => None,
            },
            dry_run,
        ),
{
    if platform != Platform::MacOs {
        return Err(
            text::text(
                "auto-start install is only implemented on macOS so far (Linux needs a GUI approval gate; run `sxd` manually meanwhile)",
            ),
        );
    }
    let exe: FilePath = match exe {
        Ok(x) => x,
        Err(e) => {
            return Err(e);
        },
    };
    let home: FilePath = match home {
        Some(h) => h,
        None => {
            return Err(text::text("$HOME is not set"));
        },
    };
    let sx_dir: FilePath = home.join(".sx");
    let log: FilePath = sx_dir.join("sxd.log");
    let plist: FilePath = plist_path(&home);
    let shown: String = plist.display();
    let contents: String = plist_contents(&exe, &log, &socket);
    let mut out: Vec<Act> = Vec::new();
    if dry_run {
        out.push(
            Act::Print {
                text: text::text("# would write ").concat(shown.as_str()).concat(":\n\n").concat(
                    contents.as_str(),
                ).concat("\n# would run:\nlaunchctl bootout ").concat(
                    target(uid).as_str(),
                ).concat("    # (ignore failure)\nlaunchctl bootstrap ").concat(
                    domain(uid).as_str(),
                ).concat(" ").concat(shown.as_str()).concat("\nlaunchctl enable ").concat(
                    target(uid).as_str(),
                ).concat("\nlaunchctl kickstart -k ").concat(target(uid).as_str()).concat("\n"),
            },
        );
        assert(acts_of(out@) =~= install_acts(home@, uid, contents@, dry_run));
        return Ok(out);
    }
    let done: String = text::text("Installed LaunchAgent ").concat(LABEL).concat(
        "\n  plist: ",
    ).concat(shown.as_str()).concat("\n  log:   ").concat(log.display().as_str()).concat(
        "\nsxd now starts at login and is running.\nCheck it:  launchctl print ",
    ).concat(target(uid).as_str()).concat("\n");
    let ghost written: Seq<char> = contents@;
    out.push(Act::CreateDir { path: agents(&home) });
    out.push(Act::CreateDir { path: sx_dir });
    out.push(Act::Write { path: plist, contents });
    out.push(launchctl("bootout", target(uid), None, false));
    out.push(launchctl("bootstrap", domain(uid), Some(shown), true));
    out.push(launchctl("enable", target(uid), None, false));
    out.push(launchctl("kickstart", text::text("-k"), Some(target(uid)), false));
    out.push(Act::Print { text: done });
    assert(acts_of(out@) =~= install_acts(home@, uid, written, dry_run));
    Ok(out)
}

/// What `sxd uninstall` does: stop and remove the auto-start service.
pub fn uninstall(platform: Platform, home: Option<FilePath>, uid: u32) -> (r: Result<
    Vec<Act>,
    String,
>)
    ensures
        acts_or_reason(r) == uninstall_of(platform, config::opt_path(home), uid),
{
    if platform != Platform::MacOs {
        return Err(text::text("auto-start install is only implemented on macOS so far"));
    }
    match home {
        Some(h) => {
            let plist: FilePath = plist_path(&h);
            let last: String = text::text("Removed LaunchAgent ").concat(LABEL).concat(
                " (",
            ).concat(plist.display().as_str()).concat(")\n");
            let mut out: Vec<Act> = Vec::new();
            out.push(launchctl("bootout", target(uid), None, false));
            out.push(Act::Remove { path: plist });
            out.push(Act::Print { text: last });
            assert(acts_of(out@) =~= uninstall_of(platform, Some(h@), uid)->Ok_0);
            Ok(out)
        },
        None => Err(text::text("$HOME is not set")),
    }
}

/// The message for a required `launchctl` call that failed, for the text of its
/// exit status.
pub fn launchctl_failed(status: &str) -> (r: String)
    ensures
        r@ == "launchctl failed: "@ + status@,
{
    text::text("launchctl failed: ").concat(status)
}

/// A dry run changes nothing.
pub proof fn dry_run_only_prints(home: Seq<u8>, uid: u32, plist: Seq<char>)
    ensures
        forall|i: int|
            0 <= i < install_acts(home, uid, plist, true).len() ==> (#[trigger] install_acts(
                home,
                uid,
                plist,
                true,
            )[i]) is Print,
{
}

// ---------------------------------------------------------------------------
// What holds of every installation

/// Escaping goes character by character: the three that are markup are named,
/// every other stays.
pub proof fn escaping_goes_by_character(s: Seq<char>, c: char)
    ensures
        xml_text(Seq::empty()) == Seq::<char>::empty(),
        xml_text(s.push(c)) == xml_text(s) + (if c == '&' {
            "&amp;"@
        } else if c == '<' {
            "&lt;"@
        } else if c == '>' {
            "&gt;"@
        } else {
            seq![c]
        }),
{
    assert(s.push(c).drop_last() =~= s);
}

/// The description names the program, and the log for both of its outputs, as
/// XML text, with what makes launchd start it at login and keep it alive. It
/// carries the socket path where one is set, and no environment otherwise.
pub proof fn the_description_names_the_program(
    exe: Seq<u8>,
    log: Seq<u8>,
    socket: Option<Seq<char>>,
)
    ensures
        ({
            let program = xml_text(text::lossy(exe));
            let out = xml_text(text::lossy(log));
            let head =
                "<?xml version=\"1.0\" encoding=\"UTF-8\"?>\n<!DOCTYPE plist PUBLIC \"-//Apple//DTD PLIST 1.0//EN\" \"http://www.apple.com/DTDs/PropertyList-1.0.dtd\">\n<plist version=\"1.0\">\n<dict>\n    <key>Label</key>\n    <string>"@
                + "dev.sx.sxd"@
                + "</string>\n    <key>ProgramArguments</key>\n    <array>\n        <string>"@
                + program
                + "</string>\n    </array>\n    <key>RunAtLoad</key>\n    <true/>\n    <key>KeepAlive</key>\n    <true/>\n    <key>ProcessType</key>\n    <string>Interactive</string>\n"@;
            let foot = "    <key>StandardOutPath</key>\n    <string>"@ + out
                + "</string>\n    <key>StandardErrorPath</key>\n    <string>"@ + out
                + "</string>\n</dict>\n</plist>\n"@;
            plist_text(exe, log, socket) == match socket {
                Some(s) => head
                    + ("    <key>EnvironmentVariables</key>\n    <dict>\n        <key>SX_SOCKET</key>\n        <string>"@
                    + xml_text(s) + "</string>\n    </dict>\n"@) + foot,
                None => head + foot,
            }
        }),
{
    let program = xml_text(text::lossy(exe));
    let out = xml_text(text::lossy(log));
    let head =
        "<?xml version=\"1.0\" encoding=\"UTF-8\"?>\n<!DOCTYPE plist PUBLIC \"-//Apple//DTD PLIST 1.0//EN\" \"http://www.apple.com/DTDs/PropertyList-1.0.dtd\">\n<plist version=\"1.0\">\n<dict>\n    <key>Label</key>\n    <string>"@
        + "dev.sx.sxd"@ + "</string>\n    <key>ProgramArguments</key>\n    <array>\n        <string>"@
        + program
        + "</string>\n    </array>\n    <key>RunAtLoad</key>\n    <true/>\n    <key>KeepAlive</key>\n    <true/>\n    <key>ProcessType</key>\n    <string>Interactive</string>\n"@;
    let foot = "    <key>StandardOutPath</key>\n    <string>"@ + out
        + "</string>\n    <key>StandardErrorPath</key>\n    <string>"@ + out
        + "</string>\n</dict>\n</plist>\n"@;
    assert(plist_text(exe, log, socket) =~= head + env_block(socket) + foot);
    assert(head + Seq::<char>::empty() =~= head);
}

/// What an installation does, in order: it makes the directories, writes the
/// description, and has launchd load that file and start what it describes; only
/// the loading has to succeed. A removal unloads the same agent and removes the
/// same file.
pub proof fn what_is_installed_is_what_is_removed(
    exe: Seq<u8>,
    home: Seq<u8>,
    uid: u32,
    socket: Option<Seq<char>>,
)
    ensures
        ({
            let dir = paths::under_text(home, "Library/LaunchAgents"@);
            let sx = paths::under_text(home, ".sx"@);
            let log = paths::under_text(sx, "sxd.log"@);
            let file = paths::under_text(dir, "dev.sx.sxd"@ + ".plist"@);
            let domain = "gui/"@ + text::decimal(uid as nat);
            let agent = domain + "/"@ + "dev.sx.sxd"@;
            let installed = install_of(Platform::MacOs, Ok(exe), Some(home), uid, socket, false);
            let removed = uninstall_of(Platform::MacOs, Some(home), uid);
            &&& installed matches Ok(acts) && acts == seq![
                ActView::CreateDir { path: dir },
                ActView::CreateDir { path: sx },
                ActView::Write { path: file, contents: plist_text(exe, log, socket) },
                ActView::Launchctl { args: seq!["bootout"@, agent], required: false },
                ActView::Launchctl {
                    args: seq!["bootstrap"@, domain, text::lossy(file)],
                    required: true,
                },
                ActView::Launchctl { args: seq!["enable"@, agent], required: false },
                ActView::Launchctl { args: seq!["kickstart"@, "-k"@, agent], required: false },
                ActView::Print {
                    text: "Installed LaunchAgent "@ + "dev.sx.sxd"@ + "\n  plist: "@ + text::lossy(
                        file,
                    ) + "\n  log:   "@ + text::lossy(log)
                        + "\nsxd now starts at login and is running.\nCheck it:  launchctl print "@
                        + agent + "\n"@,
                },
            ]
            &&& removed matches Ok(acts) && acts == seq![
                ActView::Launchctl { args: seq!["bootout"@, agent], required: false },
                ActView::Remove { path: file },
                ActView::Print {
                    text: "Removed LaunchAgent "@ + "dev.sx.sxd"@ + " ("@ + text::lossy(file)
                        + ")\n"@,
                },
            ]
        }),
{
}

/// A dry run of the installation prints the description, the file it would be
/// written to and the calls of launchd, and does nothing else.
pub proof fn a_dry_run_shows_what_would_be_done(
    exe: Seq<u8>,
    home: Seq<u8>,
    uid: u32,
    socket: Option<Seq<char>>,
)
    ensures
        ({
            let dir = paths::under_text(home, "Library/LaunchAgents"@);
            let log = paths::under_text(paths::under_text(home, ".sx"@), "sxd.log"@);
            let file = text::lossy(paths::under_text(dir, "dev.sx.sxd"@ + ".plist"@));
            let domain = "gui/"@ + text::decimal(uid as nat);
            let agent = domain + "/"@ + "dev.sx.sxd"@;
            install_of(Platform::MacOs, Ok(exe), Some(home), uid, socket, true) matches Ok(acts)
                && acts == seq![
                ActView::Print {
                    text: "# would write "@ + file + ":\n\n"@ + plist_text(exe, log, socket)
                        + "\n# would run:\nlaunchctl bootout "@ + agent
                        + "    # (ignore failure)\nlaunchctl bootstrap "@ + domain + " "@ + file
                        + "\nlaunchctl enable "@ + agent + "\nlaunchctl kickstart -k "@ + agent
                        + "\n"@,
                },
            ]
        }),
{
}

/// Where there is nothing to install, or it is not known where, nothing is done:
/// the reason is given instead.
pub proof fn no_installation_without_its_place(
    platform: Platform,
    exe: Result<Seq<u8>, Seq<char>>,
    home: Option<Seq<u8>>,
    uid: u32,
    socket: Option<Seq<char>>,
    dry_run: bool,
)
    ensures
        ({
            let installed = install_of(platform, exe, home, uid, socket, dry_run);
            let removed = uninstall_of(platform, home, uid);
            &&& installed is Ok <==> platform == Platform::MacOs && exe is Ok && home is Some
            &&& removed is Ok <==> platform == Platform::MacOs && home is Some
            &&& platform != Platform::MacOs ==> {
                &&& installed == Err::<Seq<ActView>, Seq<char>>(
                    "auto-start install is only implemented on macOS so far (Linux needs a GUI approval gate; run `sxd` manually meanwhile)"@,
                )
                &&& removed == Err::<Seq<ActView>, Seq<char>>(
                    "auto-start install is only implemented on macOS so far"@,
                )
            }
            &&& platform == Platform::MacOs && exe is Err ==> installed == Err::<
                Seq<ActView>,
                Seq<char>,
            >(exe->Err_0)
            &&& platform == Platform::MacOs && home is None ==> removed == Err::<
                Seq<ActView>,
                Seq<char>,
            >("$HOME is not set"@)
            &&& platform == Platform::MacOs && exe is Ok && home is None ==> installed == Err::<
                Seq<ActView>,
                Seq<char>,
            >("$HOME is not set"@)
        }),
{
}

} // verus!
