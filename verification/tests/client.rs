use sx::args::{invocation, GateChoice, Invocation};
use sx::client::{
    bad_response, exec_with_secrets, finished, plan, render, unreachable_daemon, Command, Launch,
    Plan,
};
use sx::gate::{AllowAllGate, ApprovalGate, CliGate, TouchIdGate};
use sx::paths::FilePath;
use sx::peer::{path_in_buffer, Lookup, Peer, Platform};
use sx::proto::{frame, socket_path, CaptureInfo, Request, Response, SOCKET_ENV};
use sx::redaction::{redact, PLACEHOLDER};
use sx::service;
use sx::skill;
use sx::skill::{Agent, Agents, Targets};
use sx::text;

fn strings(v: &[&str]) -> Vec<String> {
    v.iter().map(|s| s.to_string()).collect()
}

fn secrets(v: &[&str]) -> Vec<(String, String)> {
    v.iter().enumerate().map(|(i, x)| (format!("N{i}"), x.to_string())).collect()
}

fn path_text(p: &FilePath) -> String {
    String::from_utf8(p.as_bytes().to_vec()).unwrap()
}

#[test]
fn every_value_is_redacted() {
    let out = redact("token=abc123, again abc123!".to_string(), &secrets(&["abc123"]));
    assert_eq!(out, "token=‹redacted›, again ‹redacted›!");
    assert_eq!(PLACEHOLDER, "‹redacted›");
}

#[test]
fn empty_values_are_left_out() {
    assert_eq!(redact("abc".to_string(), &secrets(&["", "b"])), "a‹redacted›c");
    assert_eq!(redact("abc".to_string(), &[].to_vec()), "abc");
}

#[test]
fn values_are_replaced_in_order_and_without_overlaps() {
    for (s, v) in [
        ("aaaa", &["aa"][..]),
        ("aaa", &["aa"]),
        ("secretsecret", &["secret", "secrets"]),
        ("xyxyx", &["xyx", "y"]),
        ("one two", &["one two", "one"]),
        ("d", &["d", "red"]),
        ("\u{e9}\u{1f600}x", &["\u{1f600}"]),
    ] {
        let mut expected = s.to_string();
        for value in v {
            expected = expected.replace(value, "‹redacted›");
        }
        assert_eq!(redact(s.to_string(), &secrets(v)), expected);
    }
}

#[test]
fn no_ordinary_value_survives() {
    let values = ["s3cr3t", "acted on", "tcader", "d‚", "redactedx"];
    let text = "s3cr3t acted on s3cr3ts3cr3t tcader red‹acted on› redactedx";
    let out = redact(text.to_string(), &secrets(&values));
    for v in values {
        assert!(!out.contains(v), "{v} in {out}");
    }
}

#[test]
fn a_value_inside_the_placeholder_can_show_in_it() {
    assert_eq!(redact("red".to_string(), &secrets(&["red"])), "‹redacted›");
}

#[test]
fn a_finished_child_is_shown_without_its_secrets() {
    let f = finished(b"key=abc\xff\n", b"warn abc\n", Some(3), &secrets(&["abc"]));
    assert_eq!(f.stdout, "key=‹redacted›\u{fffd}\n");
    assert_eq!(f.stderr, "warn ‹redacted›\n");
    assert_eq!(f.code, 3);
}

#[test]
fn exit_codes_are_handed_on_where_they_fit() {
    for (code, expected) in
        [(None, 1), (Some(0), 0), (Some(255), 255), (Some(256), 1), (Some(-1), 1)]
    {
        assert_eq!(finished(b"", b"", code, &Vec::new()).code, expected);
    }
}

#[test]
fn a_grant_leads_to_a_child() {
    let r = Response::Granted { secrets: secrets(&["v"]) };
    match exec_with_secrets(r, &strings(&["gh", "pr", "list"])) {
        Launch::Child { program, args, secrets: s } => {
            assert_eq!(program, "gh");
            assert_eq!(args, ["pr", "list"]);
            assert_eq!(s, secrets(&["v"]));
        }
        other => panic!("unexpected {other:?}"),
    }
    match exec_with_secrets(Response::Denied { reason: "no".to_string() }, &Vec::new()) {
        Launch::Refused { shown } => {
            assert_eq!(shown.stderr, "denied: no\n");
            assert_eq!(shown.stdout, "");
            assert!(!shown.success);
        }
        other => panic!("unexpected {other:?}"),
    }
}

#[test]
fn replies_are_shown() {
    let ok = render(Response::Done { message: "cleared 1 grant(s)".to_string() });
    assert_eq!((ok.stdout.as_str(), ok.stderr.as_str(), ok.success), ("cleared 1 grant(s)\n", "", true));
    let e = render(Response::Error { message: "x".to_string() });
    assert_eq!((e.stdout.as_str(), e.stderr.as_str(), e.success), ("", "error: x\n", false));
    let g = render(Response::Granted { secrets: secrets(&["v"]) });
    assert_eq!(g.stderr, "error: unexpected grant outside of run\n");
    assert_eq!(g.stdout, "");
    assert!(!g.success);
    let none = render(Response::Status { captures: Vec::new() });
    assert_eq!(none.stdout, "no active grants\n");
    assert!(none.success);
}

#[test]
fn grants_are_listed_with_their_names() {
    let captures = vec![
        CaptureInfo {
            source: "/w/.env".to_string(),
            names: strings(&["A", "B"]),
            expires_in_secs: 3599,
            allow_all: false,
        },
        CaptureInfo {
            source: "aws:prod".to_string(),
            names: Vec::new(),
            expires_in_secs: 59,
            allow_all: true,
        },
    ];
    assert_eq!(
        render(Response::Status { captures }).stdout,
        "/w/.env (expires in 59m) [confirm each command]\n  A\n  B\naws:prod (expires in 0m) [allow-all]\n"
    );
}

#[test]
fn command_lines_become_requests() {
    match plan(Command::Clear { path: Some("p".to_string()), aws_profile: Some("x".to_string()) }) {
        Plan::Show { request: Request::Clear { path } } => assert_eq!(path.unwrap(), "aws:x"),
        other => panic!("unexpected {other:?}"),
    }
    match plan(Command::Clear { path: Some(".env".to_string()), aws_profile: None }) {
        Plan::Show { request: Request::Clear { path } } => assert_eq!(path.unwrap(), ".env"),
        other => panic!("unexpected {other:?}"),
    }
    assert!(matches!(
        plan(Command::Clear { path: None, aws_profile: None }),
        Plan::Show { request: Request::Clear { path: None } }
    ));
    assert!(matches!(plan(Command::Status), Plan::Show { request: Request::Status }));
    assert!(matches!(plan(Command::List), Plan::Show { request: Request::Status }));
    let targets = Targets { claude: true, codex: false, pi: false };
    assert!(matches!(
        plan(Command::InstallSkill { targets, print: true }),
        Plan::InstallSkill { print: true, targets: Targets { claude: true, codex: false, pi: false } }
    ));
    assert!(matches!(plan(Command::UninstallSkill { targets }), Plan::UninstallSkill { .. }));
    match plan(Command::GrantAll {
        env: strings(&["a"]),
        aws_profile: strings(&["b"]),
        lease: Some(9),
    }) {
        Plan::Show { request: Request::GrantAll { env, aws_profiles, lease_secs } } => {
            assert_eq!(env, ["a"]);
            assert_eq!(aws_profiles, ["b"]);
            assert_eq!(lease_secs, Some(9));
        }
        other => panic!("unexpected {other:?}"),
    }
    match plan(Command::Run {
        env: strings(&["a"]),
        aws_profile: vec![],
        grant_all: true,
        argv: strings(&["ls", "-l"]),
    }) {
        Plan::Exec { request: Request::Run { env, aws_profiles, argv, grant_all }, argv: own } => {
            assert_eq!(env, ["a"]);
            assert!(aws_profiles.is_empty());
            assert_eq!(argv, ["ls", "-l"]);
            assert_eq!(own, ["ls", "-l"]);
            assert!(grant_all);
        }
        other => panic!("unexpected {other:?}"),
    }
}

#[test]
fn a_source_is_required() {
    match plan(Command::Run {
        env: vec![],
        aws_profile: vec![],
        grant_all: false,
        argv: strings(&["ls"]),
    }) {
        Plan::Fail { message } => assert_eq!(
            message,
            "run requires at least one --env <path> or --aws-profile <profile>"
        ),
        other => panic!("unexpected {other:?}"),
    }
    match plan(Command::GrantAll { env: vec![], aws_profile: vec![], lease: None }) {
        Plan::Fail { message } => assert_eq!(
            message,
            "grant-all requires at least one --env <path> or --aws-profile <profile>"
        ),
        other => panic!("unexpected {other:?}"),
    }
}

#[test]
fn failures_to_talk_are_explained() {
    assert_eq!(
        unreachable_daemon(&FilePath::from_text("/s")),
        "cannot reach daemon at /s (is sxd running?)"
    );
    assert_eq!(bad_response("a\"\n"), "bad response from daemon: \"a\\\"\\n\"");
}

#[test]
fn the_socket_path_follows_the_environment() {
    assert_eq!(SOCKET_ENV, "SX_SOCKET");
    let s = |a: Option<&str>, b: Option<&str>| {
        path_text(&socket_path(a.map(str::to_string), b.map(str::to_string)))
    };
    assert_eq!(s(Some("/x/s"), Some("/home/u")), "/x/s");
    assert_eq!(s(None, Some("/home/u")), "/home/u/.sx/sxd.sock");
    assert_eq!(s(None, None), "/tmp/.sx/sxd.sock");
}

#[test]
fn messages_are_framed_by_a_newline() {
    assert_eq!(frame(b"{}".to_vec()), b"{}\n");
}

#[test]
fn the_terminal_shows_the_prompt_in_a_frame() {
    assert_eq!(
        CliGate.question("Run command:\n  ls\r\nwith x"),
        "\n┌─ sx approval ─────────────────────────────\n│ Run command:\n│   ls\n│ with x\n└─ approve? [y/N] "
    );
}

#[test]
fn only_yes_approves() {
    for line in ["y", "Y\n", " yes \r\n", "YeS"] {
        assert!(CliGate.answer(Some(line.to_string())), "{line:?}");
    }
    for line in ["", "\n", "n", "yy", "yes please", "ye", "\u{ff59}"] {
        assert!(!CliGate.answer(Some(line.to_string())), "{line:?}");
    }
    assert!(!CliGate.answer(None));
}

struct Never;

impl ApprovalGate for Never {
    fn approve(&self, _prompt: &str) -> bool {
        false
    }
}

#[test]
fn the_sheet_decides_and_falls_back_only_if_it_cannot() {
    let yes = TouchIdGate::new(AllowAllGate);
    let no = TouchIdGate::new(Never);
    assert!(no.decide(1, "p"));
    assert!(!yes.decide(0, "p"));
    assert!(yes.decide(-1, "p"));
    assert!(!no.decide(-1, "p"));
    assert!(yes.decide(7, "p"));
    assert_eq!(yes.reason("Run:\n  ls \nwith x").unwrap(), "Run: — ls — with x");
    assert!(yes.reason("a\0b").is_none());
}

#[test]
fn the_working_directory_is_looked_up_by_pid() {
    let peer = Peer { uid: 1, pid: 42 };
    match peer.cwd(Platform::Linux) {
        Lookup::Link { path } => assert_eq!(path_text(&path), "/proc/42/cwd"),
        other => panic!("unexpected {other:?}"),
    }
    assert!(matches!(peer.cwd(Platform::MacOs), Lookup::Process { pid: 42 }));
    match peer.cwd(Platform::Other) {
        Lookup::Unsupported { message } => {
            assert_eq!(message, "peer cwd derivation not supported on this platform")
        }
        other => panic!("unexpected {other:?}"),
    }
    match (Peer { uid: 1, pid: i32::MIN }).cwd(Platform::Linux) {
        Lookup::Link { path } => assert_eq!(path_text(&path), "/proc/-2147483648/cwd"),
        other => panic!("unexpected {other:?}"),
    }
    assert_eq!(path_in_buffer(b"/a/b\0junk\0").as_bytes(), b"/a/b");
    assert_eq!(path_in_buffer(b"/a").as_bytes(), b"/a");
    assert_eq!(path_in_buffer(b"").as_bytes(), b"");
}

#[test]
fn credentials_need_both_ids() {
    let p = Peer::from_stream(Ok(5), Ok(6)).unwrap();
    assert_eq!((p.uid, p.pid), (5, 6));
    assert_eq!(Peer::from_stream(Ok(5), Err("pid".to_string())).unwrap_err(), "pid");
    assert_eq!(
        Peer::from_stream(Err("uid".to_string()), Err("pid".to_string())).unwrap_err(),
        "uid"
    );
}

#[test]
fn daemon_options_are_read_in_order() {
    let parse = |v: &[&str]| invocation(&strings(v));
    assert!(matches!(parse(&["install"]), Invocation::Install { dry_run: false }));
    assert!(matches!(parse(&["install", "x", "--print"]), Invocation::Install { dry_run: true }));
    assert!(matches!(parse(&["setup", "--dry-run"]), Invocation::Setup { dry_run: true }));
    assert!(matches!(parse(&["uninstall"]), Invocation::Uninstall));
    assert!(matches!(
        parse(&[]),
        Invocation::Serve { socket: None, gate: GateChoice::Platform }
    ));
    match parse(&["--socket", "a", "--cli-gate", "--socket", "b", "--no-gate"]) {
        Invocation::Serve { socket, gate } => {
            assert_eq!(socket.unwrap(), "b");
            assert_eq!(gate, GateChoice::AllowAll);
        }
        other => panic!("unexpected {other:?}"),
    }
    assert!(matches!(parse(&["--no-gate", "-h", "bad"]), Invocation::Help));
    match parse(&["--cli-gate", "--socket"]) {
        Invocation::Fail { message } => assert_eq!(message, "--socket needs a value"),
        other => panic!("unexpected {other:?}"),
    }
    match parse(&["bad", "--help"]) {
        Invocation::Fail { message } => assert_eq!(message, "unknown argument: bad"),
        other => panic!("unexpected {other:?}"),
    }
}

fn agents() -> Agents {
    skill::known_agents(Agent { label: "First".to_string(), dir: ".first".to_string() })
}

#[test]
fn skills_go_to_the_agents_named_or_to_all() {
    let none = Targets { claude: false, codex: false, pi: false };
    let home = FilePath::from_text("/h");
    let all: Vec<(String, String)> = none
        .resolved()
        .paths(&home, &agents())
        .iter()
        .map(|f| (f.label.clone(), path_text(&f.path)))
        .collect();
    assert_eq!(
        all,
        [
            ("First".to_string(), "/h/.first/skills/sx/SKILL.md".to_string()),
            ("Codex".to_string(), "/h/.codex/skills/sx/SKILL.md".to_string()),
            ("Pi".to_string(), "/h/.pi/agent/skills/sx/SKILL.md".to_string()),
        ]
    );
    let pi = Targets { pi: true, ..none };
    assert_eq!(pi.resolved().paths(&home, &agents()).len(), 1);
    assert_eq!(skill::install(pi, None, &agents(), false).unwrap_err(), "$HOME is not set");
    assert_eq!(skill::uninstall(pi, None, &agents()).unwrap_err(), "$HOME is not set");
}

#[test]
fn skill_installation_writes_then_reports() {
    let codex = Targets { claude: false, codex: true, pi: false };
    let home = || Some(FilePath::from_text("/h"));
    let acts = skill::install(codex, home(), &agents(), false).unwrap();
    assert_eq!(acts.len(), 3);
    assert!(matches!(&acts[0], skill::Act::Write { path } if path_text(path) == "/h/.codex/skills/sx/SKILL.md"));
    assert!(matches!(&acts[1], skill::Act::Print { text } if text == "Codex: wrote /h/.codex/skills/sx/SKILL.md\n"));
    assert!(matches!(&acts[2], skill::Act::Print { text } if text == "\nRestart any running agent session to pick up the skill.\n"));
    let dry = skill::install(codex, home(), &agents(), true).unwrap();
    assert_eq!(dry.len(), 2);
    assert!(matches!(&dry[0], skill::Act::Print { text } if text == "Codex: would write /h/.codex/skills/sx/SKILL.md\n"));
    assert!(matches!(&dry[1], skill::Act::Print { text } if text == "\n(dry run — nothing written)\n"));
    let gone = skill::uninstall(codex, home(), &agents()).unwrap();
    assert_eq!(gone.len(), 1);
    match &gone[0] {
        skill::Act::Remove { path, gone, missing } => {
            assert_eq!(path_text(path), "/h/.codex/skills/sx/SKILL.md");
            assert_eq!(gone, "Codex: removed /h/.codex/skills/sx/SKILL.md\n");
            assert_eq!(missing, "Codex: nothing to remove (/h/.codex/skills/sx/SKILL.md)\n");
        }
        other => panic!("unexpected {other:?}"),
    }
}

#[test]
fn markup_is_escaped() {
    for s in ["", "plain", "a&b<c>d", "&amp;", "<<>>", "\u{e9}&"] {
        let expected = s.replace('&', "&amp;").replace('<', "&lt;").replace('>', "&gt;");
        assert_eq!(service::xml_escape(s), expected);
    }
}

#[test]
fn the_agent_description_carries_the_socket() {
    let exe = FilePath::from_text("/bin/sx&d");
    let log = FilePath::from_text("/h/.sx/sxd.log");
    let plain = service::plist_contents(&exe, &log, &None);
    assert_eq!(
        plain,
        r#"<?xml version="1.0" encoding="UTF-8"?>
<!DOCTYPE plist PUBLIC "-//Apple//DTD PLIST 1.0//EN" "http://www.apple.com/DTDs/PropertyList-1.0.dtd">
<plist version="1.0">
<dict>
    <key>Label</key>
    <string>dev.sx.sxd</string>
    <key>ProgramArguments</key>
    <array>
        <string>/bin/sx&amp;d</string>
    </array>
    <key>RunAtLoad</key>
    <true/>
    <key>KeepAlive</key>
    <true/>
    <key>ProcessType</key>
    <string>Interactive</string>
    <key>StandardOutPath</key>
    <string>/h/.sx/sxd.log</string>
    <key>StandardErrorPath</key>
    <string>/h/.sx/sxd.log</string>
</dict>
</plist>
"#
    );
    let custom = service::plist_contents(&exe, &log, &Some("/s<1>".to_string()));
    assert!(custom.contains(
        "    <string>Interactive</string>\n    <key>EnvironmentVariables</key>\n    <dict>\n        <key>SX_SOCKET</key>\n        <string>/s&lt;1&gt;</string>\n    </dict>\n    <key>StandardOutPath</key>\n"
    ));
}

#[test]
fn the_service_is_installed_on_macos_only() {
    let home = || Some(FilePath::from_text("/h"));
    let exe = || Ok(FilePath::from_text("/bin/sxd"));
    for p in [Platform::Linux, Platform::Other] {
        assert_eq!(
            service::install(p, exe(), home(), 501, None, false).unwrap_err(),
            "auto-start install is only implemented on macOS so far (Linux needs a GUI approval gate; run `sxd` manually meanwhile)"
        );
        assert_eq!(
            service::uninstall(p, home(), 501).unwrap_err(),
            "auto-start install is only implemented on macOS so far"
        );
    }
    assert_eq!(
        service::install(Platform::MacOs, Err("no exe".to_string()), None, 501, None, true).unwrap_err(),
        "no exe"
    );
    assert_eq!(
        service::install(Platform::MacOs, exe(), None, 501, None, false).unwrap_err(),
        "$HOME is not set"
    );
    assert_eq!(service::uninstall(Platform::MacOs, None, 501).unwrap_err(), "$HOME is not set");
    assert_eq!(service::launchctl_failed("exit status: 5"), "launchctl failed: exit status: 5");
}

#[test]
fn the_service_is_written_and_started() {
    let home = || Some(FilePath::from_text("/h"));
    let exe = || Ok(FilePath::from_text("/bin/sxd"));
    let acts = service::install(Platform::MacOs, exe(), home(), 501, None, false).unwrap();
    assert_eq!(acts.len(), 8);
    assert!(matches!(&acts[0], service::Act::CreateDir { path } if path_text(path) == "/h/Library/LaunchAgents"));
    assert!(matches!(&acts[1], service::Act::CreateDir { path } if path_text(path) == "/h/.sx"));
    assert!(matches!(&acts[2], service::Act::Write { path, contents }
        if path_text(path) == "/h/Library/LaunchAgents/dev.sx.sxd.plist" && contents.contains("/h/.sx/sxd.log")));
    let calls: Vec<(String, bool)> = acts[3..7]
        .iter()
        .map(|a| match a {
            service::Act::Launchctl { args, required } => (args.join(" "), *required),
            other => panic!("unexpected {other:?}"),
        })
        .collect();
    assert_eq!(
        calls,
        [
            ("bootout gui/501/dev.sx.sxd".to_string(), false),
            ("bootstrap gui/501 /h/Library/LaunchAgents/dev.sx.sxd.plist".to_string(), true),
            ("enable gui/501/dev.sx.sxd".to_string(), false),
            ("kickstart -k gui/501/dev.sx.sxd".to_string(), false),
        ]
    );
    assert!(matches!(&acts[7], service::Act::Print { text } if text
        == "Installed LaunchAgent dev.sx.sxd\n  plist: /h/Library/LaunchAgents/dev.sx.sxd.plist\n  log:   /h/.sx/sxd.log\nsxd now starts at login and is running.\nCheck it:  launchctl print gui/501/dev.sx.sxd\n"));
    let dry = service::install(Platform::MacOs, exe(), home(), 501, None, true).unwrap();
    assert_eq!(dry.len(), 1);
    match &dry[0] {
        service::Act::Print { text } => {
            assert!(text.starts_with(
                "# would write /h/Library/LaunchAgents/dev.sx.sxd.plist:\n\n<?xml version=\"1.0\""
            ));
            assert!(text.ends_with(
                "</plist>\n\n# would run:\nlaunchctl bootout gui/501/dev.sx.sxd    # (ignore failure)\nlaunchctl bootstrap gui/501 /h/Library/LaunchAgents/dev.sx.sxd.plist\nlaunchctl enable gui/501/dev.sx.sxd\nlaunchctl kickstart -k gui/501/dev.sx.sxd\n"
            ));
        }
        other => panic!("unexpected {other:?}"),
    }
    let gone = service::uninstall(Platform::MacOs, home(), 501).unwrap();
    assert_eq!(gone.len(), 3);
    assert!(matches!(&gone[2], service::Act::Print { text } if text
        == "Removed LaunchAgent dev.sx.sxd (/h/Library/LaunchAgents/dev.sx.sxd.plist)\n"));
}

#[test]
fn whitespace_is_that_of_unicode() {
    for n in 0..=0x10ffffu32 {
        if let Some(c) = char::from_u32(n) {
            assert_eq!(text::is_whitespace(c), c.is_whitespace(), "{n:x}");
        }
    }
}

#[test]
fn text_functions_agree_with_the_standard_library() {
    for s in ["", "a", "a\n", "a\r\nb", "\n\n", "a\rb\n\r\n", "  x\t", "a=b=c", "\u{a0}y\u{2029}"] {
        let lines: Vec<&str> = s.lines().collect();
        assert_eq!(text::lines(s), lines);
        let pieces: Vec<&str> = s.split('\n').collect();
        assert_eq!(text::split(s, '\n'), pieces);
        assert_eq!(text::trim(s), s.trim());
        assert_eq!(text::lowercase(s), s.to_ascii_lowercase());
        let cut = s.split_once('=').map(|(a, b)| (a.to_string(), b.to_string()));
        assert_eq!(text::split_once(s, '='), cut);
    }
    for (a, b) in [("", "a"), ("a", "b"), ("ab", "b"), ("a", "ab"), ("b", "a"), ("a", "a"), ("\u{ff}", "z")] {
        assert_eq!(text::is_before(a, b), a < b);
        assert_eq!(text::same(a, b), a == b);
        assert_eq!(text::starts_with(a, b), a.starts_with(b));
    }
    for n in [0u64, 9, 10, 105, u64::MAX] {
        assert_eq!(text::decimal_text(n), n.to_string());
        assert_eq!(text::parse_number(&n.to_string()), Some(n));
    }
    for n in [0i32, -1, i32::MIN, i32::MAX] {
        assert_eq!(text::signed_decimal_text(n), n.to_string());
    }
    assert_eq!(text::join(&strings(&["a", "", "b"]), ", "), "a, , b");
    assert_eq!(text::join(&[], ", "), "");
}
