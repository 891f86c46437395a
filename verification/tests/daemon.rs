use sx::clock::Clock;
use sx::daemon::{
    answered_at, connected, cwd_found_at, decoded_at, dispatch_at, fetched_at, grant_all_at,
    line_read, merge_values, resolved_at, Caller, Daemon, Heard, Step,
};
use sx::duration::GRANT_TTL_MAX_SECS;
use sx::env_file::read_env;
use sx::gate::{AllowAllGate, ApprovalGate};
use sx::paths::FilePath;
use sx::peer::Peer;
use sx::proto::{Request, Response};
use sx::source::Source;
use sx::state::State;
use sx::vars::Vars;

const SEC: u64 = 1_000_000_000;

fn peer() -> Peer {
    Peer { uid: 501, pid: 77 }
}

fn text(p: &FilePath) -> String {
    String::from_utf8(p.as_bytes().to_vec()).unwrap()
}

fn strings(v: &[&str]) -> Vec<String> {
    v.iter().map(|s| s.to_string()).collect()
}

fn pairs(v: &[(&str, &str)]) -> Vec<(String, String)> {
    v.iter().map(|(k, x)| (k.to_string(), x.to_string())).collect()
}

/// What a scripted outside world answers, and a record of what it was asked.
struct World {
    answers: Vec<bool>,
    prompts: Vec<String>,
    fetched: Vec<String>,
    cwd: Result<String, String>,
    cwd_asked: usize,
}

impl World {
    fn new(answers: &[bool]) -> World {
        World {
            answers: answers.iter().rev().copied().collect(),
            prompts: Vec::new(),
            fetched: Vec::new(),
            cwd: Ok("/work".to_string()),
            cwd_asked: 0,
        }
    }

    fn values(&self, source: &Source) -> Result<Vars, Response> {
        match source.key() {
            "/work/.env" => read_env(source.key(), Ok(b"FOO=bar\nSHARED=file\n".to_vec())),
            "/work/b.env" => read_env(source.key(), Ok(b"SHARED=second\n".to_vec())),
            "aws:prod" => Ok(Vars::from_pairs(&pairs(&[("AWS", "key"), ("SHARED", "aws")]))),
            "aws:bad" => Err(Response::Denied { reason: "no such profile".to_string() }),
            other => panic!("unexpected source {other}"),
        }
    }

    /// Follows the steps to the reply.
    fn run(&mut self, state: &mut State, first: Step, now: u64) -> Response {
        let mut step = first;
        loop {
            step = match step {
                Step::Reply { response } => return response,
                Step::ReadLine { .. } | Step::Decode { .. } => panic!("the request is known"),
                Step::FindCwd { pid, errand } => {
                    assert_eq!(pid, 77);
                    self.cwd_asked += 1;
                    let cwd = self.cwd.clone().map(|c| FilePath::from_text(&c));
                    cwd_found_at(state, errand, cwd, now)
                }
                Step::Resolve { path, resolving } => {
                    let p = text(&path);
                    let found = if p.contains("missing") {
                        Err("No such file or directory (os error 2)".to_string())
                    } else {
                        Ok(FilePath::from_text(&p.replace("./", "")))
                    };
                    resolved_at(state, resolving, found, now)
                }
                Step::Ask { prompt, question } => {
                    self.prompts.push(prompt);
                    let yes = self.answers.pop().unwrap();
                    answered_at(state, question, yes, now)
                }
                Step::Fetch { source, job } => {
                    self.fetched.push(source.key().to_string());
                    let values = self.values(&source);
                    fetched_at(state, job, values, now)
                }
            };
        }
    }

    fn request(&mut self, state: &mut State, request: Request, now: u64) -> Response {
        let first = dispatch_at(state, request, &peer(), now);
        self.run(state, first, now)
    }
}

fn run_request(env: &[&str], aws: &[&str], argv: &[&str], grant_all: bool) -> Request {
    Request::Run {
        env: strings(env),
        aws_profiles: strings(aws),
        argv: strings(argv),
        grant_all,
    }
}

fn granted(r: Response) -> Vec<(String, String)> {
    match r {
        Response::Granted { secrets } => secrets,
        other => panic!("expected a grant, got {other:?}"),
    }
}

fn denied(r: Response) -> String {
    match r {
        Response::Denied { reason } => reason,
        other => panic!("expected a denial, got {other:?}"),
    }
}

fn error(r: Response) -> String {
    match r {
        Response::Error { message } => message,
        other => panic!("expected an error, got {other:?}"),
    }
}

fn done(r: Response) -> String {
    match r {
        Response::Done { message } => message,
        other => panic!("expected success, got {other:?}"),
    }
}

#[test]
fn grant_all_with_custom_lease_uses_it() {
    let mut state = State::default();
    let mut world = World::new(&[]);
    world.answers = vec![AllowAllGate.approve("")];
    let first = grant_all_at(&mut state, strings(&[".env"]), vec![], Some(1800), 77, 0);
    let resp = world.run(&mut state, first, 0);
    match resp {
        Response::Done { message } => assert!(
            message.contains("30 minutes"),
            "message should reflect the lease: {message}"
        ),
        other => panic!("expected Done, got {other:?}"),
    }

    // The stored grant is allow-all and carries (about) the chosen TTL.
    let info = state.info(SEC);
    assert_eq!(info.len(), 1);
    assert!(info[0].allow_all);
    assert!(
        info[0].expires_in_secs > 1700 && info[0].expires_in_secs <= 1800,
        "unexpected ttl: {}",
        info[0].expires_in_secs
    );
}

#[test]
fn grant_all_rejects_lease_over_max() {
    let mut state = State::default();
    let first = grant_all_at(
        &mut state,
        vec![],
        strings(&["prod"]),
        Some(GRANT_TTL_MAX_SECS + 1),
        77,
        0,
    );
    let resp = World::new(&[]).run(&mut state, first, 0);
    match resp {
        Response::Denied { reason } => assert!(
            reason.contains("exceeds maximum"),
            "unexpected reason: {reason}"
        ),
        other => panic!("expected Denied, got {other:?}"),
    }
    // Nothing was granted.
    assert!(state.info(0).is_empty());
}

#[test]
fn the_longest_lease_is_accepted() {
    let mut state = State::default();
    let request = Request::GrantAll {
        env: vec![],
        aws_profiles: strings(&["prod"]),
        lease_secs: Some(GRANT_TTL_MAX_SECS),
    };
    let message = done(World::new(&[true]).request(&mut state, request, 0));
    assert_eq!(message, "allow-all granted for 1 source(s) (1 day)");
    assert_eq!(state.info(0)[0].expires_in_secs, 86_400);
}

#[test]
fn first_use_grants_and_every_command_is_confirmed() {
    let mut state = State::default();
    let mut world = World::new(&[true, true]);
    let secrets =
        granted(world.request(&mut state, run_request(&[".env"], &[], &["gh", "pr"], false), 0));
    assert_eq!(secrets, pairs(&[("FOO", "bar"), ("SHARED", "file")]));
    let again =
        granted(world.request(&mut state, run_request(&["./.env"], &[], &["ls"], false), SEC));
    assert_eq!(again, secrets);
    assert_eq!(
        world.prompts,
        [
            "Grant access to secrets in:\n  /work/.env\nfor 1 hour.\nThis command will run:\n  gh pr",
            "Run command:\n  ls\nwith secrets from:\n  /work/.env",
        ]
    );
    // The file was read once.
    assert_eq!(world.fetched, ["/work/.env"]);
}

#[test]
fn an_allow_all_source_is_not_asked_about_again() {
    let mut state = State::default();
    let mut world = World::new(&[true]);
    let request = Request::GrantAll {
        env: strings(&[".env"]),
        aws_profiles: vec![],
        lease_secs: None,
    };
    assert_eq!(
        done(world.request(&mut state, request, 0)),
        "allow-all granted for 1 source(s) (1 hour)"
    );
    granted(world.request(&mut state, run_request(&[".env"], &[], &["ls"], false), SEC));
    assert_eq!(
        world.prompts,
        ["Allow ALL commands to use secrets in:\n  /work/.env\nfor 1 hour, without confirming each one."]
    );
}

#[test]
fn after_grant_all_the_same_sources_run_unprompted() {
    let mut state = State::default();
    let mut world = World::new(&[true, true, true]);
    granted(world.request(&mut state, run_request(&[], &["prod"], &["ls"], false), 0));
    let request = Request::GrantAll {
        env: strings(&[".env"]),
        aws_profiles: strings(&["prod"]),
        lease_secs: Some(7200),
    };
    done(world.request(&mut state, request, SEC));
    assert_eq!(world.prompts.len(), 3);
    let run = || run_request(&[".env"], &["prod"], &["ls"], false);
    granted(world.request(&mut state, run(), 7200 * SEC));
    assert_eq!(world.prompts.len(), 3);
    // Once the leases have ended the sources are asked about again.
    let mut later = World::new(&[false]);
    denied(later.request(&mut state, run(), 7201 * SEC));
    assert_eq!(later.prompts.len(), 1);
}

#[test]
fn grant_all_on_run_upgrades_a_live_grant() {
    let mut state = State::default();
    let mut world = World::new(&[true, true]);
    granted(world.request(&mut state, run_request(&[], &["prod"], &["ls"], false), 0));
    granted(world.request(&mut state, run_request(&[], &["prod"], &["ls"], true), 1800 * SEC));
    assert_eq!(
        world.prompts[1],
        "Allow ALL commands to use AWS credentials for profile:\n  prod\nfor 1 hour, without confirming each one."
    );
    let info = state.info(1800 * SEC);
    assert!(info[0].allow_all);
    assert_eq!(info[0].expires_in_secs, 3600);
    assert_eq!(world.fetched, ["aws:prod"]);
}

#[test]
fn a_refused_prompt_releases_nothing() {
    let mut state = State::default();
    let mut world = World::new(&[false]);
    assert_eq!(
        denied(world.request(&mut state, run_request(&[".env"], &[], &["ls"], false), 0)),
        "grant not approved for /work/.env"
    );
    assert!(world.fetched.is_empty());
    assert!(state.info(0).is_empty());

    let mut world = World::new(&[true, false]);
    granted(world.request(&mut state, run_request(&[".env"], &[], &["ls"], false), 0));
    assert_eq!(
        denied(world.request(&mut state, run_request(&[".env"], &[], &["ls"], false), 0)),
        "command not approved"
    );

    let mut world = World::new(&[false]);
    assert_eq!(
        denied(world.request(&mut state, run_request(&[".env"], &[], &["ls"], true), 0)),
        "allow-all not approved for /work/.env"
    );
    assert!(!state.info(0)[0].allow_all);
}

#[test]
fn one_refusal_among_several_sources_refuses_all() {
    let mut state = State::default();
    let mut world = World::new(&[true, false]);
    assert_eq!(
        denied(world.request(&mut state, run_request(&[".env"], &["prod"], &["ls"], false), 0)),
        "grant not approved for aws:prod"
    );
    // The approved source stays granted.
    assert_eq!(state.info(0).len(), 1);
}

#[test]
fn a_grant_that_expires_at_the_prompt_is_refused() {
    let mut state = State::default();
    granted(World::new(&[true]).request(
        &mut state,
        run_request(&[], &["prod"], &["ls"], false),
        0,
    ));
    let asked = dispatch_at(
        &mut state,
        run_request(&[], &["prod"], &["ls"], false),
        &peer(),
        3599 * SEC,
    );
    match asked {
        Step::Ask { question, .. } => {
            let step = answered_at(&mut state, question, true, 3600 * SEC);
            assert_eq!(
                denied(World::new(&[]).run(&mut state, step, 3600 * SEC)),
                "grant for aws:prod expired during approval"
            );
        }
        other => panic!("unexpected {other:?}"),
    }
}

#[test]
fn later_sources_win_and_move_to_the_end() {
    let mut state = State::default();
    let secrets = granted(World::new(&[true, true, true]).request(
        &mut state,
        run_request(&[".env", "b.env"], &["prod"], &["ls"], false),
        0,
    ));
    assert_eq!(secrets, pairs(&[("FOO", "bar"), ("AWS", "key"), ("SHARED", "aws")]));
    assert_eq!(
        merge_values(pairs(&[("A", "1"), ("B", "2")]), &pairs(&[("A", "3")])),
        pairs(&[("B", "2"), ("A", "3")])
    );
}

#[test]
fn a_failed_source_is_replied_verbatim_and_not_granted() {
    let mut state = State::default();
    let mut world = World::new(&[true]);
    assert_eq!(
        denied(world.request(&mut state, run_request(&[], &["bad"], &["ls"], false), 0)),
        "no such profile"
    );
    assert!(state.info(0).is_empty());
}

#[test]
fn requests_without_a_command_or_source_are_errors() {
    let mut state = State::default();
    let mut world = World::new(&[]);
    assert_eq!(
        error(world.request(&mut state, run_request(&[".env"], &[], &[], false), 0)),
        "run requires a command"
    );
    assert_eq!(
        error(world.request(&mut state, run_request(&[], &[], &["ls"], false), 0)),
        "run requires at least one --env <path> or --aws-profile <profile>"
    );
    let request =
        Request::GrantAll { env: vec![], aws_profiles: vec![], lease_secs: Some(u64::MAX) };
    assert_eq!(
        error(world.request(&mut state, request, 0)),
        "grant-all requires at least one --env <path> or --aws-profile <profile>"
    );
}

#[test]
fn profiles_do_not_need_the_working_directory() {
    let mut state = State::default();
    let mut world = World::new(&[true]);
    world.cwd = Err("No such process (os error 3)".to_string());
    granted(world.request(&mut state, run_request(&[], &["prod"], &["ls"], false), 0));
    assert_eq!(world.cwd_asked, 0);
    assert_eq!(
        error(world.request(&mut state, run_request(&[".env"], &["prod"], &["ls"], false), 0)),
        "cannot determine caller cwd (pid 77): No such process (os error 3)"
    );
}

#[test]
fn a_file_that_cannot_be_resolved_is_reported() {
    let mut state = State::default();
    let mut world = World::new(&[]);
    assert_eq!(
        error(world.request(
            &mut state,
            run_request(&[".env", "missing.env"], &[], &["ls"], false),
            0
        )),
        "cannot resolve missing.env: No such file or directory (os error 2)"
    );
    assert!(world.prompts.is_empty());
}

#[test]
fn clear_resolves_the_path_as_run_does() {
    let mut state = State::default();
    let mut world = World::new(&[true, true]);
    granted(world.request(&mut state, run_request(&[".env"], &["prod"], &["ls"], false), 0));
    let clear = |p: &str| Request::Clear { path: Some(p.to_string()) };
    assert_eq!(done(world.request(&mut state, clear("missing"), 0)), "cleared 0 grant(s)");
    assert_eq!(done(world.request(&mut state, clear("./.env"), 0)), "cleared 1 grant(s)");
    let asked = world.cwd_asked;
    assert_eq!(done(world.request(&mut state, clear("aws:prod"), 0)), "cleared 1 grant(s)");
    assert_eq!(world.cwd_asked, asked);
    assert!(state.info(0).is_empty());
}

#[test]
fn clear_works_without_the_working_directory() {
    let mut state = State::default();
    let mut world = World::new(&[true]);
    granted(world.request(&mut state, run_request(&[".env"], &[], &["ls"], false), 0));
    world.cwd = Err("gone".to_string());
    let request = Request::Clear { path: Some("/work/.env".to_string()) };
    assert_eq!(done(world.request(&mut state, request, 0)), "cleared 1 grant(s)");
    assert_eq!(done(world.request(&mut state, Request::Clear { path: None }, 0)), "cleared 0 grant(s)");
}

#[test]
fn status_shows_names_only() {
    let mut state = State::default();
    let mut world = World::new(&[true]);
    granted(world.request(&mut state, run_request(&[".env"], &[], &["ls"], false), 0));
    match world.request(&mut state, Request::Status, SEC) {
        Response::Status { captures } => {
            assert_eq!(captures.len(), 1);
            assert_eq!(captures[0].source, "/work/.env");
            assert_eq!(captures[0].names, ["FOO", "SHARED"]);
            assert_eq!(captures[0].expires_in_secs, 3599);
            assert!(!captures[0].allow_all);
            assert!(!format!("{captures:?}").contains("bar"));
        }
        other => panic!("unexpected {other:?}"),
    }
    match world.request(&mut state, Request::Status, 3600 * SEC) {
        Response::Status { captures } => assert!(captures.is_empty()),
        other => panic!("unexpected {other:?}"),
    }
}

fn caller() -> Caller {
    match connected(Ok(peer()), 501) {
        Step::ReadLine { caller } => caller,
        other => panic!("unexpected {other:?}"),
    }
}

fn reply(step: Step) -> Response {
    match step {
        Step::Reply { response } => response,
        other => panic!("unexpected {other:?}"),
    }
}

#[test]
fn only_the_owner_is_served() {
    caller();
    assert_eq!(
        denied(reply(connected(Ok(peer()), 502))),
        "connection from uid 501 refused"
    );
    assert_eq!(
        error(reply(connected(Err("not a socket".to_string()), 501))),
        "cannot read peer credentials: not a socket"
    );
}

#[test]
fn a_request_is_one_trimmed_line() {
    let hear = |line: &str| line_read(caller(), Heard::Line { line: line.to_string() });
    match hear(" {\"cmd\":\"status\"} \r\n") {
        Step::Decode { text, .. } => assert_eq!(text, "{\"cmd\":\"status\"}"),
        other => panic!("unexpected {other:?}"),
    }
    match hear("\n") {
        Step::Decode { text, .. } => assert_eq!(text, ""),
        other => panic!("unexpected {other:?}"),
    }
    assert_eq!(error(reply(hear(""))), "client closed without sending a request");
    let broken = Heard::Broken { error: "reset".to_string() };
    assert_eq!(error(reply(line_read(caller(), broken))), "read error: reset");
    let nothing = Heard::Nothing { error: "closed".to_string() };
    assert_eq!(error(reply(line_read(caller(), nothing))), "socket error: closed");
    let mut state = State::default();
    let bad = decoded_at(&mut state, caller(), Err("EOF".to_string()), 0);
    assert_eq!(error(reply(bad)), "malformed request: EOF");
    let good = decoded_at(&mut state, caller(), Ok(Request::Clear { path: None }), 0);
    assert_eq!(done(reply(good)), "cleared 0 grant(s)");
}

#[test]
fn the_daemon_goes_by_its_clock() {
    let mut daemon = Daemon::new();
    let step = daemon.decoded(caller(), Ok(run_request(&[".env"], &[], &["ls"], false)));
    let step = match step {
        Step::FindCwd { errand, .. } => daemon.cwd_found(errand, Ok(FilePath::from_text("/work"))),
        other => panic!("unexpected {other:?}"),
    };
    let step = match step {
        Step::Resolve { path, resolving } => daemon.resolved(resolving, Ok(path)),
        other => panic!("unexpected {other:?}"),
    };
    let step = match step {
        Step::Ask { question, .. } => daemon.answered(question, true),
        other => panic!("unexpected {other:?}"),
    };
    let step = match step {
        Step::Fetch { source, job } => {
            assert_eq!(source.key(), "/work/.env");
            daemon.fetched(job, Ok(Vars::from_pairs(&pairs(&[("A", "1")]))))
        }
        other => panic!("unexpected {other:?}"),
    };
    assert_eq!(granted(reply(step)), pairs(&[("A", "1")]));
    match reply(daemon.decoded(caller(), Ok(Request::Status))) {
        Response::Status { captures } => {
            assert_eq!(captures.len(), 1);
            assert!(captures[0].expires_in_secs > 3500 && captures[0].expires_in_secs <= 3600);
        }
        other => panic!("unexpected {other:?}"),
    }
}

#[test]
fn the_clock_never_goes_back() {
    let mut clock = Clock::new();
    let mut last = clock.now();
    for _ in 0..1000 {
        let now = clock.now();
        assert!(now >= last);
        last = now;
    }
    let later = last as u128 + 3_600_000_000_000;
    assert_eq!(clock.reach(later), later as u64);
    assert_eq!(clock.now(), later as u64);
    assert_eq!(clock.reach(0), later as u64);
    assert_eq!(clock.reach(u128::MAX), u64::MAX);
}

#[test]
fn the_clock_moves() {
    let mut clock = Clock::new();
    let first = clock.now();
    let mut turns: u64 = 0;
    while clock.now() == first {
        turns += 1;
        assert!(turns < 100_000_000);
    }
    assert!(clock.now() > first);
}
