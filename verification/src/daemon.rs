//! The daemon's handling of one request, as a conversation.
//!
//! Each function here takes what has just become known and says, as a [`Step`],
//! what is to be done next: reply, look something up, ask the human, or obtain
//! the values of a source. The daemon itself executes nothing.

use vstd::prelude::*;
use vstd::string::*;

use crate::clock::Clock;
use crate::config;
use crate::duration;
use crate::env_file;
use crate::env_file::Values;
use crate::paths;
use crate::paths::FilePath;
use crate::peer::Peer;
use crate::proto;
use crate::proto::{Request, RequestView, Response, ResponseView};
use crate::source;
use crate::source::{Source, SourceView};
use crate::state;
use crate::state::{State, Store};
use crate::text;
use crate::vars::{Listing, Vars};

verus! {

// ---------------------------------------------------------------------------
// Work under way

/// What the sources of a request are wanted for.
#[derive(Debug)]
pub enum Purpose {
    /// To run `argv`; `grant_all` upgrades the sources to allow-all.
    Run { argv: Vec<String>, grant_all: bool },
    /// To grant them in allow-all mode for `ttl_secs`.
    GrantAll { ttl_secs: u64 },
}

/// The contents of a [`Purpose`].
pub enum PurposeView {
    Run { argv: Seq<Seq<char>>, grant_all: bool },
    GrantAll { ttl_secs: u64 },
}

impl View for Purpose {
    type V = PurposeView;

    open spec fn view(&self) -> PurposeView {
        match *self {
            Purpose::Run { argv, grant_all } => PurposeView::Run {
                argv: text::texts(argv@),
                grant_all,
            },
            Purpose::GrantAll { ttl_secs } => PurposeView::GrantAll { ttl_secs },
        }
    }
}

/// Whether grants are made, or turned, allow-all.
pub open spec fn makes_allow_all(p: PurposeView) -> bool {
    match p {
        PurposeView::Run { grant_all, .. } => grant_all,
        PurposeView::GrantAll { .. } => true,
    }
}

/// The command to confirm, if there is one.
pub open spec fn command_of(p: PurposeView) -> Option<Seq<Seq<char>>> {
    match p {
        PurposeView::Run { argv, .. } => Some(argv),
        PurposeView::GrantAll { .. } => None,
    }
}

/// The lease of a grant that is made or upgraded.
pub open spec fn ttl_of(p: PurposeView) -> u64 {
    match p {
        PurposeView::Run { .. } => duration::GRANT_TTL_SECS,
        PurposeView::GrantAll { ttl_secs } => ttl_secs,
    }
}

/// A request whose source with index `next` is being authorized.
#[derive(Debug)]
pub struct Job {
    sources: Vec<Source>,
    next: usize,
    merged: Vec<(String, String)>,
    purpose: Purpose,
}

/// The contents of a [`Job`].
pub struct JobView {
    pub sources: Seq<SourceView>,
    pub next: nat,
    /// The values of the sources before `next`.
    pub merged: Listing,
    pub purpose: PurposeView,
}

impl View for Job {
    type V = JobView;

    closed spec fn view(&self) -> JobView {
        JobView {
            sources: source::sources_of(self.sources@),
            next: self.next as nat,
            merged: text::pairs(self.merged@),
            purpose: self.purpose@,
        }
    }
}

/// The source that is being authorized.
pub open spec fn current(job: JobView) -> SourceView {
    job.sources[job.next as int]
}

/// The key of the source that is being authorized.
pub open spec fn current_key(job: JobView) -> Seq<char> {
    source::key_of(current(job))
}

impl Job {
    #[verifier::type_invariant]
    spec fn has_current(self) -> bool {
        self.next < self.sources@.len()
    }
}

/// A question to the human, and what it decides.
#[derive(Debug)]
pub enum Question {
    /// May the source be granted?
    Establish { job: Job },
    /// May the live grant of the source, with these values, go allow-all?
    Upgrade { job: Job, values: Vec<(String, String)> },
    /// May this command use the live grant of the source?
    Confirm { job: Job },
}

/// The contents of a [`Question`].
pub enum QuestionView {
    Establish { job: JobView },
    Upgrade { job: JobView, values: Listing },
    Confirm { job: JobView },
}

impl View for Question {
    type V = QuestionView;

    open spec fn view(&self) -> QuestionView {
        match *self {
            Question::Establish { job } => QuestionView::Establish { job: job@ },
            Question::Upgrade { job, values } => QuestionView::Upgrade {
                job: job@,
                values: text::pairs(values@),
            },
            Question::Confirm { job } => QuestionView::Confirm { job: job@ },
        }
    }
}

/// What the caller's working directory is wanted for.
#[derive(Debug)]
pub enum Errand {
    /// To drop the grant of the file that `path` names there.
    Clear { path: String },
    /// To resolve the files of a request of the process `pid`.
    Sources { pid: i32, env: Vec<String>, aws_profiles: Vec<String>, purpose: Purpose },
}

/// The contents of an [`Errand`].
pub enum ErrandView {
    Clear { path: Seq<char> },
    Sources {
        pid: i32,
        env: Seq<Seq<char>>,
        aws_profiles: Seq<Seq<char>>,
        purpose: PurposeView,
    },
}

impl View for Errand {
    type V = ErrandView;

    open spec fn view(&self) -> ErrandView {
        match *self {
            Errand::Clear { path } => ErrandView::Clear { path: path@ },
            Errand::Sources { pid, env, aws_profiles, purpose } => ErrandView::Sources {
                pid,
                env: text::texts(env@),
                aws_profiles: text::texts(aws_profiles@),
                purpose: purpose@,
            },
        }
    }
}

/// The files of a request, of which the first `files.len()` are resolved.
#[derive(Debug)]
pub struct Lookups {
    cwd: FilePath,
    env: Vec<String>,
    files: Vec<FilePath>,
    aws_profiles: Vec<String>,
    purpose: Purpose,
}

/// The contents of [`Lookups`].
pub struct LookupsView {
    pub cwd: Seq<u8>,
    pub env: Seq<Seq<char>>,
    pub files: Seq<Seq<u8>>,
    pub aws_profiles: Seq<Seq<char>>,
    pub purpose: PurposeView,
}

/// The contents of a list of paths.
pub open spec fn files_of(v: Seq<FilePath>) -> Seq<Seq<u8>> {
    v.map_values(|p: FilePath| p@)
}

impl View for Lookups {
    type V = LookupsView;

    closed spec fn view(&self) -> LookupsView {
        LookupsView {
            cwd: self.cwd@,
            env: text::texts(self.env@),
            files: files_of(self.files@),
            aws_profiles: text::texts(self.aws_profiles@),
            purpose: self.purpose@,
        }
    }
}

impl Lookups {
    #[verifier::type_invariant]
    spec fn has_current(self) -> bool {
        self.files@.len() < self.env@.len()
    }
}

/// What a canonical path is wanted for.
#[derive(Debug)]
pub enum Resolving {
    /// To drop the grant of the file that `path` names.
    Clear { path: String },
    /// For the next file of a request.
    Sources { lookups: Lookups },
}

/// The contents of a [`Resolving`].
pub enum ResolvingView {
    Clear { path: Seq<char> },
    Sources { lookups: LookupsView },
}

impl View for Resolving {
    type V = ResolvingView;

    open spec fn view(&self) -> ResolvingView {
        match *self {
            Resolving::Clear { path } => ResolvingView::Clear { path: path@ },
            Resolving::Sources { lookups } => ResolvingView::Sources { lookups: lookups@ },
        }
    }
}

/// A caller who may be served: one with the uid of the daemon.
#[derive(Debug, Clone, Copy)]
pub struct Caller {
    peer: Peer,
}

impl View for Caller {
    type V = Peer;

    closed spec fn view(&self) -> Peer {
        self.peer
    }
}

/// What came of reading a line from a caller.
#[derive(Debug)]
pub enum Heard {
    /// The socket could not be read from at all; this is the text of the error.
    Nothing { error: String },
    /// Reading failed; this is the text of the error.
    Broken { error: String },
    /// This was read, up to the end of the first line; nothing if the caller
    /// closed the socket.
    Line { line: String },
}

/// The contents of a [`Heard`].
pub enum HeardView {
    Nothing { error: Seq<char> },
    Broken { error: Seq<char> },
    Line { line: Seq<char> },
}

impl View for Heard {
    type V = HeardView;

    open spec fn view(&self) -> HeardView {
        match *self {
            Heard::Nothing { error } => HeardView::Nothing { error: error@ },
            Heard::Broken { error } => HeardView::Broken { error: error@ },
            Heard::Line { line } => HeardView::Line { line: line@ },
        }
    }
}

/// What is to be done next.
#[derive(Debug)]
pub enum Step {
    /// Read a line from the caller.
    ReadLine { caller: Caller },
    /// Read a request out of `text`.
    Decode { text: String, caller: Caller },
    /// Send this reply: the request is done.
    Reply { response: Response },
    /// Find the working directory of the process `pid`, which is the caller.
    FindCwd { pid: i32, errand: Errand },
    /// Find the canonical form of `path`.
    Resolve { path: FilePath, resolving: Resolving },
    /// Show `prompt` to the human and get a yes or no.
    Ask { prompt: String, question: Question },
    /// Obtain the values of `source`.
    Fetch { source: Source, job: Job },
}

/// The contents of a [`Step`].
pub enum StepView {
    ReadLine { caller: Peer },
    Decode { text: Seq<char>, caller: Peer },
    Reply { response: ResponseView },
    FindCwd { pid: i32, errand: ErrandView },
    Resolve { path: Seq<u8>, resolving: ResolvingView },
    Ask { prompt: Seq<char>, question: QuestionView },
    Fetch { source: SourceView, job: JobView },
}

impl View for Step {
    type V = StepView;

    open spec fn view(&self) -> StepView {
        match *self {
            Step::ReadLine { caller } => StepView::ReadLine { caller: caller@ },
            Step::Decode { text, caller } => StepView::Decode { text: text@, caller: caller@ },
            Step::Reply { response } => StepView::Reply { response: response@ },
            Step::FindCwd { pid, errand } => StepView::FindCwd { pid, errand: errand@ },
            Step::Resolve { path, resolving } => StepView::Resolve {
                path: path@,
                resolving: resolving@,
            },
            Step::Ask { prompt, question } => StepView::Ask {
                prompt: prompt@,
                question: question@,
            },
            Step::Fetch { source, job } => StepView::Fetch { source: source@, job: job@ },
        }
    }
}

// ---------------------------------------------------------------------------
// What each event leads to

/// `m` without the variable `name`.
pub open spec fn dropped(m: Listing, name: Seq<char>) -> Listing {
    m.filter(|p: (Seq<char>, Seq<char>)| p.0 != name)
}

/// `m` with the values of a further source, which win over earlier ones.
pub open spec fn merge(m: Listing, values: Listing) -> Listing
    decreases values.len(),
{
    if values.len() == 0 {
        m
    } else {
        dropped(merge(m, values.drop_last()), values.last().0).push(values.last())
    }
}

/// The job after the current source gave `values`.
pub open spec fn collect(job: JobView, values: Listing) -> JobView {
    JobView { next: job.next + 1, merged: merge(job.merged, values), ..job }
}

/// The reply that refuses for `reason`.
pub open spec fn denied(reason: Seq<char>) -> StepView {
    StepView::Reply { response: ResponseView::Denied { reason } }
}

/// The reply that reports the error `message`.
pub open spec fn failed(message: Seq<char>) -> StepView {
    StepView::Reply { response: ResponseView::Error { message } }
}

/// The reply of a job whose sources are all authorized.
pub open spec fn finish(job: JobView) -> ResponseView {
    match job.purpose {
        PurposeView::Run { .. } => ResponseView::Granted { secrets: job.merged },
        PurposeView::GrantAll { ttl_secs } => ResponseView::Done {
            message: "allow-all granted for "@ + text::decimal(job.sources.len()) + " source(s) ("@
                + duration::humanized(ttl_secs as nat) + ")"@,
        },
    }
}

/// The question of the first use of a source.
pub open spec fn establish_text(s: SourceView, p: PurposeView) -> Seq<char> {
    if makes_allow_all(p) {
        source::allow_all_text(s, ttl_of(p))
    } else {
        source::first_run_text(s, command_of(p), ttl_of(p))
    }
}

/// A job goes on: sources whose live grant is allow-all, and is not asked to
/// change, pass without a question; the first other source leads to one.
pub open spec fn advance(s: Store, job: JobView, now: u64) -> (Store, StepView)
    decreases job.sources.len() - job.next,
{
    if job.next >= job.sources.len() {
        (s, StepView::Reply { response: finish(job) })
    } else {
        let src = current(job);
        let rest = state::unexpired(s, now);
        match state::live_grant(s, source::key_of(src), now) {
            None => (
                rest,
                StepView::Ask {
                    prompt: establish_text(src, job.purpose),
                    question: QuestionView::Establish { job },
                },
            ),
            Some(g) => if makes_allow_all(job.purpose) {
                (
                    rest,
                    StepView::Ask {
                        prompt: source::allow_all_text(src, ttl_of(job.purpose)),
                        question: QuestionView::Upgrade { job, values: g.values },
                    },
                )
            } else if g.allow_all {
                advance(rest, collect(job, g.values), now)
            } else {
                (
                    rest,
                    StepView::Ask {
                        prompt: source::per_command_text(src, command_of(job.purpose)->0),
                        question: QuestionView::Confirm { job },
                    },
                )
            },
        }
    }
}

/// What a yes or no leads to.
pub open spec fn after_answer(s: Store, q: QuestionView, approved: bool, now: u64) -> (
    Store,
    StepView,
) {
    match q {
        QuestionView::Establish { job } => if approved {
            (s, StepView::Fetch { source: current(job), job })
        } else {
            (s, denied("grant not approved for "@ + current_key(job)))
        },
        QuestionView::Upgrade { job, values } => if approved {
            advance(
                state::upgraded(s, current_key(job), ttl_of(job.purpose), now),
                collect(job, values),
                now,
            )
        } else {
            (s, denied("allow-all not approved for "@ + current_key(job)))
        },
        QuestionView::Confirm { job } => if approved {
            let rest = state::unexpired(s, now);
            match state::live_grant(s, current_key(job), now) {
                Some(g) => advance(rest, collect(job, g.values), now),
                None => (
                    rest,
                    denied("grant for "@ + current_key(job) + " expired during approval"@),
                ),
            }
        } else {
            (s, denied("command not approved"@))
        },
    }
}

/// What the values of a source, or the failure to obtain them, lead to.
pub open spec fn after_fetch(s: Store, job: JobView, values: Values, now: u64) -> (
    Store,
    StepView,
) {
    match values {
        Ok(v) => advance(
            state::granted(
                s,
                current_key(job),
                v,
                ttl_of(job.purpose),
                makes_allow_all(job.purpose),
                now,
            ),
            collect(job, v),
            now,
        ),
        Err(response) => (s, StepView::Reply { response }),
    }
}

/// The start of a job with these sources.
pub open spec fn start(s: Store, sources: Seq<SourceView>, purpose: PurposeView, now: u64) -> (
    Store,
    StepView,
) {
    advance(s, JobView { sources, next: 0, merged: Seq::empty(), purpose }, now)
}

/// The resolution of the files of a request, of which some are resolved.
pub open spec fn resolve_next(s: Store, l: LookupsView, now: u64) -> (Store, StepView) {
    if l.files.len() < l.env.len() {
        (
            s,
            StepView::Resolve {
                path: paths::under_text(l.cwd, l.env[l.files.len() as int]),
                resolving: ResolvingView::Sources { lookups: l },
            },
        )
    } else {
        start(s, source::source_list(l.files, l.aws_profiles), l.purpose, now)
    }
}

/// The reply after dropping the grant of one source, or all.
pub open spec fn after_clear(s: Store, target: Option<Seq<char>>) -> (Store, StepView) {
    let rest = state::cleared(s, target);
    (
        rest,
        StepView::Reply {
            response: ResponseView::Done {
                message: "cleared "@ + text::decimal((s.len() - rest.len()) as nat) + " grant(s)"@,
            },
        },
    )
}

/// What the caller's working directory, or the failure to find it, leads to.
pub open spec fn after_cwd(
    s: Store,
    errand: ErrandView,
    cwd: Result<Seq<u8>, Seq<char>>,
    now: u64,
) -> (Store, StepView) {
    match errand {
        ErrandView::Clear { path } => match cwd {
            Ok(dir) => (
                s,
                StepView::Resolve {
                    path: paths::under_text(dir, path),
                    resolving: ResolvingView::Clear { path },
                },
            ),
            Err(_) => after_clear(s, Some(path)),
        },
        ErrandView::Sources { pid, env, aws_profiles, purpose } => match cwd {
            Ok(dir) => resolve_next(
                s,
                LookupsView { cwd: dir, env, files: Seq::empty(), aws_profiles, purpose },
                now,
            ),
            Err(e) => (
                s,
                failed(
                    "cannot determine caller cwd (pid "@ + text::signed_decimal(pid as int) + "): "@
                        + e,
                ),
            ),
        },
    }
}

/// What a canonical path, or the failure to find it, leads to.
pub open spec fn after_resolve(
    s: Store,
    resolving: ResolvingView,
    found: Result<Seq<u8>, Seq<char>>,
    now: u64,
) -> (Store, StepView) {
    match resolving {
        ResolvingView::Clear { path } => match found {
            Ok(file) => after_clear(s, Some(text::lossy(file))),
            Err(_) => after_clear(s, Some(path)),
        },
        ResolvingView::Sources { lookups: l } => match found {
            Ok(file) => resolve_next(s, LookupsView { files: l.files.push(file), ..l }, now),
            Err(e) => (
                s,
                failed("cannot resolve "@ + l.env[l.files.len() as int] + ": "@ + e),
            ),
        },
    }
}

/// The sources of a request are looked up: the caller's working directory is
/// wanted only where there is a file to resolve.
pub open spec fn gather(
    s: Store,
    pid: i32,
    env: Seq<Seq<char>>,
    aws_profiles: Seq<Seq<char>>,
    purpose: PurposeView,
    now: u64,
) -> (Store, StepView) {
    if env.len() > 0 {
        (
            s,
            StepView::FindCwd {
                pid,
                errand: ErrandView::Sources { pid, env, aws_profiles, purpose },
            },
        )
    } else {
        start(s, source::source_list(Seq::empty(), aws_profiles), purpose, now)
    }
}

/// The lease that a request asks for.
pub open spec fn lease_or_default(lease_secs: Option<u64>) -> u64 {
    match lease_secs {
        Some(n) => n,
        None => duration::GRANT_TTL_SECS,
    }
}

/// What a request leads to.
pub open spec fn after_request(s: Store, request: RequestView, pid: i32, now: u64) -> (
    Store,
    StepView,
) {
    match request {
        RequestView::Clear { path } => match path {
            Some(p) => if source::is_aws_key(p) {
                after_clear(s, Some(p))
            } else {
                (s, StepView::FindCwd { pid, errand: ErrandView::Clear { path: p } })
            },
            None => after_clear(s, None),
        },
        RequestView::Status => (
            state::unexpired(s, now),
            StepView::Reply {
                response: ResponseView::Status { captures: state::summaries(s, now) },
            },
        ),
        RequestView::GrantAll { env, aws_profiles, lease_secs } => {
            let ttl_secs = lease_or_default(lease_secs);
            if env.len() == 0 && aws_profiles.len() == 0 {
                (
                    s,
                    failed(
                        "grant-all requires at least one --env <path> or --aws-profile <profile>"@,
                    ),
                )
            } else if ttl_secs > duration::GRANT_TTL_MAX_SECS {
                (s, denied(duration::over_max_text(ttl_secs as nat)))
            } else {
                gather(s, pid, env, aws_profiles, PurposeView::GrantAll { ttl_secs }, now)
            }
        },
        RequestView::Run { env, aws_profiles, argv, grant_all } => if argv.len() == 0 {
            (s, failed("run requires a command"@))
        } else if env.len() == 0 && aws_profiles.len() == 0 {
            (s, failed("run requires at least one --env <path> or --aws-profile <profile>"@))
        } else {
            gather(s, pid, env, aws_profiles, PurposeView::Run { argv, grant_all }, now)
        },
    }
}

/// What a connection leads to: only a peer with the uid of the daemon is
/// listened to.
pub open spec fn after_connect(peer: Result<Peer, Seq<char>>, own_uid: u32) -> StepView {
    match peer {
        Ok(p) => if p.uid == own_uid {
            StepView::ReadLine { caller: p }
        } else {
            denied("connection from uid "@ + text::decimal(p.uid as nat) + " refused"@)
        },
        Err(e) => failed("cannot read peer credentials: "@ + e),
    }
}

/// What a line of a caller leads to.
pub open spec fn after_line(caller: Peer, heard: HeardView) -> StepView {
    match heard {
        HeardView::Nothing { error } => failed("socket error: "@ + error),
        HeardView::Broken { error } => failed("read error: "@ + error),
        HeardView::Line { line } => if line.len() == 0 {
            failed("client closed without sending a request"@)
        } else {
            StepView::Decode { text: text::trimmed(line), caller }
        },
    }
}

/// What a request of a caller leads to.
pub open spec fn after_decode(
    s: Store,
    caller: Peer,
    request: Result<RequestView, Seq<char>>,
    now: u64,
) -> (Store, StepView) {
    match request {
        Ok(q) => after_request(s, q, caller.pid, now),
        Err(e) => (s, failed("malformed request: "@ + e)),
    }
}

// ---------------------------------------------------------------------------
// The functions

fn deny(reason: String) -> (r: Step)
    ensures
        r@ == denied(reason@),
{
    Step::Reply { response: Response::Denied { reason } }
}

fn fail(message: String) -> (r: Step)
    ensures
        r@ == failed(message@),
{
    Step::Reply { response: Response::Error { message } }
}

/// The entries of `v` whose name is not `name`.
fn drop_name(v: &Vec<(String, String)>, name: &str) -> (r: Vec<(String, String)>)
    ensures
        text::pairs(r@) == dropped(text::pairs(v@), name@),
{
    let ghost s: Listing = text::pairs(v@);
    let ghost keep = |p: (Seq<char>, Seq<char>)| p.0 != name@;
    let mut out: Vec<(String, String)> = Vec::new();
    let mut i: usize = 0;
    proof {
        reveal(Seq::filter);
        assert(text::pairs(out@) =~= s.take(0).filter(keep));
    }
    while i < v.len()
        invariant
            i <= v@.len(),
            s == text::pairs(v@),
            keep == (|p: (Seq<char>, Seq<char>)| p.0 != name@),
            text::pairs(out@) == s.take(i as int).filter(keep),
        decreases v@.len() - i,
    {
        let ghost done: Listing = text::pairs(out@);
        proof {
            reveal(Seq::filter);
            assert(s.take(i as int + 1).drop_last() =~= s.take(i as int));
        }
        if !text::same(v[i].0.as_str(), name) {
            out.push((v[i].0.clone(), v[i].1.clone()));
            assert(text::pairs(out@) =~= done.push(s[i as int]));
        }
        i = i + 1;
    }
    assert(s.take(i as int) =~= s);
    out
}

/// `m` with the values of a further source, which win over earlier ones.
pub fn merge_values(m: Vec<(String, String)>, values: &Vec<(String, String)>) -> (r: Vec<
    (String, String),
>)
    ensures
        text::pairs(r@) == merge(text::pairs(m@), text::pairs(values@)),
{
    let ghost first: Listing = text::pairs(m@);
    let ghost all: Listing = text::pairs(values@);
    let mut out: Vec<(String, String)> = m;
    let mut i: usize = 0;
    while i < values.len()
        invariant
            i <= values@.len(),
            all == text::pairs(values@),
            text::pairs(out@) == merge(first, all.take(i as int)),
        decreases values@.len() - i,
    {
        proof {
            assert(all.take(i as int + 1).drop_last() =~= all.take(i as int));
            assert(all.take(i as int + 1).last() == all[i as int]);
        }
        let mut kept: Vec<(String, String)> = drop_name(&out, values[i].0.as_str());
        let ghost done: Listing = text::pairs(kept@);
        kept.push((values[i].0.clone(), values[i].1.clone()));
        assert(text::pairs(kept@) =~= done.push(all[i as int]));
        out = kept;
        i = i + 1;
    }
    assert(all.take(i as int) =~= all);
    out
}

impl Purpose {
    /// Whether grants are made, or turned, allow-all.
    fn makes_allow_all(&self) -> (r: bool)
        ensures
            r == makes_allow_all(self@),
    {
        match self {
            Purpose::Run { grant_all, .. } => *grant_all,
            Purpose::GrantAll { .. } => true,
        }
    }

    /// The command to confirm, if there is one.
    fn command(&self) -> (r: Option<&[String]>)
        ensures
            match r {
                Some(a) => command_of(self@) == Some(text::texts(a@)),
                None => command_of(self@) is None,
            },
    {
        match self {
            Purpose::Run { argv, .. } => Some(argv.as_slice()),
            Purpose::GrantAll { .. } => None,
        }
    }

    /// The lease of a grant that is made or upgraded.
    fn ttl_secs(&self) -> (r: u64)
        ensures
            r == ttl_of(self@),
    {
        match self {
            Purpose::Run { .. } => duration::GRANT_TTL_SECS,
            Purpose::GrantAll { ttl_secs } => *ttl_secs,
        }
    }
}

/// The question of the first use of a source.
fn establish_prompt(src: &Source, purpose: &Purpose) -> (r: String)
    ensures
        r@ == establish_text(src@, purpose@),
{
    if purpose.makes_allow_all() {
        source::allow_all_prompt(src, purpose.ttl_secs())
    } else {
        source::first_run_prompt(src, purpose.command(), purpose.ttl_secs())
    }
}

/// The reply of a job whose sources are all authorized.
fn finish_reply(count: usize, merged: Vec<(String, String)>, purpose: &Purpose) -> (r: Response)
    ensures
        forall|job: JobView|
            job.sources.len() == count && job.merged == text::pairs(merged@) && job.purpose
                == purpose@ ==> r@ == #[trigger] finish(job),
{
    match purpose {
        Purpose::Run { .. } => Response::Granted { secrets: merged },
        Purpose::GrantAll { ttl_secs } => Response::Done {
            message: text::text("allow-all granted for ").concat(
                text::decimal_text(count as u64).as_str(),
            ).concat(" source(s) (").concat(duration::humanize_secs(*ttl_secs).as_str()).concat(
                ")",
            ),
        },
    }
}

/// Authorize sources from the one with index `from` on.
///
/// * **First use** — if no live grant exists, ask for one.
/// * **Per command** — when the grant is *not* allow-all, ask about this
///   command; where the purpose makes it allow-all, ask about that instead.
fn authorize(
    state: &mut State,
    sources: Vec<Source>,
    from: usize,
    merged: Vec<(String, String)>,
    purpose: Purpose,
    now: u64,
) -> (r: Step)
    requires
        from <= sources@.len(),
    ensures
        (final(state)@, r@) == advance(
            old(state)@,
            JobView {
                sources: source::sources_of(sources@),
                next: from as nat,
                merged: text::pairs(merged@),
                purpose: purpose@,
            },
            now,
        ),
{
    let ghost views: Seq<SourceView> = source::sources_of(sources@);
    let ghost first = JobView {
        sources: views,
        next: from as nat,
        merged: text::pairs(merged@),
        purpose: purpose@,
    };
    let mut next: usize = from;
    let mut total: Vec<(String, String)> = merged;
    while next < sources.len()
        invariant
            next <= sources@.len(),
            views == source::sources_of(sources@),
            first == (JobView {
                sources: views,
                next: from as nat,
                merged: text::pairs(merged@),
                purpose: purpose@,
            }),
            advance(
                state@,
                JobView {
                    sources: views,
                    next: next as nat,
                    merged: text::pairs(total@),
                    purpose: purpose@,
                },
                now,
            ) == advance(old(state)@, first, now),
        decreases sources@.len() - next,
    {
        let src: &Source = &sources[next];
        let ghost job = JobView {
            sources: views,
            next: next as nat,
            merged: text::pairs(total@),
            purpose: purpose@,
        };
        assert(current(job) == src@);
        match state.live(src.key(), now) {
            None => {
                let prompt: String = establish_prompt(src, &purpose);
                let question = Question::Establish { job: Job { sources, next, merged: total, purpose } };
                return Step::Ask { prompt, question };
            },
            Some(live) => {
                if purpose.makes_allow_all() {
                    let prompt: String = source::allow_all_prompt(src, purpose.ttl_secs());
                    let question = Question::Upgrade {
                        job: Job { sources, next, merged: total, purpose },
                        values: live.values,
                    };
                    return Step::Ask { prompt, question };
                }
                if !live.allow_all {
                    // Only a command gets here: the other purpose has been asked about.
                    let prompt: String = match &purpose {
                        Purpose::Run { argv, .. } => source::per_command_prompt(
                            src,
                            argv.as_slice(),
                        ),
                        Purpose::GrantAll { .. } => source::allow_all_prompt(
                            src,
                            purpose.ttl_secs(),
                        ),
                    };
                    let question = Question::Confirm {
                        job: Job { sources, next, merged: total, purpose },
                    };
                    return Step::Ask { prompt, question };
                }
                total = merge_values(total, &live.values);
            },
        }
        next = next + 1;
    }
    Step::Reply { response: finish_reply(sources.len(), total, &purpose) }
}

impl Job {
    /// The source that is being authorized.
    fn source(&self) -> (r: &Source)
        ensures
            r@ == current(self@),
    {
        proof {
            use_type_invariant(self);
        }
        &self.sources[self.next]
    }

    /// Go on after the current source gave `values`.
    fn go_on(self, state: &mut State, values: &Vec<(String, String)>, now: u64) -> (r: Step)
        ensures
            (final(state)@, r@) == advance(
                old(state)@,
                collect(self@, text::pairs(values@)),
                now,
            ),
    {
        proof {
            use_type_invariant(&self);
            assert(self.sources.len() == self.sources@.len());
        }
        let from: usize = self.next + 1;
        let merged: Vec<(String, String)> = merge_values(self.merged, values);
        authorize(state, self.sources, from, merged, self.purpose, now)
    }
}

/// What a yes or no of the human leads to.
pub fn answered_at(state: &mut State, question: Question, approved: bool, now: u64) -> (r: Step)
    ensures
        (final(state)@, r@) == after_answer(old(state)@, question@, approved, now),
{
    match question {
        Question::Establish { job } => if approved {
            let source: Source = job.source().copy();
            Step::Fetch { source, job }
        } else {
            deny(text::text("grant not approved for ").concat(job.source().key()))
        },
        Question::Upgrade { job, values } => if approved {
            let ttl_secs: u64 = job.purpose.ttl_secs();
            let _live: bool = state.set_allow_all(job.source().key(), ttl_secs, now);
            job.go_on(state, &values, now)
        } else {
            deny(text::text("allow-all not approved for ").concat(job.source().key()))
        },
        Question::Confirm { job } => if approved {
            // The grant may have expired while the question stood.
            match state.live(job.source().key(), now) {
                Some(live) => job.go_on(state, &live.values, now),
                None => deny(
                    text::text("grant for ").concat(job.source().key()).concat(
                        " expired during approval",
                    ),
                ),
            }
        } else {
            deny(text::text("command not approved"))
        },
    }
}

/// What the values of a source, or the failure to obtain them, lead to: the
/// values are granted, a failure is replied verbatim.
pub fn fetched_at(state: &mut State, job: Job, values: Result<Vars, Response>, now: u64) -> (r: Step)
    ensures
        (final(state)@, r@) == after_fetch(old(state)@, job@, env_file::values_of(values), now),
{
    match values {
        Ok(v) => {
            let entries: Vec<(String, String)> = v.entries();
            let ttl_secs: u64 = job.purpose.ttl_secs();
            let allow_all: bool = job.purpose.makes_allow_all();
            state.add(text::text(job.source().key()), v, ttl_secs, allow_all, now);
            job.go_on(state, &entries, now)
        },
        Err(response) => Step::Reply { response },
    }
}

/// The start of a job with these files and profiles.
fn start_job(
    state: &mut State,
    files: &Vec<FilePath>,
    aws_profiles: &Vec<String>,
    purpose: Purpose,
    now: u64,
) -> (r: Step)
    ensures
        (final(state)@, r@) == start(
            old(state)@,
            source::source_list(files_of(files@), text::texts(aws_profiles@)),
            purpose@,
            now,
        ),
{
    let sources: Vec<Source> = source::build_sources(files, aws_profiles);
    let merged: Vec<(String, String)> = Vec::new();
    assert(text::pairs(merged@) =~= Seq::empty());
    authorize(state, sources, 0, merged, purpose, now)
}

/// The resolution of the files of a request, of which some are resolved.
fn resolve_from(
    state: &mut State,
    cwd: FilePath,
    env: Vec<String>,
    files: Vec<FilePath>,
    aws_profiles: Vec<String>,
    purpose: Purpose,
    now: u64,
) -> (r: Step)
    ensures
        (final(state)@, r@) == resolve_next(
            old(state)@,
            LookupsView {
                cwd: cwd@,
                env: text::texts(env@),
                files: files_of(files@),
                aws_profiles: text::texts(aws_profiles@),
                purpose: purpose@,
            },
            now,
        ),
{
    if files.len() < env.len() {
        let path: FilePath = cwd.join(env[files.len()].as_str());
        Step::Resolve {
            path,
            resolving: Resolving::Sources {
                lookups: Lookups { cwd, env, files, aws_profiles, purpose },
            },
        }
    } else {
        start_job(state, &files, &aws_profiles, purpose, now)
    }
}

/// Drop the grant of one source, or all.
fn clear_reply(state: &mut State, target: Option<&str>) -> (r: Step)
    ensures
        (final(state)@, r@) == after_clear(
            old(state)@,
            match target {
                Some(p) => Some(p@),
                None => None,
            },
        ),
{
    let n: usize = state.clear(target);
    Step::Reply {
        response: Response::Done {
            message: text::text("cleared ").concat(text::decimal_text(n as u64).as_str()).concat(
                " grant(s)",
            ),
        },
    }
}

/// What the caller's working directory, or the text of the error that finding
/// it gave, leads to.
pub fn cwd_found_at(
    state: &mut State,
    errand: Errand,
    cwd: Result<FilePath, String>,
    now: u64,
) -> (r: Step)
    ensures
        (final(state)@, r@) == after_cwd(old(state)@, errand@, config::path_or_reason(cwd), now),
{
    match errand {
        Errand::Clear { path } => match cwd {
            Ok(dir) => Step::Resolve {
                path: dir.join(path.as_str()),
                resolving: Resolving::Clear { path },
            },
            Err(_) => clear_reply(state, Some(path.as_str())),
        },
        Errand::Sources { pid, env, aws_profiles, purpose } => match cwd {
            Ok(dir) => {
                let files: Vec<FilePath> = Vec::new();
                assert(files_of(files@) =~= Seq::empty());
                resolve_from(state, dir, env, files, aws_profiles, purpose, now)
            },
            Err(e) => fail(
                text::text("cannot determine caller cwd (pid ").concat(
                    text::signed_decimal_text(pid).as_str(),
                ).concat("): ").concat(e.as_str()),
            ),
        },
    }
}

/// What a canonical path, or the text of the error that finding it gave, leads
/// to.
pub fn resolved_at(
    state: &mut State,
    resolving: Resolving,
    found: Result<FilePath, String>,
    now: u64,
) -> (r: Step)
    ensures
        (final(state)@, r@) == after_resolve(old(state)@, resolving@, config::path_or_reason(found), now),
{
    match resolving {
        Resolving::Clear { path } => match found {
            Ok(file) => clear_reply(state, Some(file.display().as_str())),
            Err(_) => clear_reply(state, Some(path.as_str())),
        },
        Resolving::Sources { lookups } => {
            proof {
                use_type_invariant(&lookups);
            }
            match found {
                Ok(file) => {
                    let mut files: Vec<FilePath> = lookups.files;
                    let ghost done: Seq<Seq<u8>> = files_of(files@);
                    files.push(file);
                    assert(files_of(files@) =~= done.push(file@));
                    resolve_from(
                        state,
                        lookups.cwd,
                        lookups.env,
                        files,
                        lookups.aws_profiles,
                        lookups.purpose,
                        now,
                    )
                },
                Err(e) => fail(
                    text::text("cannot resolve ").concat(
                        lookups.env[lookups.files.len()].as_str(),
                    ).concat(": ").concat(e.as_str()),
                ),
            }
        },
    }
}

/// Look up the sources of a request.
fn gather_sources(
    state: &mut State,
    pid: i32,
    env: Vec<String>,
    aws_profiles: Vec<String>,
    purpose: Purpose,
    now: u64,
) -> (r: Step)
    ensures
        (final(state)@, r@) == gather(
            old(state)@,
            pid,
            text::texts(env@),
            text::texts(aws_profiles@),
            purpose@,
            now,
        ),
{
    if env.len() > 0 {
        Step::FindCwd { pid, errand: Errand::Sources { pid, env, aws_profiles, purpose } }
    } else {
        let files: Vec<FilePath> = Vec::new();
        assert(files_of(files@) =~= Seq::empty());
        start_job(state, &files, &aws_profiles, purpose, now)
    }
}

/// Drop grants. A path names the file it stands for in the caller's working
/// directory, so that it matches the key the grant is stored under; an
/// `aws:<profile>` key is no path and is matched verbatim.
pub fn clear_at(state: &mut State, path: Option<String>, pid: i32, now: u64) -> (r: Step)
    ensures
        (final(state)@, r@) == after_request(
            old(state)@,
            RequestView::Clear { path: proto::opt_text(path) },
            pid,
            now,
        ),
{
    match path {
        Some(p) => if text::starts_with(p.as_str(), source::AWS_SOURCE_PREFIX) {
            clear_reply(state, Some(p.as_str()))
        } else {
            Step::FindCwd { pid, errand: Errand::Clear { path: p } }
        },
        None => clear_reply(state, None),
    }
}

/// Pre-authorize sources in allow-all mode (no command). A lease over the
/// maximum is refused, not clamped.
pub fn grant_all_at(
    state: &mut State,
    env: Vec<String>,
    aws_profiles: Vec<String>,
    lease_secs: Option<u64>,
    pid: i32,
    now: u64,
) -> (r: Step)
    ensures
        (final(state)@, r@) == after_request(
            old(state)@,
            RequestView::GrantAll {
                env: text::texts(env@),
                aws_profiles: text::texts(aws_profiles@),
                lease_secs,
            },
            pid,
            now,
        ),
{
    if env.len() == 0 && aws_profiles.len() == 0 {
        return fail(
            text::text("grant-all requires at least one --env <path> or --aws-profile <profile>"),
        );
    }
    let ttl_secs: u64 = match lease_secs {
        Some(n) => n,
        None => duration::GRANT_TTL_SECS,
    };
    if ttl_secs > duration::GRANT_TTL_MAX_SECS {
        return deny(duration::over_max_message(ttl_secs));
    }
    gather_sources(state, pid, env, aws_profiles, Purpose::GrantAll { ttl_secs }, now)
}

/// Authorize sources for a command, whose values are then released.
pub fn run_at(
    state: &mut State,
    env: Vec<String>,
    aws_profiles: Vec<String>,
    argv: Vec<String>,
    grant_all: bool,
    pid: i32,
    now: u64,
) -> (r: Step)
    ensures
        (final(state)@, r@) == after_request(
            old(state)@,
            RequestView::Run {
                env: text::texts(env@),
                aws_profiles: text::texts(aws_profiles@),
                argv: text::texts(argv@),
                grant_all,
            },
            pid,
            now,
        ),
{
    if argv.len() == 0 {
        return fail(text::text("run requires a command"));
    }
    if env.len() == 0 && aws_profiles.len() == 0 {
        return fail(
            text::text("run requires at least one --env <path> or --aws-profile <profile>"),
        );
    }
    gather_sources(state, pid, env, aws_profiles, Purpose::Run { argv, grant_all }, now)
}

/// What a request of a peer leads to.
pub fn dispatch_at(state: &mut State, request: Request, peer: &Peer, now: u64) -> (r: Step)
    ensures
        (final(state)@, r@) == after_request(old(state)@, request@, peer.pid, now),
{
    match request {
        Request::Clear { path } => clear_at(state, path, peer.pid, now),
        Request::Status => Step::Reply {
            response: Response::Status { captures: state.info(now) },
        },
        Request::GrantAll { env, aws_profiles, lease_secs } => grant_all_at(
            state,
            env,
            aws_profiles,
            lease_secs,
            peer.pid,
            now,
        ),
        Request::Run { env, aws_profiles, argv, grant_all } => run_at(
            state,
            env,
            aws_profiles,
            argv,
            grant_all,
            peer.pid,
            now,
        ),
    }
}

// ---------------------------------------------------------------------------
// Before there is a request

/// What a connection leads to, for the peer's credentials or the text of the
/// error that reading them gave: only the user who owns the daemon may reach
/// their secrets.
pub fn connected(peer: Result<Peer, String>, own_uid: u32) -> (r: Step)
    ensures
        r@ == after_connect(
            match peer {
                Ok(p) => Ok(p),
                Err(e) => Err(e@),
            },
            own_uid,
        ),
{
    match peer {
        Ok(p) => if p.uid == own_uid {
            Step::ReadLine { caller: Caller { peer: p } }
        } else {
            deny(
                text::text("connection from uid ").concat(
                    text::decimal_text(p.uid as u64).as_str(),
                ).concat(" refused"),
            )
        },
        Err(e) => fail(text::text("cannot read peer credentials: ").concat(e.as_str())),
    }
}

/// What a line of a caller leads to.
pub fn line_read(caller: Caller, heard: Heard) -> (r: Step)
    ensures
        r@ == after_line(caller@, heard@),
{
    match heard {
        Heard::Nothing { error } => fail(text::text("socket error: ").concat(error.as_str())),
        Heard::Broken { error } => fail(text::text("read error: ").concat(error.as_str())),
        Heard::Line { line } => {
            proof {
                reveal_strlit("");
                if line@.len() == 0 {
                    assert(line@ =~= ""@);
                }
            }
            if text::same(line.as_str(), "") {
                fail(text::text("client closed without sending a request"))
            } else {
                Step::Decode { text: text::trim(line.as_str()), caller }
            }
        },
    }
}

/// What a request of a caller leads to, or the text of the error that reading
/// it gave.
pub fn decoded_at(
    state: &mut State,
    caller: Caller,
    request: Result<Request, String>,
    now: u64,
) -> (r: Step)
    ensures
        (final(state)@, r@) == after_decode(
            old(state)@,
            caller@,
            match request {
                Ok(q) => Ok(q@),
                Err(e) => Err(e@),
            },
            now,
        ),
{
    match request {
        Ok(q) => dispatch_at(state, q, &caller.peer, now),
        Err(e) => fail(text::text("malformed request: ").concat(e.as_str())),
    }
}

// ---------------------------------------------------------------------------
// The daemon

/// The grants, and the clock that their leases go by.
pub struct Daemon {
    state: State,
    clock: Clock,
}

impl View for Daemon {
    type V = Store;

    closed spec fn view(&self) -> Store {
        self.state@
    }
}

impl Daemon {
    /// The time of the last event.
    pub closed spec fn time(&self) -> u64 {
        self.clock@
    }

    /// A daemon without grants.
    pub fn new() -> (r: Daemon)
        ensures
            r@ == Seq::<state::GrantView>::empty(),
    {
        Daemon { state: State::default(), clock: Clock::new() }
    }

    /// What a request of a caller leads to.
    pub fn decoded(&mut self, caller: Caller, request: Result<Request, String>) -> (r: Step)
        ensures
            old(self).time() <= final(self).time(),
            (final(self)@, r@) == after_decode(
                old(self)@,
                caller@,
                match request {
                    Ok(q) => Ok(q@),
                    Err(e) => Err(e@),
                },
                final(self).time(),
            ),
    {
        let now: u64 = self.clock.now();
        decoded_at(&mut self.state, caller, request, now)
    }

    /// What the caller's working directory leads to.
    pub fn cwd_found(&mut self, errand: Errand, cwd: Result<FilePath, String>) -> (r: Step)
        ensures
            old(self).time() <= final(self).time(),
            (final(self)@, r@) == after_cwd(
                old(self)@,
                errand@,
                config::path_or_reason(cwd),
                final(self).time(),
            ),
    {
        let now: u64 = self.clock.now();
        cwd_found_at(&mut self.state, errand, cwd, now)
    }

    /// What a canonical path leads to.
    pub fn resolved(&mut self, resolving: Resolving, found: Result<FilePath, String>) -> (r: Step)
        ensures
            old(self).time() <= final(self).time(),
            (final(self)@, r@) == after_resolve(
                old(self)@,
                resolving@,
                config::path_or_reason(found),
                final(self).time(),
            ),
    {
        let now: u64 = self.clock.now();
        resolved_at(&mut self.state, resolving, found, now)
    }

    /// What a yes or no of the human leads to.
    pub fn answered(&mut self, question: Question, approved: bool) -> (r: Step)
        ensures
            old(self).time() <= final(self).time(),
            (final(self)@, r@) == after_answer(
                old(self)@,
                question@,
                approved,
                final(self).time(),
            ),
    {
        let now: u64 = self.clock.now();
        answered_at(&mut self.state, question, approved, now)
    }

    /// What the values of a source lead to.
    pub fn fetched(&mut self, job: Job, values: Result<Vars, Response>) -> (r: Step)
        ensures
            old(self).time() <= final(self).time(),
            (final(self)@, r@) == after_fetch(
                old(self)@,
                job@,
                env_file::values_of(values),
                final(self).time(),
            ),
    {
        let now: u64 = self.clock.now();
        fetched_at(&mut self.state, job, values, now)
    }
}

} // verus!
