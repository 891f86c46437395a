//! What each request and each event comes to, for the grants and for the caller.

use vstd::prelude::*;

use crate::daemon;
use crate::daemon::{
    ErrandView, HeardView, JobView, LookupsView, PurposeView, QuestionView, ResolvingView,
    StepView,
};
use crate::duration;
use crate::guarantees;
use crate::guarantees::{Event, Moment};
use crate::paths;
use crate::peer::Peer;
use crate::proto::{RequestView, ResponseView};
use crate::source;
use crate::source::SourceView;
use crate::state;
use crate::state::{GrantView, Store};
use crate::text;
use crate::vars::Listing;

verus! {

/// The reply with this message.
pub open spec fn done(message: Seq<char>) -> StepView {
    StepView::Reply { response: ResponseView::Done { message } }
}

/// The refusal for this reason.
pub open spec fn refused(reason: Seq<char>) -> StepView {
    StepView::Reply { response: ResponseView::Denied { reason } }
}

/// The error with this message.
pub open spec fn broken(message: Seq<char>) -> StepView {
    StepView::Reply { response: ResponseView::Error { message } }
}

/// The seconds that a yes is for: an hour for a command, and the lease that was
/// asked for otherwise.
pub open spec fn seconds_asked(p: PurposeView) -> int {
    match p {
        PurposeView::Run { .. } => 3600,
        PurposeView::GrantAll { ttl_secs } => ttl_secs as int,
    }
}

/// Whether a yes lets all commands through.
pub open spec fn asks_for_all(p: PurposeView) -> bool {
    match p {
        PurposeView::Run { grant_all, .. } => grant_all,
        PurposeView::GrantAll { .. } => true,
    }
}

// ---------------------------------------------------------------------------
// Leases

/// Advancing a job drops expired grants at most.
proof fn advancing_keeps(s: Store, job: JobView, now: u64, g: GrantView)
    requires
        job.next <= job.sources.len(),
    ensures
        daemon::advance(s, job, now).0.contains(g) ==> s.contains(g),
        s.contains(g) && g.expires_at > now ==> daemon::advance(s, job, now).0.contains(g),
{
    guarantees::passes_only_open_sources(s, job, now);
    state::the_running_grants_are_kept(s, now, g);
}

/// A yes to allow-all gives the grant of the source exactly the lease that was
/// asked about, from the moment of the yes: it keeps its values, lets all
/// commands through, and ends that many seconds later, whatever was left of it
/// before. No other grant changes.
pub proof fn a_yes_to_all_starts_its_lease(
    s: Store,
    job: JobView,
    values: Listing,
    now: u64,
    g: GrantView,
)
    requires
        state::one_per_source(s),
        job.next < job.sources.len(),
    ensures
        ({
            let key = source::key_of(job.sources[job.next as int]);
            let after = daemon::after_answer(s, QuestionView::Upgrade { job, values }, true, now).0;
            let end = now + seconds_asked(job.purpose) * 1_000_000_000;
            &&& after.contains(g) && g.source == key ==> g.allow_all && g.expires_at == end
                && exists|x: GrantView|
                {
                    &&& #[trigger] s.contains(x)
                    &&& x.source == key
                    &&& x.values == g.values
                    &&& x.expires_at > now
                }
            &&& s.contains(g) && g.source == key && g.expires_at > now && end > now
                ==> after.contains(
                GrantView { allow_all: true, expires_at: end as nat, ..g },
            )
            &&& after.contains(g) && g.source != key ==> s.contains(g)
            &&& s.contains(g) && g.source != key && g.expires_at > now ==> after.contains(g)
        }),
{
    let key = source::key_of(job.sources[job.next as int]);
    let ttl_secs = match job.purpose {
        PurposeView::Run { .. } => 3600u64,
        PurposeView::GrantAll { ttl_secs } => ttl_secs,
    };
    let mid = state::upgraded(s, key, ttl_secs, now);
    let next = daemon::collect(job, values);
    let end = now + ttl_secs * 1_000_000_000;
    let turned = GrantView { allow_all: true, expires_at: end as nat, ..g };
    state::upgrading_turns(s, key, ttl_secs, now, g);
    state::upgrading_turns(s, key, ttl_secs, now, turned);
    advancing_keeps(mid, next, now, g);
    advancing_keeps(mid, next, now, turned);
}

/// The values of a source that were just obtained are granted for exactly the
/// lease that was asked about, from that moment, in the mode that was asked
/// about. No other grant changes.
pub proof fn new_values_start_their_lease(
    s: Store,
    job: JobView,
    values: Listing,
    now: u64,
    g: GrantView,
)
    requires
        job.next < job.sources.len(),
    ensures
        ({
            let key = source::key_of(job.sources[job.next as int]);
            let after = daemon::after_fetch(s, job, Ok(values), now).0;
            let end = now + seconds_asked(job.purpose) * 1_000_000_000;
            let fresh = GrantView {
                source: key,
                values,
                expires_at: end as nat,
                allow_all: asks_for_all(job.purpose),
            };
            &&& after.contains(g) && g.source == key ==> g == fresh
            &&& end > now ==> after.contains(fresh)
            &&& after.contains(g) && g.source != key ==> s.contains(g)
            &&& s.contains(g) && g.source != key && g.expires_at > now ==> after.contains(g)
        }),
{
    let key = source::key_of(job.sources[job.next as int]);
    let allow_all = asks_for_all(job.purpose);
    let ttl_secs = match job.purpose {
        PurposeView::Run { .. } => 3600u64,
        PurposeView::GrantAll { ttl_secs } => ttl_secs,
    };
    let mid = state::granted(s, key, values, ttl_secs, allow_all, now);
    let next = daemon::collect(job, values);
    let end = now + ttl_secs * 1_000_000_000;
    let fresh = GrantView { source: key, values, expires_at: end as nat, allow_all };
    state::granting_replaces(s, key, values, ttl_secs, allow_all, now, g);
    state::granting_replaces(s, key, values, ttl_secs, allow_all, now, fresh);
    advancing_keeps(mid, next, now, g);
    advancing_keeps(mid, next, now, fresh);
}

/// The request that a step answers clears grants.
pub open spec fn clears(at: (Store, StepView), m: Moment) -> bool {
    match (at.1, m.event) {
        (StepView::Decode { .. }, Event::Request { request: Ok(RequestView::Clear { .. }) }) => true,
        (StepView::FindCwd { errand: ErrandView::Clear { .. }, .. }, _) => true,
        (StepView::Resolve { resolving: ResolvingView::Clear { .. }, .. }, _) => true,
        _ => false,
    }
}

/// The event makes a grant, or changes one.
pub open spec fn grants(at: (Store, StepView), m: Moment) -> bool {
    match (at.1, m.event) {
        (StepView::Fetch { .. }, Event::Values { values: Ok(_) }) => true,
        (StepView::Ask { question: QuestionView::Upgrade { .. }, .. }, Event::Answer {
            approved: true,
        }) => true,
        _ => false,
    }
}

/// Every event but a yes, the values that it leads to, and a request to clear
/// leaves the running grants as they are, and adds none.
pub proof fn nothing_else_changes_a_grant(at: (Store, StepView), m: Moment, g: GrantView)
    requires
        guarantees::has_subject(at.1),
        !clears(at, m),
        !grants(at, m),
    ensures
        guarantees::react(at, m).0.contains(g) ==> at.0.contains(g),
        at.0.contains(g) && g.expires_at > m.now ==> guarantees::react(at, m).0.contains(g),
{
    let s = at.0;
    let now = m.now;
    state::the_running_grants_are_kept(s, now, g);
    let none: Seq<Seq<u8>> = Seq::empty();
    match (at.1, m.event) {
        (StepView::Decode { .. }, Event::Request { request: Ok(q) }) => {
            match q {
                RequestView::Run { aws_profiles, argv, grant_all, .. } => {
                    let sources = source::source_list(none, aws_profiles);
                    let purpose = PurposeView::Run { argv, grant_all };
                    let job = JobView { sources, next: 0, merged: Seq::empty(), purpose };
                    advancing_keeps(s, job, now, g);
                },
                RequestView::GrantAll { aws_profiles, lease_secs, .. } => {
                    let sources = source::source_list(none, aws_profiles);
                    let purpose = PurposeView::GrantAll {
                        ttl_secs: daemon::lease_or_default(lease_secs),
                    };
                    let job = JobView { sources, next: 0, merged: Seq::empty(), purpose };
                    advancing_keeps(s, job, now, g);
                },
                _ => {},
            }
        },
        (
            StepView::FindCwd { errand: ErrandView::Sources { aws_profiles, purpose, .. }, .. },
            Event::Cwd { .. },
        ) => {
            let sources = source::source_list(none, aws_profiles);
            let job = JobView { sources, next: 0, merged: Seq::empty(), purpose };
            advancing_keeps(s, job, now, g);
        },
        (
            StepView::Resolve { resolving: ResolvingView::Sources { lookups: l }, .. },
            Event::Canonical { found: Ok(file) },
        ) => {
            let sources = source::source_list(l.files.push(file), l.aws_profiles);
            let job = JobView { sources, next: 0, merged: Seq::empty(), purpose: l.purpose };
            advancing_keeps(s, job, now, g);
        },
        (
            StepView::Ask { question: QuestionView::Confirm { job }, .. },
            Event::Answer { approved: true },
        ) => {
            if let Some(x) = state::live_grant(s, daemon::current_key(job), now) {
                advancing_keeps(
                    state::unexpired(s, now),
                    daemon::collect(job, x.values),
                    now,
                    g,
                );
            }
        },
        _ => {},
    }
}

// ---------------------------------------------------------------------------
// Questions and answers

/// Nothing of the store lets a source be used at `now`.
pub open spec fn is_closed(s: Store, key: Seq<char>, now: u64) -> bool {
    forall|g: GrantView| #[trigger] s.contains(g) && g.source == key ==> g.expires_at <= now
}

/// Which question a source leads to: one that has no running grant is asked
/// about with the command, or with the fact that none will be shown; one that
/// has is asked about again where all commands are to be let through, and
/// otherwise about this command unless it lets all of them through. The question
/// shows the lease that a yes starts.
pub proof fn the_right_question_is_asked(
    s: Store,
    sources: Seq<SourceView>,
    next: nat,
    merged: Listing,
    argv: Seq<Seq<char>>,
    ttl_secs: u64,
    now: u64,
)
    requires
        state::one_per_source(s),
        next < sources.len(),
    ensures
        ({
            let src = sources[next as int];
            let run = JobView {
                sources,
                next,
                merged,
                purpose: PurposeView::Run { argv, grant_all: false },
            };
            let run_all = JobView {
                sources,
                next,
                merged,
                purpose: PurposeView::Run { argv, grant_all: true },
            };
            let grant = JobView {
                sources,
                next,
                merged,
                purpose: PurposeView::GrantAll { ttl_secs },
            };
            &&& is_closed(s, source::key_of(src), now) ==> {
                &&& daemon::advance(s, run, now).1 == (StepView::Ask {
                    prompt: source::first_run_text(src, Some(argv), 3600),
                    question: QuestionView::Establish { job: run },
                })
                &&& daemon::advance(s, run_all, now).1 == (StepView::Ask {
                    prompt: source::allow_all_text(src, 3600),
                    question: QuestionView::Establish { job: run_all },
                })
                &&& daemon::advance(s, grant, now).1 == (StepView::Ask {
                    prompt: source::allow_all_text(src, ttl_secs),
                    question: QuestionView::Establish { job: grant },
                })
            }
            &&& forall|g: GrantView| #[trigger]
                s.contains(g) && g.source == source::key_of(src) && g.expires_at > now ==> {
                    &&& daemon::advance(s, run_all, now).1 == (StepView::Ask {
                        prompt: source::allow_all_text(src, 3600),
                        question: QuestionView::Upgrade { job: run_all, values: g.values },
                    })
                    &&& daemon::advance(s, grant, now).1 == (StepView::Ask {
                        prompt: source::allow_all_text(src, ttl_secs),
                        question: QuestionView::Upgrade { job: grant, values: g.values },
                    })
                    &&& !g.allow_all ==> daemon::advance(s, run, now).1 == (StepView::Ask {
                        prompt: source::per_command_text(src, argv),
                        question: QuestionView::Confirm { job: run },
                    })
                }
        }),
{
    let key = source::key_of(sources[next as int]);
    state::live_means_running(s, key, now);
}

/// A yes is honoured: a source that may be granted is read, and that one; where
/// a live grant may be used, nothing refuses the request at this step.
pub proof fn a_yes_is_honoured(s: Store, job: JobView, values: Listing, now: u64)
    requires
        state::one_per_source(s),
        job.next < job.sources.len(),
    ensures
        daemon::after_answer(s, QuestionView::Establish { job }, true, now) == (
            s,
            StepView::Fetch { source: job.sources[job.next as int], job },
        ),
        !is_refusal(daemon::after_answer(s, QuestionView::Upgrade { job, values }, true, now).1),
        !is_refusal(daemon::after_fetch(s, job, Ok(values), now).1),
        is_closed(s, source::key_of(job.sources[job.next as int]), now) <==> is_refusal(
            daemon::after_answer(s, QuestionView::Confirm { job }, true, now).1,
        ),
{
    let key = source::key_of(job.sources[job.next as int]);
    state::live_means_running(s, key, now);
    guarantees::passes_only_open_sources(
        state::upgraded(s, key, daemon::ttl_of(job.purpose), now),
        daemon::collect(job, values),
        now,
    );
    guarantees::passes_only_open_sources(
        state::granted(
            s,
            key,
            values,
            daemon::ttl_of(job.purpose),
            daemon::makes_allow_all(job.purpose),
            now,
        ),
        daemon::collect(job, values),
        now,
    );
    if let Some(g) = state::live_grant(s, key, now) {
        guarantees::passes_only_open_sources(
            state::unexpired(s, now),
            daemon::collect(job, g.values),
            now,
        );
        assert(s.contains(g));
    }
}

/// The request is refused, or fails.
pub open spec fn is_refusal(step: StepView) -> bool {
    step matches StepView::Reply { response } && (response is Denied || response is Error)
}

/// A no is answered with what was not approved; the grant that ended at its
/// prompt is named, too.
pub proof fn a_refusal_says_what_was_refused(s: Store, job: JobView, values: Listing, now: u64)
    requires
        state::one_per_source(s),
        job.next < job.sources.len(),
    ensures
        ({
            let key = source::key_of(job.sources[job.next as int]);
            &&& daemon::after_answer(s, QuestionView::Establish { job }, false, now) == (
                s,
                refused("grant not approved for "@ + key),
            )
            &&& daemon::after_answer(s, QuestionView::Upgrade { job, values }, false, now) == (
                s,
                refused("allow-all not approved for "@ + key),
            )
            &&& daemon::after_answer(s, QuestionView::Confirm { job }, false, now) == (
                s,
                refused("command not approved"@),
            )
            &&& is_closed(s, key, now) ==> daemon::after_answer(
                s,
                QuestionView::Confirm { job },
                true,
                now,
            ).1 == refused("grant for "@ + key + " expired during approval"@)
        }),
{
    state::live_means_running(s, source::key_of(job.sources[job.next as int]), now);
}

/// Where a yes to one source leads on to another, the job is the same but for
/// the sources that are done with: the command, the mode, the lease and the list
/// of sources do not change on the way.
pub proof fn a_job_stays_the_same(at: (Store, StepView), m: Moment)
    requires
        guarantees::has_subject(at.1),
        at.1 is Ask || at.1 is Fetch,
    ensures
        ({
            let old_job = subject_of(at.1);
            let step = guarantees::react(at, m).1;
            step is Ask || step is Fetch ==> {
                &&& subject_of(step).sources == old_job.sources
                &&& subject_of(step).purpose == old_job.purpose
                &&& subject_of(step).next >= old_job.next
            }
        }),
{
    let s = at.0;
    let now = m.now;
    match (at.1, m.event) {
        (StepView::Ask { question, .. }, Event::Answer { approved: true }) => {
            let job = guarantees::job_of(question);
            let key = daemon::current_key(job);
            match question {
                QuestionView::Establish { .. } => {},
                QuestionView::Upgrade { values, .. } => {
                    guarantees::passes_only_open_sources(
                        state::upgraded(s, key, daemon::ttl_of(job.purpose), now),
                        daemon::collect(job, values),
                        now,
                    );
                },
                QuestionView::Confirm { .. } => {
                    if let Some(g) = state::live_grant(s, key, now) {
                        guarantees::passes_only_open_sources(
                            state::unexpired(s, now),
                            daemon::collect(job, g.values),
                            now,
                        );
                    }
                },
            }
        },
        (StepView::Fetch { job, .. }, Event::Values { values: Ok(v) }) => {
            guarantees::passes_only_open_sources(
                state::granted(
                    s,
                    daemon::current_key(job),
                    v,
                    daemon::ttl_of(job.purpose),
                    daemon::makes_allow_all(job.purpose),
                    now,
                ),
                daemon::collect(job, v),
                now,
            );
        },
        _ => {},
    }
}

/// The job that a question or a fetch is about.
pub open spec fn subject_of(step: StepView) -> JobView {
    match step {
        StepView::Ask { question, .. } => guarantees::job_of(question),
        StepView::Fetch { job, .. } => job,
        _ => arbitrary(),
    }
}

// ---------------------------------------------------------------------------
// Requests

/// A request to run a command, or for allow-all, is about the files that its
/// paths resolve to and the profiles that it names, all of them, in order, for
/// the command or the lease that it gives (an hour if it gives none).
pub proof fn a_request_is_about_its_sources(
    s: Store,
    env: Seq<Seq<char>>,
    aws_profiles: Seq<Seq<char>>,
    argv: Seq<Seq<char>>,
    grant_all: bool,
    lease_secs: Option<u64>,
    pid: i32,
    dir: Seq<u8>,
    files: Seq<Seq<u8>>,
    times: Seq<u64>,
)
    requires
        env.len() > 0 || aws_profiles.len() > 0,
        argv.len() > 0,
        lease_secs matches Some(n) ==> n <= 86_400,
        files.len() == env.len(),
        times.len() == files.len() + 1,
    ensures
        ({
            let events = if env.len() > 0 {
                guarantees::lookup_events(dir, files, times)
            } else {
                Seq::empty()
            };
            let ttl_secs = match lease_secs {
                Some(n) => n,
                None => 3600,
            };
            exists|sources: Seq<SourceView>|
                {
                    &&& #[trigger] source::are_sources_of(sources, files, aws_profiles)
                    &&& guarantees::played(
                        daemon::after_request(
                            s,
                            RequestView::Run { env, aws_profiles, argv, grant_all },
                            pid,
                            times[0],
                        ),
                        events,
                    ) == daemon::advance(
                        s,
                        JobView {
                            sources,
                            next: 0,
                            merged: Seq::empty(),
                            purpose: PurposeView::Run { argv, grant_all },
                        },
                        times.last(),
                    )
                    &&& guarantees::played(
                        daemon::after_request(
                            s,
                            RequestView::GrantAll { env, aws_profiles, lease_secs },
                            pid,
                            times[0],
                        ),
                        events,
                    ) == daemon::advance(
                        s,
                        JobView {
                            sources,
                            next: 0,
                            merged: Seq::empty(),
                            purpose: PurposeView::GrantAll { ttl_secs },
                        },
                        times.last(),
                    )
                }
        }),
{
    let sources = source::source_list(files, aws_profiles);
    let run = PurposeView::Run { argv, grant_all };
    let grant = PurposeView::GrantAll { ttl_secs: daemon::lease_or_default(lease_secs) };
    if env.len() > 0 {
        guarantees::resolved_files_are_the_sources(
            s,
            pid,
            env,
            aws_profiles,
            run,
            dir,
            files,
            times,
        );
        guarantees::resolved_files_are_the_sources(
            s,
            pid,
            env,
            aws_profiles,
            grant,
            dir,
            files,
            times,
        );
    } else {
        assert(files =~= Seq::empty());
    }
    source::what_is_named_is_a_source(files, aws_profiles, Seq::empty(), Seq::empty());
    assert(source::are_sources_of(sources, files, aws_profiles));
}

/// What is looked up on the way: the working directory of the caller, then each
/// path as seen from it, one after the other. A failure ends the request with
/// an error that says what could not be found, and no grant changes.
pub proof fn lookups_ask_for_the_paths(
    s: Store,
    env: Seq<Seq<char>>,
    aws_profiles: Seq<Seq<char>>,
    purpose: PurposeView,
    pid: i32,
    dir: Seq<u8>,
    files: Seq<Seq<u8>>,
    reason: Seq<char>,
    now: u64,
)
    requires
        files.len() < env.len(),
    ensures
        ({
            let errand = ErrandView::Sources { pid, env, aws_profiles, purpose };
            let lookups = LookupsView { cwd: dir, env, files, aws_profiles, purpose };
            let resolving = ResolvingView::Sources { lookups };
            let first = LookupsView { cwd: dir, env, files: Seq::empty(), aws_profiles, purpose };
            &&& (purpose matches PurposeView::Run { argv, grant_all } && argv.len() > 0)
                ==> daemon::after_request(
                s,
                RequestView::Run {
                    env,
                    aws_profiles,
                    argv: purpose->argv,
                    grant_all: purpose->grant_all,
                },
                pid,
                now,
            ) == (s, StepView::FindCwd { pid, errand })
            &&& (purpose matches PurposeView::GrantAll { ttl_secs } && ttl_secs <= 86_400)
                ==> daemon::after_request(
                s,
                RequestView::GrantAll { env, aws_profiles, lease_secs: Some(purpose->ttl_secs) },
                pid,
                now,
            ) == (s, StepView::FindCwd { pid, errand })
            &&& daemon::after_cwd(s, errand, Ok(dir), now) == (
                s,
                StepView::Resolve {
                    path: paths::under_text(dir, env[0]),
                    resolving: ResolvingView::Sources { lookups: first },
                },
            )
            &&& files.len() + 1 < env.len() ==> forall|file: Seq<u8>|
                #[trigger] daemon::after_resolve(s, resolving, Ok(file), now) == (
                    s,
                    StepView::Resolve {
                        path: paths::under_text(dir, env[files.len() as int + 1]),
                        resolving: ResolvingView::Sources {
                            lookups: LookupsView { files: files.push(file), ..lookups },
                        },
                    },
                )
            &&& daemon::after_cwd(s, errand, Err(reason), now) == (
                s,
                broken(
                    "cannot determine caller cwd (pid "@ + text::signed_decimal(pid as int) + "): "@
                        + reason,
                ),
            )
            &&& daemon::after_resolve(s, resolving, Err(reason), now) == (
                s,
                broken("cannot resolve "@ + env[files.len() as int] + ": "@ + reason),
            )
        }),
{
}

/// A request that names no source, or no command, fails and says so; no grant
/// changes.
pub proof fn incomplete_requests_fail(
    s: Store,
    env: Seq<Seq<char>>,
    aws_profiles: Seq<Seq<char>>,
    argv: Seq<Seq<char>>,
    grant_all: bool,
    lease_secs: Option<u64>,
    pid: i32,
    now: u64,
)
    requires
        env.len() == 0 && aws_profiles.len() == 0,
    ensures
        daemon::after_request(
            s,
            RequestView::Run { env, aws_profiles, argv, grant_all },
            pid,
            now,
        ) == (
            s,
            broken(
                if argv.len() == 0 {
                    "run requires a command"@
                } else {
                    "run requires at least one --env <path> or --aws-profile <profile>"@
                },
            ),
        ),
        daemon::after_request(
            s,
            RequestView::GrantAll { env, aws_profiles, lease_secs },
            pid,
            now,
        ) == (
            s,
            broken("grant-all requires at least one --env <path> or --aws-profile <profile>"@),
        ),
{
}

/// A request to run no command fails and says so, whatever its sources; no grant
/// changes.
pub proof fn a_command_is_required(
    s: Store,
    env: Seq<Seq<char>>,
    aws_profiles: Seq<Seq<char>>,
    grant_all: bool,
    pid: i32,
    now: u64,
)
    ensures
        daemon::after_request(
            s,
            RequestView::Run { env, aws_profiles, argv: Seq::empty(), grant_all },
            pid,
            now,
        ) == (s, broken("run requires a command"@)),
{
}

/// A lease of more than a day is refused, with both durations; a lease of up to
/// a day is not.
pub proof fn a_day_is_the_longest_lease(
    s: Store,
    env: Seq<Seq<char>>,
    aws_profiles: Seq<Seq<char>>,
    lease_secs: Option<u64>,
    pid: i32,
    now: u64,
)
    requires
        env.len() > 0 || aws_profiles.len() > 0,
    ensures
        ({
            let after = daemon::after_request(
                s,
                RequestView::GrantAll { env, aws_profiles, lease_secs },
                pid,
                now,
            );
            &&& is_refusal(after.1) <==> (lease_secs matches Some(n) && n > 86_400)
            &&& (lease_secs matches Some(n) && n > 86_400) ==> after == (
                s,
                refused(
                    "lease "@ + duration::humanized(lease_secs->0 as nat) + " exceeds maximum of "@
                        + duration::humanized(86_400),
                ),
            )
        }),
{
    let sources = source::source_list(Seq::empty(), aws_profiles);
    guarantees::passes_only_open_sources(
        s,
        JobView {
            sources,
            next: 0,
            merged: Seq::empty(),
            purpose: PurposeView::GrantAll { ttl_secs: daemon::lease_or_default(lease_secs) },
        },
        now,
    );
}

/// A request for the status is answered with what the running grants show, and
/// leaves them.
pub proof fn the_status_is_that_of_the_running_grants(
    s: Store,
    pid: i32,
    now: u64,
    g: GrantView,
)
    ensures
        daemon::after_request(s, RequestView::Status, pid, now).1 matches StepView::Reply {
            response: ResponseView::Status { captures },
        } && exists|index: Seq<int>| #[trigger] state::shows(s, now, captures, index),
        daemon::after_request(s, RequestView::Status, pid, now).0.contains(g) <==> s.contains(g)
            && g.expires_at > now,
{
    state::every_running_grant_is_shown(s, now);
    let captures = daemon::after_request(s, RequestView::Status, pid, now).1->response->captures;
    let index = choose|index: Seq<int>| #[trigger]
        state::shows(s, now, state::summaries(s, now), index);
    assert(state::shows(s, now, captures, index));
    state::the_running_grants_are_kept(s, now, g);
}

// ---------------------------------------------------------------------------
// Clearing

/// A request to clear everything leaves no grant, and says how many there were.
pub proof fn clearing_everything_leaves_nothing(s: Store, pid: i32, now: u64)
    ensures
        ({
            let (rest, step) = daemon::after_request(s, RequestView::Clear { path: None }, pid, now);
            &&& rest.len() == 0
            &&& step == done("cleared "@ + text::decimal(s.len()) + " grant(s)"@)
        }),
{
}

/// How many grants a source has, where none has two.
pub open spec fn how_many(s: Store, key: Seq<char>) -> nat {
    if exists|g: GrantView| #[trigger] s.contains(g) && g.source == key {
        1
    } else {
        0
    }
}

/// `after` is what clearing `key` comes to: its grant is gone, every other is as
/// it was, and the reply says whether there was one.
pub open spec fn drops(s: Store, key: Seq<char>, after: (Store, StepView)) -> bool {
    &&& forall|g: GrantView| #[trigger]
        after.0.contains(g) <==> s.contains(g) && g.source != key
    &&& after.0.len() == s.len() - how_many(s, key)
    &&& after.1 == done("cleared "@ + text::decimal(how_many(s, key)) + " grant(s)"@)
}

/// Dropping the grants of a source drops one at most.
proof fn clearing_drops_one(s: Store, key: Seq<char>)
    requires
        state::one_per_source(s),
    ensures
        drops(s, key, daemon::after_clear(s, Some(key))),
{
    assert forall|g: GrantView| #[trigger]
        state::cleared(s, Some(key)).contains(g) <==> s.contains(g) && g.source != key by {
        state::the_other_grants_are_kept(s, key, g);
    }
    how_many_are_dropped(s, key);
}

proof fn how_many_are_dropped(s: Store, key: Seq<char>)
    requires
        state::one_per_source(s),
    ensures
        state::cleared(s, Some(key)).len() == s.len() - how_many(s, key),
    decreases s.len(),
{
    reveal(Seq::filter);
    if s.len() > 0 {
        let t = s.drop_last();
        let last = s[s.len() - 1];
        assert forall|i: int, j: int| 0 <= i < j < t.len() implies (#[trigger] t[i]).source
            != (#[trigger] t[j]).source by {
            assert(s[i] == t[i] && s[j] == t[j]);
        }
        how_many_are_dropped(t, key);
        assert(s.contains(last));
        if exists|g: GrantView| #[trigger] t.contains(g) && g.source == key {
            let g = choose|g: GrantView| #[trigger] t.contains(g) && g.source == key;
            let k = choose|k: int| 0 <= k < t.len() && t[k] == g;
            assert(s[k] == g);
            assert(s.contains(g));
            assert(s[k].source != s[s.len() - 1].source);
        } else if exists|g: GrantView| #[trigger] s.contains(g) && g.source == key {
            let g = choose|g: GrantView| #[trigger] s.contains(g) && g.source == key;
            let k = choose|k: int| 0 <= k < s.len() && s[k] == g;
            if k < t.len() {
                assert(t[k] == g);
                assert(t.contains(g));
            }
        }
    }
}

/// A request to clear a profile drops the grant of that profile and no other,
/// at once, and says whether there was one.
pub proof fn clearing_a_profile_drops_its_grant(s: Store, profile: Seq<char>, pid: i32, now: u64)
    requires
        state::one_per_source(s),
    ensures
        drops(
            s,
            "aws:"@ + profile,
            daemon::after_request(
                s,
                RequestView::Clear { path: Some("aws:"@ + profile) },
                pid,
                now,
            ),
        ),
{
    guarantees::clear_means_the_same_profile(s, profile, pid, now);
    clearing_drops_one(s, "aws:"@ + profile);
}

/// A request to clear a path drops the grant of the file that the path names in
/// the working directory of the caller, and no other, and says whether there was
/// one. A path that cannot be looked up is taken as the key itself.
pub proof fn clearing_a_path_drops_its_grant(
    s: Store,
    path: Seq<char>,
    pid: i32,
    dir: Seq<u8>,
    file: Seq<u8>,
    reason: Seq<char>,
    now: u64,
)
    requires
        state::one_per_source(s),
        !text::occurs_at(path, "aws:"@, 0),
    ensures
        ({
            let errand = ErrandView::Clear { path };
            let resolving = ResolvingView::Clear { path };
            &&& daemon::after_request(s, RequestView::Clear { path: Some(path) }, pid, now) == (
                s,
                StepView::FindCwd { pid, errand },
            )
            &&& daemon::after_cwd(s, errand, Ok(dir), now) == (
                s,
                StepView::Resolve { path: paths::under_text(dir, path), resolving },
            )
            &&& drops(s, text::lossy(file), daemon::after_resolve(s, resolving, Ok(file), now))
            &&& drops(s, path, daemon::after_resolve(s, resolving, Err(reason), now))
            &&& drops(s, path, daemon::after_cwd(s, errand, Err(reason), now))
        }),
{
    clearing_drops_one(s, text::lossy(file));
    clearing_drops_one(s, path);
}

// ---------------------------------------------------------------------------
// Before there is a request

/// The owner of the daemon is heard; of anyone else, and of a peer that is not
/// known, the reply says why not.
pub proof fn the_owner_is_heard(peer: Peer, own_uid: u32, reason: Seq<char>)
    ensures
        daemon::after_connect(Ok(peer), own_uid) == if peer.uid == own_uid {
            StepView::ReadLine { caller: peer }
        } else {
            refused("connection from uid "@ + text::decimal(peer.uid as nat) + " refused"@)
        },
        daemon::after_connect(Err(reason), own_uid) == broken(
            "cannot read peer credentials: "@ + reason,
        ),
{
}

/// What a caller sends is read as a request, without the whitespace around it;
/// where nothing could be read, the reply says why.
pub proof fn a_line_is_read_as_a_request(caller: Peer, line: Seq<char>, error: Seq<char>)
    ensures
        daemon::after_line(caller, HeardView::Line { line }) == if line.len() > 0 {
            StepView::Decode { text: text::trimmed(line), caller }
        } else {
            broken("client closed without sending a request"@)
        },
        daemon::after_line(caller, HeardView::Nothing { error }) == broken(
            "socket error: "@ + error,
        ),
        daemon::after_line(caller, HeardView::Broken { error }) == broken("read error: "@ + error),
{
}

/// A request is handled as that of the process that the kernel names; what is
/// no request is answered with the reason, and no grant changes.
pub proof fn what_is_no_request_changes_nothing(
    s: Store,
    caller: Peer,
    request: RequestView,
    reason: Seq<char>,
    now: u64,
)
    ensures
        daemon::after_decode(s, caller, Ok(request), now) == daemon::after_request(
            s,
            request,
            caller.pid,
            now,
        ),
        daemon::after_decode(s, caller, Err(reason), now) == (
            s,
            broken("malformed request: "@ + reason),
        ),
{
}

// ---------------------------------------------------------------------------
// Allow-all, from request to the end of its lease

/// What is kept up while allow-all is asked for: what is done with of the
/// sources has ended by `now`, and the message of a success fits.
spec fn closing(
    at: (Store, StepView),
    sources: Seq<SourceView>,
    ttl_secs: u64,
    now: u64,
) -> bool {
    match at.1 {
        StepView::Ask { question, .. } => {
            let j = guarantees::job_of(question);
            &&& !(question is Confirm)
            &&& j.sources == sources
            &&& j.purpose == (PurposeView::GrantAll { ttl_secs })
            &&& j.next < sources.len()
            &&& state::one_per_source(at.0)
            &&& all_closed(at.0, sources, j.next as int, now)
        },
        StepView::Fetch { job, .. } => {
            &&& job.sources == sources
            &&& job.purpose == (PurposeView::GrantAll { ttl_secs })
            &&& job.next < sources.len()
            &&& state::one_per_source(at.0)
            &&& all_closed(at.0, sources, job.next as int, now)
        },
        StepView::Reply { response } => response matches ResponseView::Done { message } ==> {
            &&& message == "allow-all granted for "@ + text::decimal(sources.len())
                + " source(s) ("@ + duration::humanized(ttl_secs as nat) + ")"@
            &&& all_closed(at.0, sources, sources.len() as int, now)
        },
        _ => false,
    }
}

/// No grant of the first `n` sources is live at `now`.
pub open spec fn all_closed(s: Store, sources: Seq<SourceView>, n: int, now: u64) -> bool {
    forall|i: int|
        0 <= i < n && i < sources.len() ==> is_closed(
            s,
            source::key_of(#[trigger] sources[i]),
            now,
        )
}

proof fn advance_keeps_closing(s: Store, job: JobView, ttl_secs: u64, t: u64, now: u64)
    requires
        job.next <= job.sources.len(),
        job.purpose == (PurposeView::GrantAll { ttl_secs }),
        state::one_per_source(s),
        all_closed(s, job.sources, job.next as int, now),
    ensures
        closing(daemon::advance(s, job, t), job.sources, ttl_secs, now),
{
    let after = daemon::advance(s, job, t).0;
    guarantees::passes_only_open_sources(s, job, t);
    state::store_stays_sound(s, Seq::empty(), Seq::empty(), 0, true, t);
    assert forall|i: int| 0 <= i < job.next && i < job.sources.len() implies is_closed(
        after,
        source::key_of(#[trigger] job.sources[i]),
        now,
    ) by {
        let key = source::key_of(job.sources[i]);
        assert(is_closed(s, key, now));
        assert forall|g: GrantView| #[trigger] after.contains(g) && g.source == key implies g.expires_at
            <= now by {
            advancing_keeps(s, job, t, g);
        }
    }
}

proof fn grant_all_keeps_closing(
    at: (Store, StepView),
    events: Seq<Moment>,
    sources: Seq<SourceView>,
    ttl_secs: u64,
    now: u64,
)
    requires
        closing(at, sources, ttl_secs, now),
        guarantees::honest(events),
        forall|k: int|
            0 <= k < events.len() ==> (#[trigger] events[k]).now + ttl_secs * 1_000_000_000 <= now,
    ensures
        closing(guarantees::played(at, events), sources, ttl_secs, now),
    decreases events.len(),
{
    if events.len() > 0 {
        let before = events.drop_last();
        let m = events.last();
        assert forall|k: int| 0 <= k < before.len() implies events[k] == #[trigger] before[k] by {}
        assert(guarantees::honest(before));
        grant_all_keeps_closing(at, before, sources, ttl_secs, now);
        assert(events[events.len() - 1] == m);
        let (s, step) = guarantees::played(at, before);
        let purpose = PurposeView::GrantAll { ttl_secs };
        match (step, m.event) {
            (
                StepView::Ask { question: QuestionView::Upgrade { job, values }, .. },
                Event::Answer { approved: true },
            ) => {
                let key = daemon::current_key(job);
                let next = state::upgraded(s, key, ttl_secs, m.now);
                state::store_stays_sound(s, key, Seq::empty(), ttl_secs, true, m.now);
                assert forall|i: int| 0 <= i < job.next + 1 && i < sources.len() implies is_closed(
                    next,
                    source::key_of(#[trigger] sources[i]),
                    now,
                ) by {
                    let other = source::key_of(sources[i]);
                    assert forall|g: GrantView| #[trigger]
                        next.contains(g) && g.source == other implies g.expires_at <= now by {
                        state::upgrading_turns(s, key, ttl_secs, m.now, g);
                        if other != key {
                            assert(is_closed(s, other, now));
                        }
                    }
                }
                advance_keeps_closing(next, daemon::collect(job, values), ttl_secs, m.now, now);
            },
            (StepView::Fetch { job, .. }, Event::Values { values: Ok(v) }) => {
                let key = daemon::current_key(job);
                let next = state::granted(s, key, v, ttl_secs, true, m.now);
                state::store_stays_sound(s, key, v, ttl_secs, true, m.now);
                assert forall|i: int| 0 <= i < job.next + 1 && i < sources.len() implies is_closed(
                    next,
                    source::key_of(#[trigger] sources[i]),
                    now,
                ) by {
                    let other = source::key_of(sources[i]);
                    assert forall|g: GrantView| #[trigger]
                        next.contains(g) && g.source == other implies g.expires_at <= now by {
                        state::granting_replaces(s, key, v, ttl_secs, true, m.now, g);
                        if other != key {
                            assert(is_closed(s, other, now));
                        }
                    }
                }
                advance_keeps_closing(next, daemon::collect(job, v), ttl_secs, m.now, now);
            },
            _ => {},
        }
    }
}

/// A lease that was asked for is the one that is given: where a request for
/// allow-all ended in success, the reply names the number of sources and the
/// lease, and once that many seconds have gone by since each yes the next
/// command is asked about again. `start` is when the sources were known, `s` the
/// store then.
pub proof fn allow_all_ends_with_its_lease(
    s: Store,
    sources: Seq<SourceView>,
    ttl_secs: u64,
    start: u64,
    events: Seq<Moment>,
    argv: Seq<Seq<char>>,
    now: u64,
)
    requires
        state::one_per_source(s),
        sources.len() > 0,
        guarantees::honest(events),
        forall|k: int|
            0 <= k < events.len() ==> (#[trigger] events[k]).now + ttl_secs * 1_000_000_000 <= now,
        guarantees::played(
            daemon::start(s, sources, PurposeView::GrantAll { ttl_secs }, start),
            events,
        ).1 matches StepView::Reply { response: ResponseView::Done { .. } },
    ensures
        ({
            let end = guarantees::played(
                daemon::start(s, sources, PurposeView::GrantAll { ttl_secs }, start),
                events,
            );
            &&& end.1 == done(
                "allow-all granted for "@ + text::decimal(sources.len()) + " source(s) ("@
                    + duration::humanized(ttl_secs as nat) + ")"@,
            )
            &&& all_closed(end.0, sources, sources.len() as int, now)
            &&& daemon::start(
                end.0,
                sources,
                PurposeView::Run { argv, grant_all: false },
                now,
            ).1 matches StepView::Ask { prompt, .. } && prompt == source::first_run_text(
                sources[0],
                Some(argv),
                3600,
            )
        }),
{
    let asked = PurposeView::GrantAll { ttl_secs };
    let at = daemon::start(s, sources, asked, start);
    advance_keeps_closing(
        s,
        JobView { sources, next: 0, merged: Seq::empty(), purpose: asked },
        ttl_secs,
        start,
        now,
    );
    grant_all_keeps_closing(at, events, sources, ttl_secs, now);
    let end = guarantees::played(at, events).0;
    let key = source::key_of(sources[0]);
    assert(is_closed(end, key, now));
    state::live_is_sound(end, key, now);
    if let Some(g) = state::live_grant(end, key, now) {
        assert(end.contains(g));
    }
}

// ---------------------------------------------------------------------------
// A yes to everything

/// The event `k` brings nothing that stands in the way: what was looked up was
/// found, the human said yes, the grant of a command had not ended by then, and
/// the values of a source were obtained.
pub open spec fn goes_well(at: (Store, StepView), events: Seq<Moment>, k: int) -> bool {
    let (s, step) = guarantees::played(at, events.take(k));
    match (step, events[k].event) {
        (StepView::Ask { question, .. }, Event::Answer { approved }) => {
            let job = guarantees::job_of(question);
            approved && (question is Confirm ==> !is_closed(
                s,
                source::key_of(job.sources[job.next as int]),
                events[k].now,
            ))
        },
        (StepView::Fetch { .. }, Event::Values { values }) => values is Ok,
        _ => true,
    }
}

/// What is kept up while everything goes well.
spec fn is_on_its_way(at: (Store, StepView), purpose: PurposeView) -> bool {
    &&& state::one_per_source(at.0)
    &&& match at.1 {
        StepView::Ask { question, .. } => guarantees::job_of(question).next < guarantees::job_of(
            question,
        ).sources.len() && guarantees::job_of(question).purpose == purpose,
        StepView::Fetch { job, .. } => job.next < job.sources.len() && job.purpose == purpose,
        StepView::Reply { response } => if purpose is Run {
            response is Granted
        } else {
            response is Done
        },
        _ => false,
    }
}

proof fn advance_is_on_its_way(s: Store, job: JobView, now: u64)
    requires
        state::one_per_source(s),
        job.next <= job.sources.len(),
    ensures
        is_on_its_way(daemon::advance(s, job, now), job.purpose),
{
    guarantees::passes_only_open_sources(s, job, now);
    state::store_stays_sound(s, Seq::empty(), Seq::empty(), 0, true, now);
}

/// A request for which everything goes well is never refused: it ends in the
/// secrets of a command, or in the success of allow-all. `start` is when
/// the sources were known, `s` the store then.
pub proof fn a_yes_to_everything_is_enough(
    s: Store,
    sources: Seq<SourceView>,
    purpose: PurposeView,
    start: u64,
    events: Seq<Moment>,
)
    requires
        state::one_per_source(s),
        forall|k: int|
            0 <= k < events.len() ==> #[trigger] goes_well(
                daemon::start(s, sources, purpose, start),
                events,
                k,
            ),
    ensures
        ({
            let step = guarantees::played(daemon::start(s, sources, purpose, start), events).1;
            &&& step is Ask || step is Fetch || step is Reply
            &&& !is_refusal(step)
            &&& step matches StepView::Reply { response } ==> if purpose is Run {
                response is Granted
            } else {
                response is Done
            }
        }),
{
    everything_goes_on(s, sources, purpose, start, events);
}

proof fn everything_goes_on(
    s: Store,
    sources: Seq<SourceView>,
    purpose: PurposeView,
    start: u64,
    events: Seq<Moment>,
)
    requires
        state::one_per_source(s),
        forall|k: int|
            0 <= k < events.len() ==> #[trigger] goes_well(
                daemon::start(s, sources, purpose, start),
                events,
                k,
            ),
    ensures
        is_on_its_way(
            guarantees::played(daemon::start(s, sources, purpose, start), events),
            purpose,
        ),
    decreases events.len(),
{
    let at = daemon::start(s, sources, purpose, start);
    if events.len() == 0 {
        advance_is_on_its_way(
            s,
            JobView { sources, next: 0, merged: Seq::empty(), purpose },
            start,
        );
    } else {
        let before = events.drop_last();
        let last = events.len() - 1;
        let m = events.last();
        assert forall|k: int| 0 <= k < before.len() implies #[trigger] goes_well(at, before, k) by {
            assert(goes_well(at, events, k));
            assert(before.take(k) =~= events.take(k));
            assert(before[k] == events[k]);
        }
        everything_goes_on(s, sources, purpose, start, before);
        assert(goes_well(at, events, last));
        assert(events.take(last) =~= before);
        let (now_store, step) = guarantees::played(at, before);
        match (step, m.event) {
            (StepView::Ask { question, .. }, Event::Answer { .. }) => {
                let job = guarantees::job_of(question);
                let key = source::key_of(job.sources[job.next as int]);
                let ttl_secs = daemon::ttl_of(job.purpose);
                state::store_stays_sound(now_store, key, Seq::empty(), ttl_secs, true, m.now);
                state::live_means_running(now_store, key, m.now);
                match question {
                    QuestionView::Establish { .. } => {},
                    QuestionView::Upgrade { values, .. } => {
                        advance_is_on_its_way(
                            state::upgraded(now_store, key, ttl_secs, m.now),
                            daemon::collect(job, values),
                            m.now,
                        );
                    },
                    QuestionView::Confirm { .. } => {
                        if let Some(g) = state::live_grant(now_store, key, m.now) {
                            advance_is_on_its_way(
                                state::unexpired(now_store, m.now),
                                daemon::collect(job, g.values),
                                m.now,
                            );
                        }
                    },
                }
            },
            (StepView::Fetch { job, .. }, Event::Values { values: Ok(v) }) => {
                let key = source::key_of(job.sources[job.next as int]);
                let ttl_secs = daemon::ttl_of(job.purpose);
                let allow_all = daemon::makes_allow_all(job.purpose);
                state::store_stays_sound(now_store, key, v, ttl_secs, allow_all, m.now);
                advance_is_on_its_way(
                    state::granted(now_store, key, v, ttl_secs, allow_all, m.now),
                    daemon::collect(job, v),
                    m.now,
                );
            },
            _ => {},
        }
    }
}

} // verus!
