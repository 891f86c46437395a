//! What holds of every conversation with the daemon.
//!
//! A conversation starts with a connection and goes on with what becomes known
//! after each step: a line, a request, a working directory, a canonical path, an
//! answer of the human, the values of a source. What is stated holds whatever
//! these events bring.

use vstd::prelude::*;

use crate::daemon;
use crate::daemon::{
    ErrandView, HeardView, JobView, LookupsView, PurposeView, QuestionView, ResolvingView,
    StepView,
};
use crate::duration;
use crate::env_file::Values;
use crate::outcomes;
use crate::peer::Peer;
use crate::proto::{RequestView, ResponseView};
use crate::source;
use crate::source::SourceView;
use crate::state;
use crate::state::{GrantView, Store};
use crate::text;
use crate::vars;
use crate::vars::Listing;

verus! {

/// What becomes known after a step.
pub enum Event {
    Line { heard: HeardView },
    Request { request: Result<RequestView, Seq<char>> },
    Cwd { cwd: Result<Seq<u8>, Seq<char>> },
    Canonical { found: Result<Seq<u8>, Seq<char>> },
    Answer { approved: bool },
    Values { values: Values },
}

/// An event and its time.
pub struct Moment {
    pub event: Event,
    pub now: u64,
}

/// The store and the step after an event; one that does not belong to the step
/// changes nothing.
pub open spec fn react(at: (Store, StepView), m: Moment) -> (Store, StepView) {
    match (at.1, m.event) {
        (StepView::ReadLine { caller }, Event::Line { heard }) => (
            at.0,
            daemon::after_line(caller, heard),
        ),
        (StepView::Decode { caller, .. }, Event::Request { request }) => daemon::after_decode(
            at.0,
            caller,
            request,
            m.now,
        ),
        (StepView::FindCwd { errand, .. }, Event::Cwd { cwd }) => daemon::after_cwd(
            at.0,
            errand,
            cwd,
            m.now,
        ),
        (
            StepView::Resolve { resolving, .. },
            Event::Canonical { found },
        ) => daemon::after_resolve(at.0, resolving, found, m.now),
        (StepView::Ask { question, .. }, Event::Answer { approved }) => daemon::after_answer(
            at.0,
            question,
            approved,
            m.now,
        ),
        (StepView::Fetch { job, .. }, Event::Values { values }) => daemon::after_fetch(
            at.0,
            job,
            values,
            m.now,
        ),
        _ => at,
    }
}

/// The store and the step after some events.
pub open spec fn played(at: (Store, StepView), events: Seq<Moment>) -> (Store, StepView)
    decreases events.len(),
{
    if events.len() == 0 {
        at
    } else {
        react(played(at, events.drop_last()), events.last())
    }
}

/// A source that gave no values gave a refusal or an error.
pub open spec fn honest(events: Seq<Moment>) -> bool {
    forall|k: int|
        0 <= k < events.len() ==> ((#[trigger] events[k]).event matches Event::Values {
            values: Err(response),
        } ==> response is Denied || response is Error)
}

/// The job that a question is about.
pub open spec fn job_of(q: QuestionView) -> JobView {
    match q {
        QuestionView::Establish { job } => job,
        QuestionView::Upgrade { job, .. } => job,
        QuestionView::Confirm { job } => job,
    }
}

/// What the human has to be shown for a source before a command may use it: the
/// source, and the command or the fact that no command will be shown.
pub open spec fn is_fair_prompt(prompt: Seq<char>, src: SourceView, purpose: PurposeView) -> bool {
    match purpose {
        PurposeView::GrantAll { ttl_secs } => prompt == source::allow_all_text(src, ttl_secs),
        PurposeView::Run { argv, grant_all } => if grant_all {
            prompt == source::allow_all_text(src, 3600)
        } else {
            ||| prompt == source::first_run_text(src, Some(argv), 3600)
            ||| prompt == source::per_command_text(src, argv)
        },
    }
}

/// With the event `k` the human said yes to a fair prompt about `src`.
pub open spec fn approved_at(
    at: (Store, StepView),
    events: Seq<Moment>,
    k: int,
    src: SourceView,
    purpose: PurposeView,
) -> bool {
    &&& 0 <= k < events.len()
    &&& events[k].event == (Event::Answer { approved: true })
    &&& played(at, events.take(k)).1 matches StepView::Ask { prompt, question }
    &&& daemon::current(job_of(question)) == src
    &&& is_fair_prompt(prompt, src, purpose)
}

/// The human said yes to a fair prompt about `src`.
pub open spec fn said_yes(
    at: (Store, StepView),
    events: Seq<Moment>,
    src: SourceView,
    purpose: PurposeView,
) -> bool {
    exists|k: int| approved_at(at, events, k, src, purpose)
}

/// After the event before `k` (or at the start) `src` had a live allow-all
/// grant.
pub open spec fn open_at(
    at: (Store, StepView),
    start: u64,
    events: Seq<Moment>,
    k: int,
    src: SourceView,
) -> bool {
    &&& 0 <= k <= events.len()
    &&& stands_open(
        played(at, events.take(k)).0,
        source::key_of(src),
        if k == 0 {
            start
        } else {
            events[k - 1].now
        },
    )
}

/// `key` has an allow-all grant that is live at `now`.
pub open spec fn stands_open(s: Store, key: Seq<char>, now: u64) -> bool {
    state::find(s, key) matches Some(g) && g.allow_all && g.expires_at > now
}

/// The human let `src` be used: by a yes to a prompt about it in this
/// conversation, or by an allow-all grant that was live in it.
pub open spec fn consented(
    at: (Store, StepView),
    start: u64,
    events: Seq<Moment>,
    src: SourceView,
    purpose: PurposeView,
) -> bool {
    ||| said_yes(at, events, src, purpose)
    ||| (!daemon::makes_allow_all(purpose) && exists|k: int| open_at(at, start, events, k, src))
}

/// `key` has a grant with the variable `p`.
pub open spec fn holds(s: Store, key: Seq<char>, p: (Seq<char>, Seq<char>)) -> bool {
    exists|g: GrantView| #[trigger] s.contains(g) && g.source == key && g.values.contains(p)
}

/// After the event before `k` (or at the start) a grant of `src` held the
/// variable `p`, or that event brought it as a value of `src`.
pub open spec fn gave_at(
    at: (Store, StepView),
    events: Seq<Moment>,
    k: int,
    src: SourceView,
    p: (Seq<char>, Seq<char>),
) -> bool {
    &&& 0 <= k <= events.len()
    &&& {
        ||| holds(played(at, events.take(k)).0, source::key_of(src), p)
        ||| {
            &&& k > 0
            &&& events[k - 1].event matches Event::Values { values: Ok(v) }
            &&& v.contains(p)
            &&& played(at, events.take(k - 1)).1 matches StepView::Fetch { job, .. }
            &&& daemon::current(job) == src
        }
    }
}

/// `src` gave the variable `p` in this conversation.
pub open spec fn gave(
    at: (Store, StepView),
    events: Seq<Moment>,
    src: SourceView,
    p: (Seq<char>, Seq<char>),
) -> bool {
    exists|k: int| gave_at(at, events, k, src, p)
}

/// Every variable of `m` was given by one of the first `n` sources.
pub open spec fn all_given(
    at: (Store, StepView),
    events: Seq<Moment>,
    sources: Seq<SourceView>,
    n: int,
    m: Listing,
) -> bool {
    forall|p: (Seq<char>, Seq<char>)| #[trigger]
        m.contains(p) ==> exists|i: int|
            0 <= i < n && i < sources.len() && gave(at, events, #[trigger] sources[i], p)
}

proof fn giving_lasts(
    at: (Store, StepView),
    events: Seq<Moment>,
    sources: Seq<SourceView>,
    n: int,
    m: Listing,
)
    requires
        events.len() > 0,
        all_given(at, events.drop_last(), sources, n, m),
    ensures
        all_given(at, events, sources, n, m),
{
    let before = events.drop_last();
    assert forall|p: (Seq<char>, Seq<char>)| #[trigger] m.contains(p) implies exists|i: int|
        0 <= i < n && i < sources.len() && gave(at, events, #[trigger] sources[i], p) by {
        let i = choose|i: int|
            0 <= i < n && i < sources.len() && gave(at, before, #[trigger] sources[i], p);
        let k = choose|k: int| gave_at(at, before, k, sources[i], p);
        assert(before.take(k) =~= events.take(k));
        if k > 0 {
            assert(before.take(k - 1) =~= events.take(k - 1));
            assert(before[k - 1] == events[k - 1]);
        }
        assert(gave_at(at, events, k, sources[i], p));
        assert(gave(at, events, sources[i], p));
    }
}

/// A source that gives its values is one more that everything was given by.
proof fn giving_adds_up(
    at: (Store, StepView),
    events: Seq<Moment>,
    job: JobView,
    values: Listing,
)
    requires
        job.next < job.sources.len(),
        all_given(at, events, job.sources, job.next as int, job.merged),
        forall|p: (Seq<char>, Seq<char>)| #[trigger]
            values.contains(p) ==> gave(at, events, daemon::current(job), p),
    ensures
        all_given(
            at,
            events,
            job.sources,
            job.next as int + 1,
            daemon::collect(job, values).merged,
        ),
{
    let m = daemon::merge(job.merged, values);
    assert forall|p: (Seq<char>, Seq<char>)| #[trigger] m.contains(p) implies exists|i: int|
        0 <= i < job.next + 1 && i < job.sources.len() && gave(
            at,
            events,
            #[trigger] job.sources[i],
            p,
        ) by {
        released_values_come_from_sources(job.merged, values, p);
        if values.contains(p) {
            assert(gave(at, events, job.sources[job.next as int], p));
        } else {
            let i = choose|i: int|
                0 <= i < job.next && i < job.sources.len() && gave(
                    at,
                    events,
                    #[trigger] job.sources[i],
                    p,
                );
            assert(gave(at, events, job.sources[i], p));
        }
    }
}

proof fn consent_lasts(
    at: (Store, StepView),
    start: u64,
    events: Seq<Moment>,
    src: SourceView,
    purpose: PurposeView,
)
    requires
        events.len() > 0,
        consented(at, start, events.drop_last(), src, purpose),
    ensures
        consented(at, start, events, src, purpose),
{
    let before = events.drop_last();
    if said_yes(at, before, src, purpose) {
        let k = choose|k: int| approved_at(at, before, k, src, purpose);
        assert(before.take(k) =~= events.take(k));
        assert(approved_at(at, events, k, src, purpose));
    } else {
        let k = choose|k: int| open_at(at, start, before, k, src);
        assert(before.take(k) =~= events.take(k));
        assert(open_at(at, start, events, k, src));
    }
}

/// Every variable of `m` is one of the job's, or one of a grant of a source of
/// the job before the one with index `n`.
pub open spec fn drawn_from(s: Store, job: JobView, n: int, m: Listing) -> bool {
    forall|p: (Seq<char>, Seq<char>)| #[trigger]
        m.contains(p) ==> job.merged.contains(p) || exists|i: int|
            job.next <= i < n && holds(s, source::key_of(#[trigger] job.sources[i]), p)
}

/// A job that goes on passes only over sources with a live allow-all grant, and
/// takes on only what those grants hold.
pub proof fn passes_only_open_sources(s: Store, job: JobView, now: u64)
    requires
        job.next <= job.sources.len(),
    ensures
        ({
            let (rest, step) = daemon::advance(s, job, now);
            &&& rest == s || rest == state::unexpired(s, now)
            &&& job.next < job.sources.len() ==> rest == state::unexpired(s, now)
            &&& match step {
                StepView::Ask { prompt, question } => {
                    let j = job_of(question);
                    &&& j.sources == job.sources
                    &&& j.purpose == job.purpose
                    &&& job.next <= j.next < job.sources.len()
                    &&& is_fair_prompt(prompt, daemon::current(j), j.purpose)
                    &&& daemon::makes_allow_all(job.purpose) ==> j == job
                    &&& question matches QuestionView::Upgrade { values, .. } ==> (state::find(
                        rest,
                        daemon::current_key(j),
                    ) matches Some(g) && g.values == values)
                    &&& drawn_from(rest, job, j.next as int, j.merged)
                    &&& forall|i: int|
                        job.next <= i < j.next ==> stands_open(
                            rest,
                            source::key_of(#[trigger] job.sources[i]),
                            now,
                        )
                },
                StepView::Reply { response } => {
                    &&& response is Granted <==> job.purpose is Run
                    &&& response matches ResponseView::Granted { secrets } ==> drawn_from(
                        rest,
                        job,
                        job.sources.len() as int,
                        secrets,
                    )
                    &&& !(response is Denied || response is Error)
                    &&& daemon::makes_allow_all(job.purpose) ==> job.next == job.sources.len()
                    &&& forall|i: int|
                        job.next <= i < job.sources.len() ==> stands_open(
                            rest,
                            source::key_of(#[trigger] job.sources[i]),
                            now,
                        )
                },
                _ => false,
            }
        }),
    decreases job.sources.len() - job.next,
{
    if job.next < job.sources.len() {
        let src = daemon::current(job);
        let key = source::key_of(src);
        let rest = state::unexpired(s, now);
        state::live_is_sound(s, key, now);
        if let Some(g) = state::live_grant(s, key, now) {
            state::find_is_sound(rest, key);
            if !daemon::makes_allow_all(job.purpose) && g.allow_all {
                let next = daemon::collect(job, g.values);
                passes_only_open_sources(rest, next, now);
                state::unexpired_is_settled(s, now);
                assert(stands_open(rest, key, now));
                let (_, step) = daemon::advance(s, job, now);
                let (n, m) = match step {
                    StepView::Ask { question, .. } => (
                        job_of(question).next as int,
                        job_of(question).merged,
                    ),
                    StepView::Reply { response: ResponseView::Granted { secrets } } => (
                        job.sources.len() as int,
                        secrets,
                    ),
                    _ => (0, Seq::empty()),
                };
                assert(drawn_from(rest, next, n, m));
                assert forall|p: (Seq<char>, Seq<char>)| #[trigger]
                    m.contains(p) implies job.merged.contains(p) || exists|i: int|
                    job.next <= i < n && holds(rest, source::key_of(#[trigger] job.sources[i]), p) by {
                    if next.merged.contains(p) {
                        released_values_come_from_sources(job.merged, g.values, p);
                        if g.values.contains(p) {
                            assert(rest.contains(g));
                            assert(holds(rest, source::key_of(job.sources[job.next as int]), p));
                        }
                    } else {
                        let i = choose|i: int|
                            next.next <= i < n && holds(
                                rest,
                                source::key_of(#[trigger] next.sources[i]),
                                p,
                            );
                        assert(holds(rest, source::key_of(job.sources[i]), p));
                    }
                }
            }
        }
    }
}

/// What is kept up along the conversation of a request to run a command.
spec fn on_track(
    at: (Store, StepView),
    start: u64,
    events: Seq<Moment>,
    env: Seq<Seq<char>>,
    aws_profiles: Seq<Seq<char>>,
    purpose: PurposeView,
) -> bool {
    match played(at, events).1 {
        StepView::ReadLine { .. } => false,
        StepView::Decode { .. } => false,
        StepView::FindCwd { errand, .. } => errand matches ErrandView::Sources {
            env: e,
            aws_profiles: a,
            purpose: p,
            ..
        } && e == env && a == aws_profiles && p == purpose,
        StepView::Resolve { resolving, .. } => resolving matches ResolvingView::Sources {
            lookups: l,
        } && l.env == env && l.files.len() < env.len() && l.aws_profiles == aws_profiles
            && l.purpose == purpose,
        StepView::Ask { prompt, question } => {
            let j = job_of(question);
            &&& j.purpose == purpose
            &&& j.next < j.sources.len()
            &&& serves(j.sources, env, aws_profiles)
            &&& is_fair_prompt(prompt, daemon::current(j), purpose)
            &&& all_given(at, events, j.sources, j.next as int, j.merged)
            &&& question matches QuestionView::Upgrade { values, .. } ==> (state::find(
                played(at, events).0,
                daemon::current_key(j),
            ) matches Some(g) && g.values == values)
            &&& forall|i: int|
                0 <= i < j.next ==> consented(
                    at,
                    start,
                    events,
                    #[trigger] j.sources[i],
                    purpose,
                )
        },
        StepView::Fetch { job, .. } => {
            &&& job.purpose == purpose
            &&& job.next < job.sources.len()
            &&& serves(job.sources, env, aws_profiles)
            &&& all_given(at, events, job.sources, job.next as int, job.merged)
            &&& forall|i: int|
                0 <= i <= job.next ==> consented(
                    at,
                    start,
                    events,
                    #[trigger] job.sources[i],
                    purpose,
                )
        },
        StepView::Reply { response } => response is Granted || response is Done ==> exists|
            sources: Seq<SourceView>,
        |
            {
                &&& #[trigger] serves(sources, env, aws_profiles)
                &&& response matches ResponseView::Granted { secrets } ==> all_given(
                    at,
                    events,
                    sources,
                    sources.len() as int,
                    secrets,
                )
                &&& forall|i: int|
                    0 <= i < sources.len() ==> consented(
                        at,
                        start,
                        events,
                        #[trigger] sources[i],
                        purpose,
                    )
            },
    }
}

/// These are the sources of a request: one for each file, then one for each
/// profile.
pub open spec fn serves(
    sources: Seq<SourceView>,
    env: Seq<Seq<char>>,
    aws_profiles: Seq<Seq<char>>,
) -> bool {
    exists|files: Seq<Seq<u8>>|
        files.len() == env.len() && sources == #[trigger] source::source_list(files, aws_profiles)
}

proof fn advance_keeps_track(
    at: (Store, StepView),
    start: u64,
    events: Seq<Moment>,
    env: Seq<Seq<char>>,
    aws_profiles: Seq<Seq<char>>,
    purpose: PurposeView,
    s: Store,
    job: JobView,
    now: u64,
)
    requires
        played(at, events) == daemon::advance(s, job, now),
        now == if events.len() == 0 {
            start
        } else {
            events.last().now
        },
        job.next <= job.sources.len(),
        job.purpose == purpose,
        serves(job.sources, env, aws_profiles),
        all_given(at, events, job.sources, job.next as int, job.merged),
        forall|i: int|
            0 <= i < job.next ==> consented(at, start, events, #[trigger] job.sources[i], purpose),
    ensures
        on_track(at, start, events, env, aws_profiles, purpose),
{
    passes_only_open_sources(s, job, now);
    let (rest, step) = daemon::advance(s, job, now);
    let end = match step {
        StepView::Ask { question, .. } => job_of(question).next,
        _ => job.sources.len(),
    };
    let m = match step {
        StepView::Ask { question, .. } => job_of(question).merged,
        StepView::Reply { response: ResponseView::Granted { secrets } } => secrets,
        _ => Seq::empty(),
    };
    assert(events.take(events.len() as int) =~= events);
    assert(all_given(at, events, job.sources, end as int, m)) by {
        assert forall|p: (Seq<char>, Seq<char>)| #[trigger] m.contains(p) implies exists|i: int|
            0 <= i < end && i < job.sources.len() && gave(
                at,
                events,
                #[trigger] job.sources[i],
                p,
            ) by {
            assert(drawn_from(rest, job, end as int, m));
            if job.merged.contains(p) {
                let i = choose|i: int|
                    0 <= i < job.next && i < job.sources.len() && gave(
                        at,
                        events,
                        #[trigger] job.sources[i],
                        p,
                    );
                assert(gave(at, events, job.sources[i], p));
            } else {
                let i = choose|i: int|
                    job.next <= i < end && holds(
                        rest,
                        source::key_of(#[trigger] job.sources[i]),
                        p,
                    );
                assert(gave_at(at, events, events.len() as int, job.sources[i], p));
                assert(gave(at, events, job.sources[i], p));
            }
        }
    }
    assert forall|i: int| 0 <= i < end implies consented(
        at,
        start,
        events,
        #[trigger] job.sources[i],
        purpose,
    ) by {
        if i >= job.next {
            assert(stands_open(rest, source::key_of(job.sources[i]), now));
            assert(open_at(at, start, events, events.len() as int, job.sources[i]));
        }
    }
}

proof fn resolution_keeps_track(
    at: (Store, StepView),
    start: u64,
    events: Seq<Moment>,
    env: Seq<Seq<char>>,
    aws_profiles: Seq<Seq<char>>,
    purpose: PurposeView,
    s: Store,
    l: LookupsView,
    now: u64,
)
    requires
        played(at, events) == daemon::resolve_next(s, l, now),
        now == if events.len() == 0 {
            start
        } else {
            events.last().now
        },
        l.env == env,
        l.files.len() <= env.len(),
        l.aws_profiles == aws_profiles,
        l.purpose == purpose,
    ensures
        on_track(at, start, events, env, aws_profiles, purpose),
{
    if l.files.len() == env.len() {
        let sources = source::source_list(l.files, aws_profiles);
        assert(serves(sources, env, aws_profiles));
        advance_keeps_track(
            at,
            start,
            events,
            env,
            aws_profiles,
            purpose,
            s,
            JobView { sources, next: 0, merged: Seq::empty(), purpose },
            now,
        );
    }
}

/// A grant of `src` that was there before the last event gives what it holds.
proof fn grant_gives(
    at: (Store, StepView),
    events: Seq<Moment>,
    src: SourceView,
    g: GrantView,
)
    requires
        events.len() > 0,
        played(at, events.drop_last()).0.contains(g),
        g.source == source::key_of(src),
    ensures
        forall|p: (Seq<char>, Seq<char>)| #[trigger]
            g.values.contains(p) ==> gave(at, events, src, p),
{
    assert(events.take(events.len() - 1) =~= events.drop_last());
    assert forall|p: (Seq<char>, Seq<char>)| #[trigger] g.values.contains(p) implies gave(
        at,
        events,
        src,
        p,
    ) by {
        assert(holds(played(at, events.drop_last()).0, source::key_of(src), p));
        assert(gave_at(at, events, events.len() - 1, src, p));
    }
}

proof fn conversation_keeps_track(
    at: (Store, StepView),
    start: u64,
    events: Seq<Moment>,
    env: Seq<Seq<char>>,
    aws_profiles: Seq<Seq<char>>,
    purpose: PurposeView,
)
    requires
        on_track(at, start, Seq::empty(), env, aws_profiles, purpose),
        honest(events),
    ensures
        on_track(at, start, events, env, aws_profiles, purpose),
    decreases events.len(),
{
    if events.len() == 0 {
        assert(events =~= Seq::empty());
    } else {
        let before = events.drop_last();
        let m = events.last();
        assert forall|k: int| 0 <= k < before.len() implies ((
        #[trigger] before[k]).event matches Event::Values { values: Err(response) }
            ==> response is Denied || response is Error) by {
            assert(events[k] == before[k]);
        }
        conversation_keeps_track(at, start, before, env, aws_profiles, purpose);
        assert forall|src: SourceView| #[trigger]
            consented(at, start, before, src, purpose) implies consented(
            at,
            start,
            events,
            src,
            purpose,
        ) by {
            consent_lasts(at, start, events, src, purpose);
        }
        let (s, step) = played(at, before);
        assert(played(at, events) == react((s, step), m));
        assert(events[events.len() - 1] == m);
        match (step, m.event) {
            (StepView::FindCwd { errand, .. }, Event::Cwd { cwd }) => {
                if let Ok(dir) = cwd {
                    let l = LookupsView {
                        cwd: dir,
                        env,
                        files: Seq::empty(),
                        aws_profiles,
                        purpose,
                    };
                    resolution_keeps_track(
                        at,
                        start,
                        events,
                        env,
                        aws_profiles,
                        purpose,
                        s,
                        l,
                        m.now,
                    );
                }
            },
            (StepView::Resolve { resolving, .. }, Event::Canonical { found }) => {
                if let Ok(file) = found {
                    let l = resolving->lookups;
                    let next = LookupsView { files: l.files.push(file), ..l };
                    resolution_keeps_track(
                        at,
                        start,
                        events,
                        env,
                        aws_profiles,
                        purpose,
                        s,
                        next,
                        m.now,
                    );
                }
            },
            (StepView::Ask { prompt, question }, Event::Answer { approved }) => {
                if approved {
                    let job = job_of(question);
                    let src = daemon::current(job);
                    assert(events.take(events.len() - 1) =~= before);
                    assert(approved_at(at, events, events.len() - 1, src, purpose));
                    assert forall|i: int| 0 <= i <= job.next implies consented(
                        at,
                        start,
                        events,
                        #[trigger] job.sources[i],
                        purpose,
                    ) by {
                        if i < job.next {
                            assert(consented(at, start, before, job.sources[i], purpose));
                        }
                    }
                    giving_lasts(at, events, job.sources, job.next as int, job.merged);
                    let key = daemon::current_key(job);
                    match question {
                        QuestionView::Establish { .. } => {},
                        QuestionView::Upgrade { values, .. } => {
                            state::find_is_sound(s, key);
                            let g = state::find(s, key)->0;
                            grant_gives(at, events, src, g);
                            giving_adds_up(at, events, job, values);
                            advance_keeps_track(
                                at,
                                start,
                                events,
                                env,
                                aws_profiles,
                                purpose,
                                state::upgraded(s, key, daemon::ttl_of(purpose), m.now),
                                daemon::collect(job, values),
                                m.now,
                            );
                        },
                        QuestionView::Confirm { .. } => {
                            state::live_is_sound(s, key, m.now);
                            if let Some(g) = state::live_grant(s, key, m.now) {
                                grant_gives(at, events, src, g);
                                giving_adds_up(at, events, job, g.values);
                                advance_keeps_track(
                                    at,
                                    start,
                                    events,
                                    env,
                                    aws_profiles,
                                    purpose,
                                    state::unexpired(s, m.now),
                                    daemon::collect(job, g.values),
                                    m.now,
                                );
                            }
                        },
                    }
                }
            },
            (StepView::Fetch { job, .. }, Event::Values { values }) => {
                match values {
                    Ok(v) => {
                        giving_lasts(at, events, job.sources, job.next as int, job.merged);
                        assert(events.take(events.len() - 1) =~= before);
                        assert forall|p: (Seq<char>, Seq<char>)| #[trigger]
                            v.contains(p) implies gave(at, events, daemon::current(job), p) by {
                            assert(gave_at(
                                at,
                                events,
                                events.len() as int,
                                daemon::current(job),
                                p,
                            ));
                        }
                        giving_adds_up(at, events, job, v);
                        assert forall|i: int| 0 <= i <= job.next implies consented(
                            at,
                            start,
                            events,
                            #[trigger] job.sources[i],
                            purpose,
                        ) by {
                            assert(consented(at, start, before, job.sources[i], purpose));
                        }
                        advance_keeps_track(
                            at,
                            start,
                            events,
                            env,
                            aws_profiles,
                            purpose,
                            state::granted(
                                s,
                                daemon::current_key(job),
                                v,
                                daemon::ttl_of(purpose),
                                daemon::makes_allow_all(purpose),
                                m.now,
                            ),
                            daemon::collect(job, v),
                            m.now,
                        );
                    },
                    Err(response) => {},
                }
            },
            _ => {
                match step {
                    StepView::Ask { question, .. } => {
                        let j = job_of(question);
                        giving_lasts(at, events, j.sources, j.next as int, j.merged);
                        assert forall|i: int| 0 <= i < j.next implies consented(
                            at,
                            start,
                            events,
                            #[trigger] j.sources[i],
                            purpose,
                        ) by {
                            assert(consented(at, start, before, j.sources[i], purpose));
                        }
                    },
                    StepView::Fetch { job, .. } => {
                        giving_lasts(at, events, job.sources, job.next as int, job.merged);
                        assert forall|i: int| 0 <= i <= job.next implies consented(
                            at,
                            start,
                            events,
                            #[trigger] job.sources[i],
                            purpose,
                        ) by {
                            assert(consented(at, start, before, job.sources[i], purpose));
                        }
                    },
                    StepView::Reply { response: ResponseView::Granted { secrets } } => {
                        let sources = choose|sources: Seq<SourceView>|
                            {
                                &&& #[trigger] serves(sources, env, aws_profiles)
                                &&& all_given(
                                    at,
                                    before,
                                    sources,
                                    sources.len() as int,
                                    secrets,
                                )
                                &&& forall|i: int|
                                    0 <= i < sources.len() ==> consented(
                                        at,
                                        start,
                                        before,
                                        #[trigger] sources[i],
                                        purpose,
                                    )
                            };
                        giving_lasts(at, events, sources, sources.len() as int, secrets);
                        assert(serves(sources, env, aws_profiles));
                    },
                    _ => {},
                }
            },
        }
    }
}

proof fn request_keeps_track(
    s: Store,
    request: RequestView,
    pid: i32,
    start: u64,
    env: Seq<Seq<char>>,
    aws_profiles: Seq<Seq<char>>,
    purpose: PurposeView,
)
    requires
        match request {
            RequestView::Run { env: e, aws_profiles: a, argv, grant_all } => e == env && a
                == aws_profiles && purpose == (PurposeView::Run { argv, grant_all }),
            RequestView::GrantAll { env: e, aws_profiles: a, lease_secs } => e == env && a
                == aws_profiles && purpose == (PurposeView::GrantAll {
                ttl_secs: daemon::lease_or_default(lease_secs),
            }),
            _ => false,
        },
    ensures
        on_track(
            daemon::after_request(s, request, pid, start),
            start,
            Seq::empty(),
            env,
            aws_profiles,
            purpose,
        ),
{
    let at = daemon::after_request(s, request, pid, start);
    let none: Seq<Seq<u8>> = Seq::empty();
    if at == daemon::start(s, source::source_list(none, aws_profiles), purpose, start)
        && env.len() == 0 {
        let sources = source::source_list(none, aws_profiles);
        assert(serves(sources, env, aws_profiles));
        advance_keeps_track(
            at,
            start,
            Seq::empty(),
            env,
            aws_profiles,
            purpose,
            s,
            JobView { sources, next: 0, merged: Seq::empty(), purpose },
            start,
        );
    }
}

/// Secrets are released only by consent. Where a request to run a command ends
/// with its secrets, each of its sources was let be used: the human said yes to
/// a prompt that shows the source and the command, or the source had a live
/// allow-all grant. With `grant_all` only a yes to the allow-all prompt counts.
/// And nothing is released but what one of these sources gave.
pub proof fn secrets_need_consent(
    s: Store,
    env: Seq<Seq<char>>,
    aws_profiles: Seq<Seq<char>>,
    argv: Seq<Seq<char>>,
    grant_all: bool,
    pid: i32,
    start: u64,
    events: Seq<Moment>,
)
    requires
        honest(events),
        played(
            daemon::after_request(
                s,
                RequestView::Run { env, aws_profiles, argv, grant_all },
                pid,
                start,
            ),
            events,
        ).1 matches StepView::Reply { response: ResponseView::Granted { .. } },
    ensures
        exists|sources: Seq<SourceView>|
            {
                &&& #[trigger] serves(sources, env, aws_profiles)
                &&& all_given(
                    daemon::after_request(
                        s,
                        RequestView::Run { env, aws_profiles, argv, grant_all },
                        pid,
                        start,
                    ),
                    events,
                    sources,
                    sources.len() as int,
                    played(
                        daemon::after_request(
                            s,
                            RequestView::Run { env, aws_profiles, argv, grant_all },
                            pid,
                            start,
                        ),
                        events,
                    ).1->response->secrets,
                )
                &&& forall|i: int|
                    0 <= i < sources.len() ==> consented(
                        daemon::after_request(
                            s,
                            RequestView::Run { env, aws_profiles, argv, grant_all },
                            pid,
                            start,
                        ),
                        start,
                        events,
                        #[trigger] sources[i],
                        PurposeView::Run { argv, grant_all },
                    )
            },
{
    let request = RequestView::Run { env, aws_profiles, argv, grant_all };
    let purpose = PurposeView::Run { argv, grant_all };
    request_keeps_track(s, request, pid, start, env, aws_profiles, purpose);
    conversation_keeps_track(
        daemon::after_request(s, request, pid, start),
        start,
        events,
        env,
        aws_profiles,
        purpose,
    );
}

/// A request for allow-all ends in success only where the human said yes to the
/// allow-all prompt of each of its sources.
pub proof fn allow_all_needs_consent(
    s: Store,
    env: Seq<Seq<char>>,
    aws_profiles: Seq<Seq<char>>,
    lease_secs: Option<u64>,
    pid: i32,
    start: u64,
    events: Seq<Moment>,
)
    requires
        honest(events),
        played(
            daemon::after_request(
                s,
                RequestView::GrantAll { env, aws_profiles, lease_secs },
                pid,
                start,
            ),
            events,
        ).1 matches StepView::Reply { response: ResponseView::Done { .. } },
    ensures
        exists|sources: Seq<SourceView>|
            {
                &&& #[trigger] serves(sources, env, aws_profiles)
                &&& forall|i: int|
                    0 <= i < sources.len() ==> said_yes(
                        daemon::after_request(
                            s,
                            RequestView::GrantAll { env, aws_profiles, lease_secs },
                            pid,
                            start,
                        ),
                        events,
                        #[trigger] sources[i],
                        PurposeView::GrantAll { ttl_secs: daemon::lease_or_default(lease_secs) },
                    )
            },
{
    let request = RequestView::GrantAll { env, aws_profiles, lease_secs };
    let purpose = PurposeView::GrantAll { ttl_secs: daemon::lease_or_default(lease_secs) };
    let at = daemon::after_request(s, request, pid, start);
    request_keeps_track(s, request, pid, start, env, aws_profiles, purpose);
    conversation_keeps_track(at, start, events, env, aws_profiles, purpose);
    let sources = choose|sources: Seq<SourceView>|
        {
            &&& #[trigger] serves(sources, env, aws_profiles)
            &&& forall|i: int|
                0 <= i < sources.len() ==> consented(
                    at,
                    start,
                    events,
                    #[trigger] sources[i],
                    purpose,
                )
        };
    assert forall|i: int| 0 <= i < sources.len() implies said_yes(
        at,
        events,
        #[trigger] sources[i],
        purpose,
    ) by {
        assert(consented(at, start, events, sources[i], purpose));
    }
}

/// The first use of a source is asked about, with the command that is to run.
pub proof fn first_use_is_asked_about(
    s: Store,
    sources: Seq<SourceView>,
    next: nat,
    merged: Listing,
    argv: Seq<Seq<char>>,
    now: u64,
)
    requires
        next < sources.len(),
        state::live_grant(s, source::key_of(sources[next as int]), now) is None,
    ensures
        ({
            let purpose = PurposeView::Run { argv, grant_all: false };
            let job = JobView { sources, next, merged, purpose };
            daemon::advance(s, job, now).1 == (StepView::Ask {
                prompt: source::first_run_text(
                    sources[next as int],
                    Some(argv),
                    duration::GRANT_TTL_SECS,
                ),
                question: QuestionView::Establish { job },
            })
        }),
{
}

/// A yes to the first use is the confirmation of its command, too: once the
/// values are there the last source of a command is not asked about again.
pub proof fn first_use_asks_once(s: Store, job: JobView, values: Listing, now: u64)
    requires
        job.next + 1 == job.sources.len(),
        job.purpose is Run,
    ensures
        daemon::after_fetch(s, job, Ok(values), now).1 == (StepView::Reply {
            response: ResponseView::Granted { secrets: daemon::merge(job.merged, values) },
        }),
{
}

/// A live grant alone lets no command through: every command is asked about.
pub proof fn every_command_is_confirmed(
    s: Store,
    sources: Seq<SourceView>,
    next: nat,
    merged: Listing,
    argv: Seq<Seq<char>>,
    now: u64,
)
    requires
        next < sources.len(),
        state::live_grant(s, source::key_of(sources[next as int]), now) matches Some(g)
            && !g.allow_all,
    ensures
        ({
            let purpose = PurposeView::Run { argv, grant_all: false };
            let job = JobView { sources, next, merged, purpose };
            daemon::advance(s, job, now).1 == (StepView::Ask {
                prompt: source::per_command_text(sources[next as int], argv),
                question: QuestionView::Confirm { job },
            })
        }),
{
}

/// Where every source has a live allow-all grant, a command runs unasked.
pub proof fn open_sources_run_unasked(s: Store, job: JobView, now: u64)
    requires
        job.next <= job.sources.len(),
        job.purpose matches PurposeView::Run { grant_all, .. } && !grant_all,
        forall|i: int|
            job.next <= i < job.sources.len() ==> (state::live_grant(
                s,
                source::key_of(#[trigger] job.sources[i]),
                now,
            ) matches Some(g) && g.allow_all),
    ensures
        daemon::advance(s, job, now).1 matches StepView::Reply {
            response: ResponseView::Granted { .. },
        },
    decreases job.sources.len() - job.next,
{
    if job.next < job.sources.len() {
        let rest = state::unexpired(s, now);
        let g = state::live_grant(s, source::key_of(job.sources[job.next as int]), now)->0;
        let next = daemon::collect(job, g.values);
        state::unexpired_is_settled(s, now);
        assert forall|i: int| next.next <= i < next.sources.len() implies (state::live_grant(
            rest,
            source::key_of(#[trigger] next.sources[i]),
            now,
        ) matches Some(g) && g.allow_all) by {
            assert(state::live_grant(s, source::key_of(job.sources[i]), now) is Some);
        }
        open_sources_run_unasked(rest, next, now);
    }
}

/// The event `k` makes a grant, or turns one allow-all.
pub open spec fn grants_at(at: (Store, StepView), events: Seq<Moment>, k: int) -> bool {
    match (played(at, events.take(k)).1, events[k].event) {
        (StepView::Fetch { .. }, Event::Values { values: Ok(_) }) => true,
        (StepView::Ask { question: QuestionView::Upgrade { .. }, .. }, Event::Answer {
            approved,
        }) => approved,
        _ => false,
    }
}

/// Every lease that the conversation starts runs beyond `now`.
pub open spec fn leases_run(
    at: (Store, StepView),
    events: Seq<Moment>,
    ttl_secs: u64,
    now: u64,
) -> bool {
    forall|k: int|
        0 <= k < events.len() && #[trigger] grants_at(at, events, k) ==> now < state::expiry(
            events[k].now,
            ttl_secs,
        )
}

/// The grant that the event `k` would turn allow-all has not ended.
pub open spec fn holds_at_prompt(at: (Store, StepView), events: Seq<Moment>, k: int) -> bool {
    match (played(at, events.take(k)), events[k].event) {
        (
            (s, StepView::Ask { question: QuestionView::Upgrade { job, .. }, .. }),
            Event::Answer { approved: true },
        ) => state::live_grant(s, daemon::current_key(job), events[k].now) is Some,
        _ => true,
    }
}

/// No grant ended while the human was asked about making it allow-all.
pub open spec fn none_ends_at_its_prompt(at: (Store, StepView), events: Seq<Moment>) -> bool {
    forall|k: int| 0 <= k < events.len() ==> #[trigger] holds_at_prompt(at, events, k)
}

/// The first `n` sources have allow-all grants that are live at `now`.
pub open spec fn all_open(s: Store, sources: Seq<SourceView>, n: int, now: u64) -> bool {
    forall|i: int|
        0 <= i < n && i < sources.len() ==> stands_open(
            s,
            source::key_of(#[trigger] sources[i]),
            now,
        )
}

spec fn opening(
    at: (Store, StepView),
    sources: Seq<SourceView>,
    ttl_secs: u64,
    now: u64,
) -> bool {
    let purpose = PurposeView::GrantAll { ttl_secs };
    match at.1 {
        StepView::Ask { question, .. } => {
            let j = job_of(question);
            &&& !(question is Confirm)
            &&& j.sources == sources
            &&& j.purpose == purpose
            &&& j.next < sources.len()
            &&& all_open(at.0, sources, j.next as int, now)
        },
        StepView::Fetch { job, .. } => {
            &&& job.sources == sources
            &&& job.purpose == purpose
            &&& job.next < sources.len()
            &&& all_open(at.0, sources, job.next as int, now)
        },
        StepView::Reply { response } => response is Done ==> all_open(
            at.0,
            sources,
            sources.len() as int,
            now,
        ),
        _ => false,
    }
}

proof fn advance_keeps_opening(s: Store, job: JobView, ttl_secs: u64, t: u64, now: u64)
    requires
        job.next <= job.sources.len(),
        job.purpose == (PurposeView::GrantAll { ttl_secs }),
        t <= now,
        all_open(s, job.sources, job.next as int, now),
    ensures
        opening(daemon::advance(s, job, t), job.sources, ttl_secs, now),
{
    passes_only_open_sources(s, job, t);
    let rest = state::unexpired(s, t);
    assert(all_open(rest, job.sources, job.next as int, now)) by {
        assert forall|i: int| 0 <= i < job.next && i < job.sources.len() implies stands_open(
            rest,
            source::key_of(#[trigger] job.sources[i]),
            now,
        ) by {
            let key = source::key_of(job.sources[i]);
            assert(stands_open(s, key, now));
            state::running_grants_stay(s, key, Seq::empty(), 0, true, t, key, now);
        }
    }
}

proof fn grant_all_keeps_opening(
    at: (Store, StepView),
    events: Seq<Moment>,
    sources: Seq<SourceView>,
    ttl_secs: u64,
    now: u64,
)
    requires
        opening(at, sources, ttl_secs, now),
        honest(events),
        none_ends_at_its_prompt(at, events),
        leases_run(at, events, ttl_secs, now),
        forall|k: int| 0 <= k < events.len() ==> (#[trigger] events[k]).now <= now,
    ensures
        opening(played(at, events), sources, ttl_secs, now),
    decreases events.len(),
{
    if events.len() > 0 {
        let before = events.drop_last();
        let m = events.last();
        let last = events.len() - 1;
        assert forall|k: int| 0 <= k < before.len() implies events.take(k) == before.take(k)
            && events[k] == #[trigger] before[k] by {
            assert(events.take(k) =~= before.take(k));
        }
        assert(honest(before));
        assert forall|k: int| 0 <= k < before.len() implies #[trigger] holds_at_prompt(
            at,
            before,
            k,
        ) by {
            assert(before[k] == events[k]);
            assert(holds_at_prompt(at, events, k));
        }
        assert forall|k: int| 0 <= k < before.len() && #[trigger] grants_at(
            at,
            before,
            k,
        ) implies now < state::expiry(before[k].now, ttl_secs) by {
            assert(before[k] == events[k]);
            assert(grants_at(at, events, k));
        }
        grant_all_keeps_opening(at, before, sources, ttl_secs, now);
        assert(events.take(last) =~= before);
        assert(events[last] == m);
        assert(holds_at_prompt(at, events, last));
        let (s, step) = played(at, before);
        match (step, m.event) {
            (
                StepView::Ask { question: QuestionView::Upgrade { job, values }, .. },
                Event::Answer { approved: true },
            ) => {
                let key = daemon::current_key(job);
                let next = state::upgraded(s, key, ttl_secs, m.now);
                assert(grants_at(at, events, last));
                state::fresh_grants_are_found(s, key, Seq::empty(), ttl_secs, true, m.now);
                assert forall|i: int|
                    0 <= i < job.next + 1 && i < sources.len() implies stands_open(
                    next,
                    source::key_of(#[trigger] sources[i]),
                    now,
                ) by {
                    let other = source::key_of(sources[i]);
                    if other != key {
                        assert(stands_open(s, other, now));
                        state::running_grants_stay(
                            s,
                            key,
                            Seq::empty(),
                            ttl_secs,
                            true,
                            m.now,
                            other,
                            now,
                        );
                    }
                }
                advance_keeps_opening(next, daemon::collect(job, values), ttl_secs, m.now, now);
            },
            (StepView::Fetch { job, .. }, Event::Values { values: Ok(v) }) => {
                let key = daemon::current_key(job);
                let next = state::granted(s, key, v, ttl_secs, true, m.now);
                assert(grants_at(at, events, last));
                state::fresh_grants_are_found(s, key, v, ttl_secs, true, m.now);
                assert forall|i: int|
                    0 <= i < job.next + 1 && i < sources.len() implies stands_open(
                    next,
                    source::key_of(#[trigger] sources[i]),
                    now,
                ) by {
                    let other = source::key_of(sources[i]);
                    if other != key {
                        assert(stands_open(s, other, now));
                        state::running_grants_stay(
                            s,
                            key,
                            v,
                            ttl_secs,
                            true,
                            m.now,
                            other,
                            now,
                        );
                    }
                }
                advance_keeps_opening(next, daemon::collect(job, v), ttl_secs, m.now, now);
            },
            _ => {},
        }
    }
}

/// One prompt for each source, and its commands run unprompted: after a request
/// for allow-all that ended in success, a command with the same sources is asked
/// nothing, as long as the leases run and no grant had ended by the time its
/// prompt was answered. `start` is when the sources were known, `s` the store
/// then.
pub proof fn allow_all_runs_unprompted(
    s: Store,
    sources: Seq<SourceView>,
    ttl_secs: u64,
    start: u64,
    events: Seq<Moment>,
    argv: Seq<Seq<char>>,
    now: u64,
)
    requires
        honest(events),
        start <= now,
        forall|k: int| 0 <= k < events.len() ==> (#[trigger] events[k]).now <= now,
        none_ends_at_its_prompt(
            daemon::start(s, sources, PurposeView::GrantAll { ttl_secs }, start),
            events,
        ),
        leases_run(
            daemon::start(s, sources, PurposeView::GrantAll { ttl_secs }, start),
            events,
            ttl_secs,
            now,
        ),
        played(
            daemon::start(s, sources, PurposeView::GrantAll { ttl_secs }, start),
            events,
        ).1 matches StepView::Reply { response: ResponseView::Done { .. } },
    ensures
        daemon::start(
            played(
                daemon::start(s, sources, PurposeView::GrantAll { ttl_secs }, start),
                events,
            ).0,
            sources,
            PurposeView::Run { argv, grant_all: false },
            now,
        ).1 matches StepView::Reply { response: ResponseView::Granted { .. } },
{
    let asked = PurposeView::GrantAll { ttl_secs };
    let at = daemon::start(s, sources, asked, start);
    advance_keeps_opening(
        s,
        JobView { sources, next: 0, merged: Seq::empty(), purpose: asked },
        ttl_secs,
        start,
        now,
    );
    grant_all_keeps_opening(at, events, sources, ttl_secs, now);
    let end = played(at, events).0;
    let job = JobView {
        sources,
        next: 0,
        merged: Seq::empty(),
        purpose: PurposeView::Run { argv, grant_all: false },
    };
    assert forall|i: int| 0 <= i < job.sources.len() implies (state::live_grant(
        end,
        source::key_of(#[trigger] job.sources[i]),
        now,
    ) matches Some(g) && g.allow_all) by {
        assert(stands_open(end, source::key_of(sources[i]), now));
        state::running_grants_are_live(end, source::key_of(sources[i]), now);
    }
    open_sources_run_unasked(end, job, now);
}

/// The events by which the files of a request become known: the caller's
/// working directory, then the canonical form of each file, each at its time.
pub open spec fn lookup_events(dir: Seq<u8>, files: Seq<Seq<u8>>, times: Seq<u64>) -> Seq<Moment> {
    Seq::new(
        files.len() + 1,
        |i: int|
            Moment {
                event: if i == 0 {
                    Event::Cwd { cwd: Ok(dir) }
                } else {
                    Event::Canonical { found: Ok(files[i - 1]) }
                },
                now: times[i],
            },
    )
}

proof fn lookups_go_on(
    s: Store,
    pid: i32,
    env: Seq<Seq<char>>,
    aws_profiles: Seq<Seq<char>>,
    purpose: PurposeView,
    dir: Seq<u8>,
    files: Seq<Seq<u8>>,
    times: Seq<u64>,
    n: int,
)
    requires
        env.len() > 0,
        files.len() == env.len(),
        0 <= n <= files.len(),
    ensures
        played(
            daemon::gather(s, pid, env, aws_profiles, purpose, times[0]),
            lookup_events(dir, files, times).take(n + 1),
        ) == daemon::resolve_next(
            s,
            LookupsView { cwd: dir, env, files: files.take(n), aws_profiles, purpose },
            times[n],
        ),
    decreases n,
{
    let at = daemon::gather(s, pid, env, aws_profiles, purpose, times[0]);
    let events = lookup_events(dir, files, times);
    let now = events.take(n + 1);
    assert(now.drop_last() =~= events.take(n));
    assert(now.last() == events[n]);
    if n == 0 {
        assert(files.take(0) =~= Seq::empty());
        assert(now.drop_last() =~= Seq::empty());
        assert(played(at, now.drop_last()) == at);
    } else {
        lookups_go_on(s, pid, env, aws_profiles, purpose, dir, files, times, n - 1);
        assert(files.take(n - 1).push(files[n - 1]) =~= files.take(n));
    }
}

/// A request whose files resolve starts with one source for each file that they
/// resolved to, then one for each profile; nothing is granted or asked before.
pub proof fn resolved_files_are_the_sources(
    s: Store,
    pid: i32,
    env: Seq<Seq<char>>,
    aws_profiles: Seq<Seq<char>>,
    purpose: PurposeView,
    dir: Seq<u8>,
    files: Seq<Seq<u8>>,
    times: Seq<u64>,
)
    requires
        env.len() > 0,
        files.len() == env.len(),
        times.len() == files.len() + 1,
    ensures
        played(
            daemon::gather(s, pid, env, aws_profiles, purpose, times[0]),
            lookup_events(dir, files, times),
        ) == daemon::start(s, source::source_list(files, aws_profiles), purpose, times.last()),
{
    let n = files.len() as int;
    lookups_go_on(s, pid, env, aws_profiles, purpose, dir, files, times, n);
    assert(files.take(n) =~= files);
    assert(lookup_events(dir, files, times).take(n + 1) =~= lookup_events(dir, files, times));
}

/// The values of a source with a live grant are not obtained again.
pub proof fn live_grants_are_reused(s: Store, job: JobView, now: u64)
    requires
        job.next < job.sources.len(),
        state::live_grant(s, daemon::current_key(job), now) is Some,
    ensures
        daemon::advance(s, job, now).1 matches StepView::Ask {
            question: QuestionView::Establish { job: j },
            ..
        } ==> j.next > job.next,
{
    if let Some(g) = state::live_grant(s, daemon::current_key(job), now) {
        let next = daemon::collect(job, g.values);
        passes_only_open_sources(state::unexpired(s, now), next, now);
    }
}

/// A no ends the request with a refusal, and changes no grant.
pub proof fn a_no_is_final(s: Store, q: QuestionView, now: u64)
    ensures
        ({
            let (rest, step) = daemon::after_answer(s, q, false, now);
            &&& rest == s
            &&& step matches StepView::Reply { response: ResponseView::Denied { .. } }
        }),
{
}

/// A grant that ends while the human is asked about a command is not used: the
/// command is refused though the human said yes.
pub proof fn expiry_during_approval_refuses(s: Store, job: JobView, now: u64)
    requires
        state::live_grant(s, daemon::current_key(job), now) is None,
    ensures
        ({
            let (rest, step) = daemon::after_answer(s, QuestionView::Confirm { job }, true, now);
            &&& rest == state::unexpired(s, now)
            &&& step matches StepView::Reply { response: ResponseView::Denied { .. } }
        }),
{
}

proof fn advance_asks_or_replies(s: Store, job: JobView, now: u64)
    ensures
        daemon::advance(s, job, now).1 is Ask || daemon::advance(s, job, now).1 is Reply,
    decreases job.sources.len() - job.next,
{
    if job.next < job.sources.len() {
        if let Some(g) = state::live_grant(s, daemon::current_key(job), now) {
            advance_asks_or_replies(
                state::unexpired(s, now),
                daemon::collect(job, g.values),
                now,
            );
        }
    }
}

/// Where a step after an event is not decided by the event alone, it is that of
/// a job that goes on.
spec fn goes_on(at: (Store, StepView), m: Moment) -> Option<(Store, JobView)> {
    match (at.1, m.event) {
        (StepView::FindCwd { errand: ErrandView::Sources { env, aws_profiles, purpose, .. }, .. }, Event::Cwd {
            cwd: Ok(_),
        }) if env.len() == 0 => Some(
            (
                at.0,
                JobView {
                    sources: source::source_list(Seq::empty(), aws_profiles),
                    next: 0,
                    merged: Seq::empty(),
                    purpose,
                },
            ),
        ),
        (
            StepView::Resolve { resolving: ResolvingView::Sources { lookups: l }, .. },
            Event::Canonical { found: Ok(file) },
        ) if l.files.push(file).len() >= l.env.len() => Some(
            (
                at.0,
                JobView {
                    sources: source::source_list(l.files.push(file), l.aws_profiles),
                    next: 0,
                    merged: Seq::empty(),
                    purpose: l.purpose,
                },
            ),
        ),
        (
            StepView::Ask { question: QuestionView::Upgrade { job, values }, .. },
            Event::Answer { approved: true },
        ) => Some(
            (
                state::upgraded(
                    at.0,
                    daemon::current_key(job),
                    daemon::ttl_of(job.purpose),
                    m.now,
                ),
                daemon::collect(job, values),
            ),
        ),
        (
            StepView::Ask { question: QuestionView::Confirm { job }, .. },
            Event::Answer { approved: true },
        ) => match state::live_grant(at.0, daemon::current_key(job), m.now) {
            Some(g) => Some(
                (state::unexpired(at.0, m.now), daemon::collect(job, g.values)),
            ),
            None => None,
        },
        (StepView::Fetch { job, .. }, Event::Values { values: Ok(v) }) => Some(
            (
                state::granted(
                    at.0,
                    daemon::current_key(job),
                    v,
                    daemon::ttl_of(job.purpose),
                    daemon::makes_allow_all(job.purpose),
                    m.now,
                ),
                daemon::collect(job, v),
            ),
        ),
        _ => None,
    }
}

proof fn going_on_is_advancing(at: (Store, StepView), m: Moment)
    ensures
        goes_on(at, m) matches Some((s, job)) ==> react(at, m) == daemon::advance(s, job, m.now),
{
}

/// The values of a source are obtained only after a yes to granting it, and
/// then those of that source.
pub proof fn values_only_after_a_yes(at: (Store, StepView), m: Moment)
    requires
        !(at.1 is Fetch),
    ensures
        react(at, m).1 matches StepView::Fetch { source, job } ==> {
            &&& m.event == (Event::Answer { approved: true })
            &&& at.1 matches StepView::Ask { question, .. }
            &&& question == (QuestionView::Establish { job })
            &&& source == daemon::current(job)
        },
{
    if let Some((s, job)) = goes_on(at, m) {
        advance_asks_or_replies(s, job, m.now);
    }
    if let (StepView::Decode { caller, .. }, Event::Request { request: Ok(q) }) = (at.1, m.event) {
        no_request_fetches(at.0, q, caller.pid, m.now);
    }
}

/// No request is answered with the values of a source being obtained at once.
pub proof fn no_request_fetches(s: Store, request: RequestView, pid: i32, now: u64)
    ensures
        !(daemon::after_request(s, request, pid, now).1 is Fetch),
{
    match request {
        RequestView::Run { aws_profiles, argv, grant_all, .. } => {
            advance_asks_or_replies(
                s,
                JobView {
                    sources: source::source_list(Seq::empty(), aws_profiles),
                    next: 0,
                    merged: Seq::empty(),
                    purpose: PurposeView::Run { argv, grant_all },
                },
                now,
            );
        },
        RequestView::GrantAll { aws_profiles, lease_secs, .. } => {
            advance_asks_or_replies(
                s,
                JobView {
                    sources: source::source_list(Seq::empty(), aws_profiles),
                    next: 0,
                    merged: Seq::empty(),
                    purpose: PurposeView::GrantAll {
                        ttl_secs: daemon::lease_or_default(lease_secs),
                    },
                },
                now,
            );
        },
        _ => {},
    }
}

/// A source whose values could not be obtained is not granted: the reply is the
/// one that came in their place, and no grant changes.
pub proof fn failure_grants_nothing(s: Store, job: JobView, response: ResponseView, now: u64)
    ensures
        daemon::after_fetch(s, job, Err(response), now) == (s, StepView::Reply { response }),
{
}

/// The lease of every purpose that a request can have.
pub open spec fn is_lawful(purpose: PurposeView) -> bool {
    daemon::ttl_of(purpose) <= duration::GRANT_TTL_MAX_SECS
}

/// The purpose of what is under way, if any.
pub open spec fn purpose_of(step: StepView) -> Option<PurposeView> {
    match step {
        StepView::FindCwd { errand: ErrandView::Sources { purpose, .. }, .. } => Some(purpose),
        StepView::Resolve { resolving: ResolvingView::Sources { lookups }, .. } => Some(
            lookups.purpose,
        ),
        StepView::Ask { question, .. } => Some(job_of(question).purpose),
        StepView::Fetch { job, .. } => Some(job.purpose),
        _ => None,
    }
}

/// What holds at every moment: no source has two grants, no lease ends later
/// than the longest one from now, and what is under way asks for no longer one.
pub open spec fn is_sound(at: (Store, StepView), now: u64) -> bool {
    &&& state::one_per_source(at.0)
    &&& state::leases_end_by(at.0, state::expiry(now, duration::GRANT_TTL_MAX_SECS))
    &&& purpose_of(at.1) matches Some(p) ==> is_lawful(p)
}

proof fn advance_stays_sound(s: Store, job: JobView, now: u64)
    requires
        state::one_per_source(s),
        state::leases_end_by(s, state::expiry(now, duration::GRANT_TTL_MAX_SECS)),
        is_lawful(job.purpose),
    ensures
        is_sound(daemon::advance(s, job, now), now),
    decreases job.sources.len() - job.next,
{
    if job.next < job.sources.len() {
        let key = daemon::current_key(job);
        let rest = state::unexpired(s, now);
        state::store_stays_sound(s, key, Seq::empty(), 0, false, now);
        state::leases_stay_bounded(
            s,
            key,
            Seq::empty(),
            0,
            false,
            duration::GRANT_TTL_MAX_SECS,
            now,
            now,
        );
        if let Some(g) = state::live_grant(s, key, now) {
            advance_stays_sound(rest, daemon::collect(job, g.values), now);
        }
    }
}

/// Every request leaves the store sound, and asks for no lease over the
/// maximum.
pub proof fn requests_stay_sound(s: Store, request: RequestView, pid: i32, last: u64, now: u64)
    requires
        state::one_per_source(s),
        state::leases_end_by(s, state::expiry(last, duration::GRANT_TTL_MAX_SECS)),
        last <= now,
    ensures
        is_sound(daemon::after_request(s, request, pid, now), now),
{
    let max = duration::GRANT_TTL_MAX_SECS;
    let any: Seq<char> = Seq::empty();
    assert(state::leases_end_by(s, state::expiry(now, max)));
    state::store_stays_sound(s, any, Seq::empty(), 0, false, now);
    state::leases_stay_bounded(s, any, Seq::empty(), 0, false, max, now, now);
    let none: Seq<Seq<u8>> = Seq::empty();
    match request {
        RequestView::Clear { path } => {
            if let Some(p) = path {
                state::store_stays_sound(s, p, Seq::empty(), 0, false, now);
                state::leases_stay_bounded(s, p, Seq::empty(), 0, false, max, now, now);
            }
        },
        RequestView::Status => {},
        RequestView::GrantAll { aws_profiles, lease_secs, .. } => {
            let purpose = PurposeView::GrantAll { ttl_secs: daemon::lease_or_default(lease_secs) };
            if is_lawful(purpose) {
                let sources = source::source_list(none, aws_profiles);
                let job = JobView { sources, next: 0, merged: Seq::empty(), purpose };
                advance_stays_sound(s, job, now);
            }
        },
        RequestView::Run { aws_profiles, argv, grant_all, .. } => {
            let purpose = PurposeView::Run { argv, grant_all };
            let sources = source::source_list(none, aws_profiles);
            let job = JobView { sources, next: 0, merged: Seq::empty(), purpose };
            advance_stays_sound(s, job, now);
        },
    }
}

/// Every event keeps the store sound, and what is under way within the longest
/// lease.
pub proof fn events_stay_sound(at: (Store, StepView), last: u64, m: Moment)
    requires
        is_sound(at, last),
        last <= m.now,
    ensures
        is_sound(react(at, m), m.now),
{
    let max = duration::GRANT_TTL_MAX_SECS;
    let s = at.0;
    let now = m.now;
    let key = match at.1 {
        StepView::Ask { question, .. } => daemon::current_key(job_of(question)),
        StepView::Fetch { job, .. } => daemon::current_key(job),
        StepView::FindCwd { errand: ErrandView::Clear { path }, .. } => path,
        StepView::Resolve { resolving: ResolvingView::Clear { path }, .. } => match m.event {
            Event::Canonical { found: Ok(file) } => text::lossy(file),
            _ => path,
        },
        _ => Seq::empty(),
    };
    let (values, ttl_secs, allow_all) = match (at.1, m.event) {
        (StepView::Fetch { job, .. }, Event::Values { values: Ok(v) }) => (
            v,
            daemon::ttl_of(job.purpose),
            daemon::makes_allow_all(job.purpose),
        ),
        (StepView::Ask { question, .. }, _) => (
            Seq::empty(),
            daemon::ttl_of(job_of(question).purpose),
            true,
        ),
        _ => (Seq::empty(), 0, false),
    };
    assert(state::leases_end_by(s, state::expiry(now, max)));
    state::store_stays_sound(s, key, values, ttl_secs, allow_all, now);
    state::leases_stay_bounded(s, key, values, ttl_secs, allow_all, max, last, now);
    going_on_is_advancing(at, m);
    if let Some((next, job)) = goes_on(at, m) {
        advance_stays_sound(next, job, now);
    }
    if let (StepView::Decode { caller, .. }, Event::Request { request: Ok(q) }) = (at.1, m.event) {
        requests_stay_sound(s, q, caller.pid, last, now);
    }
}

/// A lease over the maximum is refused, whatever the sources, and changes no
/// grant.
pub proof fn too_long_a_lease_is_refused(
    s: Store,
    env: Seq<Seq<char>>,
    aws_profiles: Seq<Seq<char>>,
    lease_secs: u64,
    pid: i32,
    now: u64,
)
    requires
        env.len() > 0 || aws_profiles.len() > 0,
        lease_secs > duration::GRANT_TTL_MAX_SECS,
    ensures
        daemon::after_request(
            s,
            RequestView::GrantAll { env, aws_profiles, lease_secs: Some(lease_secs) },
            pid,
            now,
        ) == (s, daemon::denied(duration::over_max_text(lease_secs as nat))),
{
}

/// A new or changed grant comes from the values of a source that were just
/// obtained, in the mode and for the lease that was asked about, or from a yes
/// to making it allow-all, which keeps its values and starts that lease.
pub proof fn grants_have_a_reason(at: (Store, StepView), m: Moment, g: GrantView)
    requires
        react(at, m).0.contains(g),
        !at.0.contains(g),
    ensures
        match (at.1, m.event) {
            (StepView::Fetch { job, .. }, Event::Values { values: Ok(v) }) => {
                &&& g.source == daemon::current_key(job)
                &&& g.values == v
                &&& g.allow_all == outcomes::asks_for_all(job.purpose)
                &&& g.expires_at == m.now + outcomes::seconds_asked(job.purpose) * 1_000_000_000
            },
            (StepView::Ask { question: QuestionView::Upgrade { job, .. }, .. }, Event::Answer {
                approved: true,
            }) => {
                &&& g.source == daemon::current_key(job)
                &&& g.allow_all
                &&& g.expires_at == m.now + outcomes::seconds_asked(job.purpose) * 1_000_000_000
                &&& exists|old_grant: GrantView| #[trigger]
                    at.0.contains(old_grant) && old_grant.source == g.source && old_grant.values
                        == g.values
            },
            _ => false,
        },
{
    going_on_is_advancing(at, m);
    state::part_of_the_old(at.0, g, m.now);
    match goes_on(at, m) {
        Some((s, job)) => {
            advance_only_purges(s, job, m.now);
            state::part_of_the_old(s, g, m.now);
            match (at.1, m.event) {
                (StepView::Fetch { job: j, .. }, Event::Values { values: Ok(v) }) => {
                    state::granted_adds_one(
                        at.0,
                        daemon::current_key(j),
                        v,
                        daemon::ttl_of(j.purpose),
                        daemon::makes_allow_all(j.purpose),
                        m.now,
                        g,
                    );
                },
                (StepView::Ask { question: QuestionView::Upgrade { job: j, .. }, .. }, _) => {
                    state::upgraded_changes_one(
                        at.0,
                        daemon::current_key(j),
                        daemon::ttl_of(j.purpose),
                        m.now,
                        g,
                    );
                },
                _ => {},
            }
        },
        None => {
            match (at.1, m.event) {
                (StepView::Decode { caller, .. }, Event::Request { request: Ok(q) }) => {
                    request_grants_nothing(at.0, q, caller.pid, m.now, g);
                },
                (StepView::FindCwd { errand: ErrandView::Clear { path }, .. }, _) => {
                    state::cleared_is_part(at.0, Some(path), g);
                },
                (
                    StepView::Resolve { resolving: ResolvingView::Clear { path }, .. },
                    Event::Canonical { found },
                ) => {
                    state::cleared_is_part(at.0, Some(path), g);
                    if let Ok(file) = found {
                        state::cleared_is_part(at.0, Some(text::lossy(file)), g);
                    }
                },
                _ => {},
            }
        },
    }
}

proof fn request_grants_nothing(s: Store, request: RequestView, pid: i32, now: u64, g: GrantView)
    requires
        daemon::after_request(s, request, pid, now).0.contains(g),
    ensures
        s.contains(g),
{
    state::part_of_the_old(s, g, now);
    let none: Seq<Seq<u8>> = Seq::empty();
    match request {
        RequestView::Clear { path } => {
            state::cleared_is_part(s, path, g);
        },
        RequestView::Status => {},
        RequestView::GrantAll { aws_profiles, lease_secs, .. } => {
            let purpose = PurposeView::GrantAll { ttl_secs: daemon::lease_or_default(lease_secs) };
            let sources = source::source_list(none, aws_profiles);
            advance_only_purges(
                s,
                JobView { sources, next: 0, merged: Seq::empty(), purpose },
                now,
            );
        },
        RequestView::Run { aws_profiles, argv, grant_all, .. } => {
            let purpose = PurposeView::Run { argv, grant_all };
            let sources = source::source_list(none, aws_profiles);
            advance_only_purges(
                s,
                JobView { sources, next: 0, merged: Seq::empty(), purpose },
                now,
            );
        },
    }
}

proof fn advance_only_purges(s: Store, job: JobView, now: u64)
    ensures
        daemon::advance(s, job, now).0 == s || daemon::advance(s, job, now).0
            == state::unexpired(s, now),
    decreases job.sources.len() - job.next,
{
    if job.next < job.sources.len() {
        if let Some(g) = state::live_grant(s, daemon::current_key(job), now) {
            advance_only_purges(state::unexpired(s, now), daemon::collect(job, g.values), now);
            state::unexpired_is_settled(s, now);
        }
    }
}

// ---------------------------------------------------------------------------
// Every conversation ends

/// Whether an event is what a step waits for.
pub open spec fn fits(step: StepView, event: Event) -> bool {
    match step {
        StepView::ReadLine { .. } => event is Line,
        StepView::Decode { .. } => event is Request,
        StepView::FindCwd { .. } => event is Cwd,
        StepView::Resolve { .. } => event is Canonical,
        StepView::Ask { .. } => event is Answer,
        StepView::Fetch { .. } => event is Values,
        StepView::Reply { .. } => false,
    }
}

/// What is under way has a source, or a file, that it is about.
pub open spec fn has_subject(step: StepView) -> bool {
    match step {
        StepView::Resolve { resolving: ResolvingView::Sources { lookups }, .. } =>
            lookups.files.len() < lookups.env.len(),
        StepView::Ask { question, .. } => job_of(question).next < job_of(question).sources.len(),
        StepView::Fetch { job, .. } => job.next < job.sources.len(),
        _ => true,
    }
}

/// How far a step is from the authorization of sources.
pub open spec fn stage(step: StepView) -> nat {
    match step {
        StepView::ReadLine { .. } => 4,
        StepView::Decode { .. } => 3,
        StepView::FindCwd { .. } => 2,
        StepView::Resolve { .. } => 1,
        _ => 0,
    }
}

/// How much a step leaves to be done in its stage.
pub open spec fn left(step: StepView) -> int {
    match step {
        StepView::Resolve { resolving: ResolvingView::Sources { lookups }, .. } =>
            lookups.env.len() - lookups.files.len(),
        StepView::Ask { question, .. } => 3 * (job_of(question).sources.len() - job_of(
            question,
        ).next) + 2,
        StepView::Fetch { job, .. } => 3 * (job.sources.len() - job.next) + 1,
        _ => 0,
    }
}

proof fn advance_leaves_less(s: Store, job: JobView, now: u64)
    requires
        job.next <= job.sources.len(),
    ensures
        has_subject(daemon::advance(s, job, now).1),
        stage(daemon::advance(s, job, now).1) == 0,
        0 <= left(daemon::advance(s, job, now).1) <= 3 * (job.sources.len() - job.next) + 2,
{
    passes_only_open_sources(s, job, now);
}

/// Every conversation comes to a reply: each event that a step waits for leads
/// to a step of a later stage, or one with less left to do in its stage.
pub proof fn conversations_end(at: (Store, StepView), m: Moment)
    requires
        has_subject(at.1),
        fits(at.1, m.event),
    ensures
        ({
            let next = react(at, m).1;
            &&& has_subject(next)
            &&& left(next) >= 0
            &&& stage(next) < stage(at.1) || (stage(next) == stage(at.1) && left(next) < left(
                at.1,
            ))
        }),
{
    let none: Seq<Seq<u8>> = Seq::empty();
    going_on_is_advancing(at, m);
    if let Some((s, job)) = goes_on(at, m) {
        advance_leaves_less(s, job, m.now);
    }
    if let (StepView::Decode { caller, .. }, Event::Request { request: Ok(q) }) = (at.1, m.event) {
        match q {
            RequestView::Run { aws_profiles, argv, grant_all, .. } => {
                let purpose = PurposeView::Run { argv, grant_all };
                let sources = source::source_list(none, aws_profiles);
                let job = JobView { sources, next: 0, merged: Seq::empty(), purpose };
                advance_leaves_less(at.0, job, m.now);
            },
            RequestView::GrantAll { aws_profiles, lease_secs, .. } => {
                let purpose = PurposeView::GrantAll {
                    ttl_secs: daemon::lease_or_default(lease_secs),
                };
                let sources = source::source_list(none, aws_profiles);
                let job = JobView { sources, next: 0, merged: Seq::empty(), purpose };
                advance_leaves_less(at.0, job, m.now);
            },
            _ => {},
        }
    }
}

// ---------------------------------------------------------------------------
// What is released

proof fn lookup_after_drop(m: Listing, name: Seq<char>, other: Seq<char>)
    ensures
        vars::lookup(daemon::dropped(m, name), other) == if other
            == name {
            None
        } else {
            vars::lookup(m, other)
        },
        forall|i: int|
            0 <= i < daemon::dropped(m, name).len() ==> (
            #[trigger] daemon::dropped(m, name)[i]).0 != name,
        vars::names_of(m).no_duplicates() ==> vars::names_of(
            daemon::dropped(m, name),
        ).no_duplicates(),
        forall|i: int|
            0 <= i < daemon::dropped(m, name).len() ==> m.contains(
                #[trigger] daemon::dropped(m, name)[i],
            ),
    decreases m.len(),
{
    reveal(Seq::filter);
    let keep = |p: (Seq<char>, Seq<char>)| p.0 != name;
    let f = daemon::dropped(m, name);
    if m.len() > 0 {
        let t = m.drop_last();
        let ft = daemon::dropped(t, name);
        lookup_after_drop(t, name, other);
        if keep(m.last()) {
            assert(f =~= ft.push(m.last()));
            assert(f.drop_last() =~= ft);
        }
        assert forall|i: int| 0 <= i < f.len() implies m.contains(#[trigger] f[i]) by {
            if i < ft.len() {
                assert(f[i] == ft[i]);
                assert(t.contains(ft[i]));
                let k = choose|k: int| 0 <= k < t.len() && t[k] == ft[i];
                assert(m[k] == f[i]);
            } else {
                assert(m[m.len() - 1] == f[i]);
            }
        }
        assert forall|i: int| 0 <= i < f.len() implies (#[trigger] f[i]).0 != name by {
            if i < ft.len() {
                assert(f[i] == ft[i]);
            }
        }
        if vars::names_of(m).no_duplicates() {
            let nm = vars::names_of(m);
            let nt = vars::names_of(t);
            assert forall|i: int, j: int| 0 <= i < nt.len() && 0 <= j < nt.len() && i
                != j implies nt[i] != nt[j] by {
                assert(nm[i] == nt[i] && nm[j] == nt[j]);
            }
            let nf = vars::names_of(f);
            assert forall|i: int, j: int| 0 <= i < j < nf.len() implies nf[i] != nf[j] by {
                assert(f[i] == ft[i]);
                assert(nf[i] == vars::names_of(ft)[i]);
                if j < ft.len() {
                    assert(f[j] == ft[j]);
                    assert(nf[j] == vars::names_of(ft)[j]);
                } else {
                    assert(t.contains(ft[i]));
                    let k = choose|k: int| 0 <= k < t.len() && t[k] == ft[i];
                    assert(nm[k] == nf[i] && nm[m.len() - 1] == nf[j]);
                }
            }
        }
    }
}

/// Of two sources that name the same variable, the later one wins; every other
/// variable keeps its value.
pub proof fn later_sources_win(m: Listing, values: Listing, name: Seq<char>)
    ensures
        vars::lookup(daemon::merge(m, values), name) == match vars::lookup(values, name) {
            Some(v) => Some(v),
            None => vars::lookup(m, name),
        },
    decreases values.len(),
{
    if values.len() > 0 {
        let (k, v) = values.last();
        let earlier = daemon::merge(m, values.drop_last());
        later_sources_win(m, values.drop_last(), name);
        lookup_after_drop(earlier, k, name);
        let kept = daemon::dropped(earlier, k);
        assert(kept.push(values.last()).drop_last() =~= kept);
    }
}

/// No variable is released twice.
pub proof fn each_name_once(m: Listing, values: Listing)
    requires
        vars::names_of(m).no_duplicates(),
    ensures
        vars::names_of(daemon::merge(m, values)).no_duplicates(),
    decreases values.len(),
{
    if values.len() > 0 {
        let last = values.last();
        let earlier = daemon::merge(m, values.drop_last());
        each_name_once(m, values.drop_last());
        lookup_after_drop(earlier, last.0, last.0);
        let kept = daemon::dropped(earlier, last.0);
        let n = vars::names_of(kept.push(last));
        let nk = vars::names_of(kept);
        assert forall|i: int, j: int| 0 <= i < j < n.len() implies n[i] != n[j] by {
            assert(n[i] == nk[i]);
            assert(kept[i].0 != last.0);
            if j < kept.len() {
                assert(n[j] == nk[j]);
            }
        }
    }
}

/// Nothing is released that no source gave.
pub proof fn released_values_come_from_sources(m: Listing, values: Listing, p: (Seq<char>, Seq<char>))
    requires
        daemon::merge(m, values).contains(p),
    ensures
        m.contains(p) || values.contains(p),
    decreases values.len(),
{
    if values.len() > 0 {
        let last = values.last();
        let earlier = daemon::merge(m, values.drop_last());
        lookup_after_drop(earlier, last.0, last.0);
        let kept = daemon::dropped(earlier, last.0);
        let i = choose|i: int| 0 <= i < kept.push(last).len() && kept.push(last)[i] == p;
        if i < kept.len() {
            assert(earlier.contains(kept[i]));
            released_values_come_from_sources(m, values.drop_last(), p);
            if values.drop_last().contains(p) {
                let k = choose|k: int|
                    0 <= k < values.drop_last().len() && values.drop_last()[k] == p;
                assert(values[k] == p);
            }
        } else {
            assert(values[values.len() - 1] == p);
        }
    }
}

// ---------------------------------------------------------------------------
// Who is served, and what a path means

/// A connection of another user is refused, whatever it sends after: no request
/// of it is read, and no grant changes.
pub proof fn other_users_are_refused(s: Store, peer: Peer, own_uid: u32, events: Seq<Moment>)
    requires
        peer.uid != own_uid,
    ensures
        played((s, daemon::after_connect(Ok(peer), own_uid)), events) == (
            s,
            daemon::denied("connection from uid "@ + text::decimal(peer.uid as nat) + " refused"@),
        ),
    decreases events.len(),
{
    if events.len() > 0 {
        other_users_are_refused(s, peer, own_uid, events.drop_last());
    }
}

/// A caller who is listened to has the uid of the daemon.
pub proof fn only_the_owner_is_heard(peer: Result<Peer, Seq<char>>, own_uid: u32)
    ensures
        daemon::after_connect(peer, own_uid) matches StepView::ReadLine { caller } ==> caller.uid
            == own_uid && peer == Ok::<Peer, Seq<char>>(caller),
        daemon::after_connect(peer, own_uid) is ReadLine || daemon::after_connect(peer, own_uid)
            is Reply,
{
}

/// A request without files never needs the caller's working directory.
pub proof fn profiles_need_no_cwd(
    s: Store,
    aws_profiles: Seq<Seq<char>>,
    argv: Seq<Seq<char>>,
    grant_all: bool,
    lease_secs: Option<u64>,
    pid: i32,
    now: u64,
)
    ensures
        !(daemon::after_request(
            s,
            RequestView::Run { env: Seq::empty(), aws_profiles, argv, grant_all },
            pid,
            now,
        ).1 is FindCwd),
        !(daemon::after_request(
            s,
            RequestView::GrantAll { env: Seq::empty(), aws_profiles, lease_secs },
            pid,
            now,
        ).1 is FindCwd),
{
    let sources = source::source_list(Seq::empty(), aws_profiles);
    advance_asks_or_replies(
        s,
        JobView {
            sources,
            next: 0,
            merged: Seq::empty(),
            purpose: PurposeView::Run { argv, grant_all },
        },
        now,
    );
    advance_asks_or_replies(
        s,
        JobView {
            sources,
            next: 0,
            merged: Seq::empty(),
            purpose: PurposeView::GrantAll { ttl_secs: daemon::lease_or_default(lease_secs) },
        },
        now,
    );
}

/// The working directory that paths are resolved in is that of the process that
/// the kernel names as the caller, whatever the request says.
pub proof fn paths_are_the_callers(at: (Store, StepView), m: Moment)
    requires
        !(at.1 is FindCwd),
    ensures
        react(at, m).1 matches StepView::FindCwd { pid, .. } ==> (
        at.1 matches StepView::Decode { caller, .. } && pid == caller.pid),
{
    if let Some((s, job)) = goes_on(at, m) {
        advance_asks_or_replies(s, job, m.now);
    }
    if let (StepView::Decode { caller, .. }, Event::Request { request: Ok(q) }) = (at.1, m.event) {
        match q {
            RequestView::Run { aws_profiles, argv, grant_all, .. } => {
                profiles_need_no_cwd(at.0, aws_profiles, argv, grant_all, None, caller.pid, m.now);
            },
            RequestView::GrantAll { aws_profiles, lease_secs, .. } => {
                profiles_need_no_cwd(
                    at.0,
                    aws_profiles,
                    Seq::empty(),
                    false,
                    lease_secs,
                    caller.pid,
                    m.now,
                );
            },
            _ => {},
        }
    }
}

/// A path that is cleared names the file that it names when it is used: it is
/// resolved in the same directory, and the key of the file it resolves to is
/// dropped.
pub proof fn clear_means_the_same_file(
    s: Store,
    path: Seq<char>,
    dir: Seq<u8>,
    file: Seq<u8>,
    pid: i32,
    argv: Seq<Seq<char>>,
    now: u64,
)
    ensures
        ({
            let purpose = PurposeView::Run { argv, grant_all: false };
            let used = daemon::after_cwd(
                s,
                ErrandView::Sources {
                    pid,
                    env: seq![path],
                    aws_profiles: Seq::empty(),
                    purpose,
                },
                Ok(dir),
                now,
            ).1;
            let dropped = daemon::after_cwd(s, ErrandView::Clear { path }, Ok(dir), now).1;
            &&& used is Resolve && dropped is Resolve
            &&& used->Resolve_path == dropped->Resolve_path
            &&& daemon::after_resolve(s, dropped->resolving, Ok(file), now) == daemon::after_clear(
                s,
                Some(source::key_of(source::env_source_of(file))),
            )
        }),
{
}

/// The key of a profile is cleared verbatim: it is never taken for a path.
pub proof fn clear_means_the_same_profile(s: Store, profile: Seq<char>, pid: i32, now: u64)
    ensures
        daemon::after_request(
            s,
            RequestView::Clear { path: Some(source::key_of(source::aws_source_of(profile))) },
            pid,
            now,
        ) == daemon::after_clear(s, Some(source::key_of(source::aws_source_of(profile)))),
{
    let key = source::AWS_SOURCE_PREFIX@ + profile;
    assert(key.subrange(0, source::AWS_SOURCE_PREFIX@.len() as int)
        =~= source::AWS_SOURCE_PREFIX@);
}

} // verus!
