//! What a command is given: all that its sources hold, and nothing else.

use vstd::prelude::*;

use crate::daemon;
use crate::daemon::{
    ErrandView, JobView, LookupsView, PurposeView, QuestionView, ResolvingView, StepView,
};
use crate::guarantees;
use crate::guarantees::{Event, Moment};
use crate::outcomes;
use crate::proto::{RequestView, ResponseView};
use crate::source;
use crate::source::SourceView;
use crate::state;
use crate::state::{GrantView, Store};
use crate::vars;
use crate::vars::Listing;

verus! {

/// When the event before `k` happened, or the start.
pub open spec fn time_at(start: u64, events: Seq<Moment>, k: int) -> u64 {
    if k == 0 {
        start
    } else {
        events[k - 1].now
    }
}

/// After the event before `k` (or at the start) a live grant of `src` held
/// exactly `values`, or that event brought them as the values of `src`.
pub open spec fn provided_at(
    at: (Store, StepView),
    start: u64,
    events: Seq<Moment>,
    k: int,
    src: SourceView,
    values: Listing,
) -> bool {
    &&& 0 <= k <= events.len()
    &&& {
        ||| exists|g: GrantView|
            {
                &&& #[trigger] guarantees::played(at, events.take(k)).0.contains(g)
                &&& g.source == source::key_of(src)
                &&& g.values == values
                &&& g.expires_at > time_at(start, events, k)
            }
        ||| {
            &&& k > 0
            &&& events[k - 1].event == (Event::Values { values: Ok(values) })
            &&& guarantees::played(at, events.take(k - 1)).1 matches StepView::Fetch { job, .. }
            &&& daemon::current(job) == src
        }
    }
}

/// `src` was used with `values`, all of them, in this conversation.
pub open spec fn provided(
    at: (Store, StepView),
    start: u64,
    events: Seq<Moment>,
    src: SourceView,
    values: Listing,
) -> bool {
    exists|k: int| provided_at(at, start, events, k, src, values)
}

/// The value that the last of the listings with this name gives it.
pub open spec fn last_value(given: Seq<Listing>, name: Seq<char>) -> Option<Seq<char>>
    decreases given.len(),
{
    if given.len() == 0 {
        None
    } else {
        match vars::lookup(given.last(), name) {
            Some(v) => Some(v),
            None => last_value(given.drop_last(), name),
        }
    }
}

/// `m` gives every name the value of the last listing that has it.
pub open spec fn sums_up(m: Listing, given: Seq<Listing>) -> bool {
    &&& forall|name: Seq<char>| #[trigger] vars::lookup(m, name) == last_value(given, name)
    &&& vars::names_of(m).no_duplicates()
}

/// Each of the first `given.len()` sources was used with its listing of `given`.
pub open spec fn all_provided(
    at: (Store, StepView),
    start: u64,
    events: Seq<Moment>,
    sources: Seq<SourceView>,
    given: Seq<Listing>,
) -> bool {
    &&& given.len() <= sources.len()
    &&& forall|i: int|
        0 <= i < given.len() ==> provided(at, start, events, sources[i], #[trigger] given[i])
}

/// `m` is all that the first `n` sources were used with, and nothing else.
spec fn collected(
    at: (Store, StepView),
    start: u64,
    events: Seq<Moment>,
    sources: Seq<SourceView>,
    n: int,
    m: Listing,
) -> bool {
    exists|given: Seq<Listing>|
        {
            &&& given.len() == n
            &&& #[trigger] all_provided(at, start, events, sources, given)
            &&& sums_up(m, given)
        }
}

proof fn providing_lasts(
    at: (Store, StepView),
    start: u64,
    events: Seq<Moment>,
    src: SourceView,
    values: Listing,
)
    requires
        events.len() > 0,
        provided(at, start, events.drop_last(), src, values),
    ensures
        provided(at, start, events, src, values),
{
    let before = events.drop_last();
    let k = choose|k: int| provided_at(at, start, before, k, src, values);
    assert(before.take(k) =~= events.take(k));
    if k > 0 {
        assert(before.take(k - 1) =~= events.take(k - 1));
        assert(before[k - 1] == events[k - 1]);
    }
    assert(provided_at(at, start, events, k, src, values));
}

proof fn collection_lasts(
    at: (Store, StepView),
    start: u64,
    events: Seq<Moment>,
    sources: Seq<SourceView>,
    n: int,
    m: Listing,
)
    requires
        events.len() > 0,
        collected(at, start, events.drop_last(), sources, n, m),
    ensures
        collected(at, start, events, sources, n, m),
{
    let before = events.drop_last();
    let given = choose|given: Seq<Listing>|
        {
            &&& given.len() == n
            &&& #[trigger] all_provided(at, start, before, sources, given)
            &&& sums_up(m, given)
        };
    assert forall|i: int| 0 <= i < given.len() implies provided(
        at,
        start,
        events,
        sources[i],
        #[trigger] given[i],
    ) by {
        providing_lasts(at, start, events, sources[i], given[i]);
    }
    assert(all_provided(at, start, events, sources, given));
}

/// A further listing wins over those before it.
proof fn summing_up_goes_on(m: Listing, given: Seq<Listing>, values: Listing)
    requires
        sums_up(m, given),
    ensures
        sums_up(daemon::merge(m, values), given.push(values)),
{
    let all = given.push(values);
    assert(all.drop_last() =~= given);
    assert forall|name: Seq<char>| #[trigger]
        vars::lookup(daemon::merge(m, values), name) == last_value(all, name) by {
        guarantees::later_sources_win(m, values, name);
        assert(vars::lookup(m, name) == last_value(given, name));
    }
    guarantees::each_name_once(m, values);
}

proof fn collection_adds_up(
    at: (Store, StepView),
    start: u64,
    events: Seq<Moment>,
    job: JobView,
    values: Listing,
)
    requires
        job.next < job.sources.len(),
        collected(at, start, events, job.sources, job.next as int, job.merged),
        provided(at, start, events, daemon::current(job), values),
    ensures
        collected(
            at,
            start,
            events,
            job.sources,
            job.next as int + 1,
            daemon::merge(job.merged, values),
        ),
{
    let given = choose|given: Seq<Listing>|
        {
            &&& given.len() == job.next
            &&& #[trigger] all_provided(at, start, events, job.sources, given)
            &&& sums_up(job.merged, given)
        };
    let all = given.push(values);
    summing_up_goes_on(job.merged, given, values);
    assert forall|i: int| 0 <= i < all.len() implies provided(
        at,
        start,
        events,
        job.sources[i],
        #[trigger] all[i],
    ) by {
        if i < given.len() {
            assert(all[i] == given[i]);
        }
    }
    assert(all_provided(at, start, events, job.sources, all));
}

/// What is kept up along the conversation of a request to run a command.
spec fn gathers(
    at: (Store, StepView),
    start: u64,
    events: Seq<Moment>,
    env: Seq<Seq<char>>,
    aws_profiles: Seq<Seq<char>>,
) -> bool {
    match guarantees::played(at, events).1 {
        StepView::ReadLine { .. } => false,
        StepView::Decode { .. } => false,
        StepView::FindCwd { errand, .. } => errand matches ErrandView::Sources {
            env: e,
            aws_profiles: a,
            ..
        } && e == env && a == aws_profiles,
        StepView::Resolve { resolving, .. } => resolving matches ResolvingView::Sources {
            lookups: l,
        } && l.env == env && l.files.len() < env.len() && l.aws_profiles == aws_profiles,
        StepView::Ask { question, .. } => {
            let j = guarantees::job_of(question);
            &&& j.next < j.sources.len()
            &&& guarantees::serves(j.sources, env, aws_profiles)
            &&& collected(at, start, events, j.sources, j.next as int, j.merged)
            &&& question matches QuestionView::Upgrade { values, .. } ==> provided(
                at,
                start,
                events,
                daemon::current(j),
                values,
            )
        },
        StepView::Fetch { job, .. } => {
            &&& job.next < job.sources.len()
            &&& guarantees::serves(job.sources, env, aws_profiles)
            &&& collected(at, start, events, job.sources, job.next as int, job.merged)
        },
        StepView::Reply { response } => response matches ResponseView::Granted { secrets }
            ==> exists|sources: Seq<SourceView>|
            {
                &&& #[trigger] guarantees::serves(sources, env, aws_profiles)
                &&& collected(at, start, events, sources, sources.len() as int, secrets)
            },
    }
}

/// A live grant that is still there after the last event provides its values.
proof fn live_grants_provide(
    at: (Store, StepView),
    start: u64,
    events: Seq<Moment>,
    src: SourceView,
    g: GrantView,
)
    requires
        guarantees::played(at, events).0.contains(g),
        g.source == source::key_of(src),
        g.expires_at > time_at(start, events, events.len() as int),
    ensures
        provided(at, start, events, src, g.values),
{
    assert(events.take(events.len() as int) =~= events);
    assert(provided_at(at, start, events, events.len() as int, src, g.values));
}

proof fn advance_gathers(
    at: (Store, StepView),
    start: u64,
    events: Seq<Moment>,
    env: Seq<Seq<char>>,
    aws_profiles: Seq<Seq<char>>,
    s: Store,
    job: JobView,
    now: u64,
)
    requires
        guarantees::played(at, events) == daemon::advance(s, job, now),
        now == time_at(start, events, events.len() as int),
        job.next <= job.sources.len(),
        guarantees::serves(job.sources, env, aws_profiles),
        collected(at, start, events, job.sources, job.next as int, job.merged),
    ensures
        gathers(at, start, events, env, aws_profiles),
    decreases job.sources.len() - job.next,
{
    if job.next < job.sources.len() {
        let key = daemon::current_key(job);
        let rest = state::unexpired(s, now);
        guarantees::passes_only_open_sources(s, job, now);
        assert(guarantees::played(at, events).0 == rest);
        state::live_is_sound(s, key, now);
        state::find_is_sound(rest, key);
        if let Some(g) = state::live_grant(s, key, now) {
            live_grants_provide(at, start, events, daemon::current(job), g);
            if !daemon::makes_allow_all(job.purpose) && g.allow_all {
                collection_adds_up(at, start, events, job, g.values);
                let next = daemon::collect(job, g.values);
                advance_gathers(at, start, events, env, aws_profiles, rest, next, now);
            }
        }
    }
}

proof fn nothing_is_collected(
    at: (Store, StepView),
    start: u64,
    events: Seq<Moment>,
    sources: Seq<SourceView>,
)
    ensures
        collected(at, start, events, sources, 0, Seq::empty()),
{
    let given: Seq<Listing> = Seq::empty();
    let m: Listing = Seq::empty();
    assert(all_provided(at, start, events, sources, given));
    assert(sums_up(m, given));
}

proof fn resolution_gathers(
    at: (Store, StepView),
    start: u64,
    events: Seq<Moment>,
    env: Seq<Seq<char>>,
    aws_profiles: Seq<Seq<char>>,
    s: Store,
    l: LookupsView,
    now: u64,
)
    requires
        guarantees::played(at, events) == daemon::resolve_next(s, l, now),
        now == time_at(start, events, events.len() as int),
        l.env == env,
        l.files.len() <= env.len(),
        l.aws_profiles == aws_profiles,
    ensures
        gathers(at, start, events, env, aws_profiles),
{
    if l.files.len() == env.len() {
        let sources = source::source_list(l.files, aws_profiles);
        assert(guarantees::serves(sources, env, aws_profiles));
        nothing_is_collected(at, start, events, sources);
        let job = JobView { sources, next: 0, merged: Seq::empty(), purpose: l.purpose };
        advance_gathers(at, start, events, env, aws_profiles, s, job, now);
    }
}

#[verifier::rlimit(40)]
proof fn conversation_gathers(
    at: (Store, StepView),
    start: u64,
    events: Seq<Moment>,
    env: Seq<Seq<char>>,
    aws_profiles: Seq<Seq<char>>,
)
    requires
        gathers(at, start, Seq::empty(), env, aws_profiles),
        guarantees::honest(events),
    ensures
        gathers(at, start, events, env, aws_profiles),
    decreases events.len(),
{
    if events.len() == 0 {
        assert(events =~= Seq::empty());
    } else {
        let before = events.drop_last();
        let m = events.last();
        assert forall|k: int| 0 <= k < before.len() implies ((
        #[trigger] before[k]).event matches Event::Values { values: Err(response) }
            ==> response is Denied || response is Error) by {
            assert(events[k] == before[k]);
        }
        conversation_gathers(at, start, before, env, aws_profiles);
        let (s, step) = guarantees::played(at, before);
        assert(guarantees::played(at, events) == guarantees::react((s, step), m));
        assert(events[events.len() - 1] == m);
        match (step, m.event) {
            (StepView::FindCwd { errand, .. }, Event::Cwd { cwd }) => {
                if let Ok(dir) = cwd {
                    let purpose = errand->purpose;
                    let files: Seq<Seq<u8>> = Seq::empty();
                    let l = LookupsView { cwd: dir, env, files, aws_profiles, purpose };
                    resolution_gathers(at, start, events, env, aws_profiles, s, l, m.now);
                }
            },
            (StepView::Resolve { resolving, .. }, Event::Canonical { found }) => {
                if let Ok(file) = found {
                    let l = resolving->lookups;
                    let next = LookupsView { files: l.files.push(file), ..l };
                    resolution_gathers(at, start, events, env, aws_profiles, s, next, m.now);
                }
            },
            (StepView::Ask { question, .. }, Event::Answer { approved }) => {
                if approved {
                    let job = guarantees::job_of(question);
                    let key = daemon::current_key(job);
                    let src = daemon::current(job);
                    collection_lasts(
                        at,
                        start,
                        events,
                        job.sources,
                        job.next as int,
                        job.merged,
                    );
                    match question {
                        QuestionView::Establish { .. } => {},
                        QuestionView::Upgrade { values, .. } => {
                            providing_lasts(at, start, events, src, values);
                            collection_adds_up(at, start, events, job, values);
                            advance_gathers(
                                at,
                                start,
                                events,
                                env,
                                aws_profiles,
                                state::upgraded(s, key, daemon::ttl_of(job.purpose), m.now),
                                daemon::collect(job, values),
                                m.now,
                            );
                        },
                        QuestionView::Confirm { .. } => {
                            if let Some(g) = state::live_grant(s, key, m.now) {
                                let rest = state::unexpired(s, m.now);
                                let next = daemon::collect(job, g.values);
                                state::live_is_sound(s, key, m.now);
                                state::find_is_sound(rest, key);
                                guarantees::passes_only_open_sources(rest, next, m.now);
                                state::unexpired_is_settled(s, m.now);
                                live_grants_provide(at, start, events, src, g);
                                collection_adds_up(at, start, events, job, g.values);
                                advance_gathers(
                                    at,
                                    start,
                                    events,
                                    env,
                                    aws_profiles,
                                    rest,
                                    next,
                                    m.now,
                                );
                            }
                        },
                    }
                }
            },
            (StepView::Fetch { job, .. }, Event::Values { values }) => {
                if let Ok(v) = values {
                    collection_lasts(
                        at,
                        start,
                        events,
                        job.sources,
                        job.next as int,
                        job.merged,
                    );
                    assert(events.take(events.len() - 1) =~= before);
                    assert(provided_at(
                        at,
                        start,
                        events,
                        events.len() as int,
                        daemon::current(job),
                        v,
                    ));
                    collection_adds_up(at, start, events, job, v);
                    advance_gathers(
                        at,
                        start,
                        events,
                        env,
                        aws_profiles,
                        state::granted(
                            s,
                            daemon::current_key(job),
                            v,
                            daemon::ttl_of(job.purpose),
                            daemon::makes_allow_all(job.purpose),
                            m.now,
                        ),
                        daemon::collect(job, v),
                        m.now,
                    );
                }
            },
            _ => {
                match step {
                    StepView::Ask { question, .. } => {
                        let j = guarantees::job_of(question);
                        collection_lasts(at, start, events, j.sources, j.next as int, j.merged);
                        if let QuestionView::Upgrade { values, .. } = question {
                            providing_lasts(at, start, events, daemon::current(j), values);
                        }
                    },
                    StepView::Fetch { job, .. } => {
                        collection_lasts(
                            at,
                            start,
                            events,
                            job.sources,
                            job.next as int,
                            job.merged,
                        );
                    },
                    StepView::Reply { response: ResponseView::Granted { secrets } } => {
                        let sources = choose|sources: Seq<SourceView>|
                            {
                                &&& #[trigger] guarantees::serves(sources, env, aws_profiles)
                                &&& collected(
                                    at,
                                    start,
                                    before,
                                    sources,
                                    sources.len() as int,
                                    secrets,
                                )
                            };
                        collection_lasts(
                            at,
                            start,
                            events,
                            sources,
                            sources.len() as int,
                            secrets,
                        );
                        assert(guarantees::serves(sources, env, aws_profiles));
                    },
                    _ => {},
                }
            },
        }
    }
}

/// A command gets all that its sources hold. Where a request to run a command
/// ends with its secrets, each of its sources was used with a listing of values,
/// which a live grant of it held or which were just obtained for it; and the
/// secrets give every name the value of the last of these listings that has it,
/// no more and no less. No name is given twice.
pub proof fn a_command_gets_all_its_values(
    s: Store,
    env: Seq<Seq<char>>,
    aws_profiles: Seq<Seq<char>>,
    argv: Seq<Seq<char>>,
    grant_all: bool,
    pid: i32,
    start: u64,
    events: Seq<Moment>,
)
    requires
        guarantees::honest(events),
        guarantees::played(
            daemon::after_request(
                s,
                RequestView::Run { env, aws_profiles, argv, grant_all },
                pid,
                start,
            ),
            events,
        ).1 matches StepView::Reply { response: ResponseView::Granted { .. } },
    ensures
        ({
            let at = daemon::after_request(
                s,
                RequestView::Run { env, aws_profiles, argv, grant_all },
                pid,
                start,
            );
            let secrets = guarantees::played(at, events).1->response->secrets;
            exists|sources: Seq<SourceView>, given: Seq<Listing>|
                {
                    &&& guarantees::serves(sources, env, aws_profiles)
                    &&& given.len() == sources.len()
                    &&& #[trigger] all_provided(at, start, events, sources, given)
                    &&& sums_up(secrets, given)
                }
        }),
{
    let at = daemon::after_request(
        s,
        RequestView::Run { env, aws_profiles, argv, grant_all },
        pid,
        start,
    );
    let none: Seq<Moment> = Seq::empty();
    if env.len() == 0 && aws_profiles.len() > 0 && argv.len() > 0 {
        let files: Seq<Seq<u8>> = Seq::empty();
        let sources = source::source_list(files, aws_profiles);
        let purpose = PurposeView::Run { argv, grant_all };
        assert(guarantees::serves(sources, env, aws_profiles));
        nothing_is_collected(at, start, none, sources);
        advance_gathers(
            at,
            start,
            none,
            env,
            aws_profiles,
            s,
            JobView { sources, next: 0, merged: Seq::empty(), purpose },
            start,
        );
    }
    conversation_gathers(at, start, events, env, aws_profiles);
    let secrets = guarantees::played(at, events).1->response->secrets;
    let sources = choose|sources: Seq<SourceView>|
        {
            &&& #[trigger] guarantees::serves(sources, env, aws_profiles)
            &&& collected(at, start, events, sources, sources.len() as int, secrets)
        };
    let given = choose|given: Seq<Listing>|
        {
            &&& given.len() == sources.len()
            &&& #[trigger] all_provided(at, start, events, sources, given)
            &&& sums_up(secrets, given)
        };
    assert(all_provided(at, start, events, sources, given));
}

/// The values of grants.
pub open spec fn values_of_grants(grants: Seq<GrantView>) -> Seq<Listing> {
    grants.map_values(|g: GrantView| g.values)
}

/// `grants` are the live allow-all grants of `sources`, one for each.
pub open spec fn opens(
    s: Store,
    sources: Seq<SourceView>,
    grants: Seq<GrantView>,
    now: u64,
) -> bool {
    &&& grants.len() == sources.len()
    &&& forall|i: int|
        0 <= i < grants.len() ==> {
            let g = #[trigger] grants[i];
            s.contains(g) && g.source == source::key_of(sources[i]) && g.allow_all && g.expires_at
                > now
        }
}

proof fn open_sources_add_up(
    s: Store,
    job: JobView,
    grants: Seq<GrantView>,
    now: u64,
)
    requires
        state::one_per_source(s),
        job.next <= job.sources.len(),
        job.purpose matches PurposeView::Run { grant_all, .. } && !grant_all,
        opens(s, job.sources, grants, now),
        sums_up(job.merged, values_of_grants(grants.take(job.next as int))),
    ensures
        daemon::advance(s, job, now).1 matches StepView::Reply {
            response: ResponseView::Granted { secrets },
        } && sums_up(secrets, values_of_grants(grants)),
    decreases job.sources.len() - job.next,
{
    if job.next < job.sources.len() {
        let g = grants[job.next as int];
        let rest = state::unexpired(s, now);
        let next = daemon::collect(job, g.values);
        state::live_means_running(s, g.source, now);
        state::store_stays_sound(s, g.source, Seq::empty(), 0, true, now);
        summing_up_goes_on(job.merged, values_of_grants(grants.take(job.next as int)), g.values);
        assert(values_of_grants(grants.take(next.next as int)) =~= values_of_grants(
            grants.take(job.next as int),
        ).push(g.values));
        assert forall|i: int| 0 <= i < grants.len() implies {
            let x = #[trigger] grants[i];
            rest.contains(x) && x.source == source::key_of(job.sources[i]) && x.allow_all
                && x.expires_at > now
        } by {
            state::the_running_grants_are_kept(s, now, grants[i]);
        }
        open_sources_add_up(rest, next, grants, now);
    } else {
        assert(grants.take(job.next as int) =~= grants);
    }
}

/// Sources with live allow-all grants give a command all their values, unasked:
/// every name gets the value of the last of these grants that has it.
pub proof fn open_sources_give_all_their_values(
    s: Store,
    sources: Seq<SourceView>,
    grants: Seq<GrantView>,
    argv: Seq<Seq<char>>,
    now: u64,
)
    requires
        state::one_per_source(s),
        opens(s, sources, grants, now),
    ensures
        daemon::start(s, sources, PurposeView::Run { argv, grant_all: false }, now).1 matches
            StepView::Reply { response: ResponseView::Granted { secrets } } && sums_up(
            secrets,
            values_of_grants(grants),
        ),
{
    let none: Listing = Seq::empty();
    let no_grants: Seq<Listing> = values_of_grants(grants.take(0));
    assert(no_grants =~= Seq::empty());
    assert(sums_up(none, no_grants));
    open_sources_add_up(
        s,
        JobView {
            sources,
            next: 0,
            merged: none,
            purpose: PurposeView::Run { argv, grant_all: false },
        },
        grants,
        now,
    );
}

/// One source with a live allow-all grant gives a command what the grant holds:
/// every name has exactly the value that the grant gives it.
pub proof fn one_open_source_gives_its_grant(
    s: Store,
    src: SourceView,
    g: GrantView,
    argv: Seq<Seq<char>>,
    now: u64,
    name: Seq<char>,
)
    requires
        state::one_per_source(s),
        s.contains(g),
        g.source == source::key_of(src),
        g.allow_all,
        g.expires_at > now,
    ensures
        daemon::start(s, seq![src], PurposeView::Run { argv, grant_all: false }, now).1 matches
            StepView::Reply { response: ResponseView::Granted { secrets } } && vars::lookup(
            secrets,
            name,
        ) == vars::lookup(g.values, name),
{
    let grants = seq![g];
    open_sources_give_all_their_values(s, seq![src], grants, argv, now);
    let given = values_of_grants(grants);
    assert(given =~= seq![g.values]);
    assert(given.drop_last() =~= Seq::empty());
    reveal_with_fuel(last_value, 2);
    let secrets = daemon::start(
        s,
        seq![src],
        PurposeView::Run { argv, grant_all: false },
        now,
    ).1->response->secrets;
    assert(vars::lookup(secrets, name) == last_value(given, name));
}

/// A job with one source, at that source.
pub open spec fn job_for(src: SourceView, purpose: PurposeView) -> JobView {
    JobView { sources: seq![src], next: 0, merged: Seq::empty(), purpose }
}

proof fn one_listing_sums_up(values: Listing)
    ensures
        forall|name: Seq<char>| #[trigger]
            vars::lookup(daemon::merge(Seq::empty(), values), name) == vars::lookup(values, name),
        vars::names_of(daemon::merge(Seq::empty(), values)).no_duplicates(),
{
    let none: Listing = Seq::empty();
    assert forall|name: Seq<char>| #[trigger]
        vars::lookup(daemon::merge(none, values), name) == vars::lookup(values, name) by {
        guarantees::later_sources_win(none, values, name);
    }
    guarantees::each_name_once(none, values);
}

/// The command of a first use gets what was just obtained from its source, and a
/// command that was confirmed gets what the live grant of its source holds: in
/// both cases every name has exactly that value.
pub proof fn a_yes_releases_the_values(
    s: Store,
    src: SourceView,
    g: GrantView,
    values: Listing,
    argv: Seq<Seq<char>>,
    grant_all: bool,
    now: u64,
    name: Seq<char>,
)
    requires
        state::one_per_source(s),
        s.contains(g),
        g.source == source::key_of(src),
        g.expires_at > now,
    ensures
        ({
            let job = job_for(src, PurposeView::Run { argv, grant_all });
            &&& daemon::after_fetch(s, job, Ok(values), now).1 matches StepView::Reply {
                response: ResponseView::Granted { secrets },
            } && vars::lookup(secrets, name) == vars::lookup(values, name)
            &&& daemon::after_answer(s, QuestionView::Confirm { job }, true, now).1 matches
                StepView::Reply { response: ResponseView::Granted { secrets } } && vars::lookup(
                secrets,
                name,
            ) == vars::lookup(g.values, name)
            &&& daemon::after_answer(s, QuestionView::Upgrade { job, values }, true, now).1 matches
                StepView::Reply { response: ResponseView::Granted { secrets } } && vars::lookup(
                secrets,
                name,
            ) == vars::lookup(values, name)
        }),
{
    one_listing_sums_up(values);
    one_listing_sums_up(g.values);
    state::live_means_running(s, g.source, now);
}

/// What was granted for all commands is what they get: from a yes on, and until
/// the lease that was asked for ends, a command with this source gets exactly the
/// values that were obtained for it, unasked.
pub proof fn granted_values_reach_the_command(
    s: Store,
    src: SourceView,
    values: Listing,
    ttl_secs: u64,
    made: u64,
    argv: Seq<Seq<char>>,
    now: u64,
    name: Seq<char>,
)
    requires
        state::one_per_source(s),
        made <= now < made + ttl_secs * 1_000_000_000,
    ensures
        ({
            let job = job_for(src, PurposeView::GrantAll { ttl_secs });
            let after = daemon::after_fetch(s, job, Ok(values), made).0;
            daemon::start(after, seq![src], PurposeView::Run { argv, grant_all: false }, now).1 matches
                StepView::Reply { response: ResponseView::Granted { secrets } } && vars::lookup(
                secrets,
                name,
            ) == vars::lookup(values, name)
        }),
{
    let key = source::key_of(src);
    let job = job_for(src, PurposeView::GrantAll { ttl_secs });
    let after = daemon::after_fetch(s, job, Ok(values), made).0;
    let end = made + ttl_secs * 1_000_000_000;
    let g = GrantView { source: key, values, expires_at: end as nat, allow_all: true };
    outcomes::new_values_start_their_lease(s, job, values, made, g);
    state::store_stays_sound(s, key, values, ttl_secs, true, made);
    one_open_source_gives_its_grant(after, src, g, argv, now, name);
}

/// What is turned allow-all keeps its values: from the yes on, and until the
/// lease that was asked for ends, a command with this source gets exactly what
/// the grant held before, unasked.
pub proof fn upgraded_values_reach_the_command(
    s: Store,
    src: SourceView,
    g: GrantView,
    values: Listing,
    ttl_secs: u64,
    made: u64,
    argv: Seq<Seq<char>>,
    now: u64,
    name: Seq<char>,
)
    requires
        state::one_per_source(s),
        s.contains(g),
        g.source == source::key_of(src),
        g.expires_at > made,
        made <= now < made + ttl_secs * 1_000_000_000,
    ensures
        ({
            let job = job_for(src, PurposeView::GrantAll { ttl_secs });
            let after = daemon::after_answer(
                s,
                QuestionView::Upgrade { job, values },
                true,
                made,
            ).0;
            daemon::start(after, seq![src], PurposeView::Run { argv, grant_all: false }, now).1 matches
                StepView::Reply { response: ResponseView::Granted { secrets } } && vars::lookup(
                secrets,
                name,
            ) == vars::lookup(g.values, name)
        }),
{
    let job = job_for(src, PurposeView::GrantAll { ttl_secs });
    let after = daemon::after_answer(s, QuestionView::Upgrade { job, values }, true, made).0;
    let end = made + ttl_secs * 1_000_000_000;
    let turned = GrantView { allow_all: true, expires_at: end as nat, ..g };
    outcomes::a_yes_to_all_starts_its_lease(s, job, values, made, g);
    state::store_stays_sound(s, g.source, values, ttl_secs, true, made);
    one_open_source_gives_its_grant(after, src, turned, argv, now, name);
}

} // verus!
