//! In-memory store of granted secrets.
//!
//! Secrets live here and nowhere else the agent can reach: read on demand, and
//! held only until their lease expires. Times are nanoseconds on a clock of the
//! caller's.

use vstd::prelude::*;
use vstd::string::*;

use crate::proto::{CaptureInfo, CaptureView};
use crate::proto;
use crate::text;
use crate::vars;
use crate::vars::Vars;

verus! {

/// Nanoseconds in a second.
pub const NANOS_PER_SEC: u128 = 1_000_000_000;

/// One granted source and the values it provided.
struct Grant {
    /// Source identity: a canonical path, or `aws:<profile>`.
    source: String,
    values: Vars,
    expires_at: u128,
    /// When true, commands run against this source skip the per-command prompt.
    allow_all: bool,
}

/// The contents of one grant.
pub struct GrantView {
    pub source: Seq<char>,
    pub values: vars::Listing,
    pub expires_at: nat,
    pub allow_all: bool,
}

impl View for Grant {
    type V = GrantView;

    closed spec fn view(&self) -> GrantView {
        GrantView {
            source: self.source@,
            values: self.values@,
            expires_at: self.expires_at as nat,
            allow_all: self.allow_all,
        }
    }
}

/// A still-live grant: whether it is allow-all, plus its values.
pub struct LiveGrant {
    pub allow_all: bool,
    pub values: Vec<(String, String)>,
}

/// All active grants.
pub struct State {
    grants: Vec<Grant>,
}

/// The grants of a store, oldest first.
pub type Store = Seq<GrantView>;

impl View for State {
    type V = Store;

    closed spec fn view(&self) -> Store {
        self.grants@.map_values(|g: Grant| g@)
    }
}

/// The instant at which a lease of `ttl_secs` that starts at `now` ends.
pub open spec fn expiry(now: u64, ttl_secs: u64) -> nat {
    now as nat + ttl_secs as nat * NANOS_PER_SEC as nat
}

/// The grants whose lease has not ended at `now`.
pub open spec fn unexpired(s: Store, now: u64) -> Store {
    s.filter(|g: GrantView| g.expires_at > now)
}

/// The grants of every source but `source`.
pub open spec fn without(s: Store, source: Seq<char>) -> Store {
    s.filter(|g: GrantView| g.source != source)
}

/// The grant of `source`.
pub open spec fn find(s: Store, source: Seq<char>) -> Option<GrantView>
    decreases s.len(),
{
    if s.len() == 0 {
        None
    } else if s[0].source == source {
        Some(s[0])
    } else {
        find(s.drop_first(), source)
    }
}

/// The grant of `source` that is live at `now`.
pub open spec fn live_grant(s: Store, source: Seq<char>, now: u64) -> Option<GrantView> {
    find(unexpired(s, now), source)
}

/// The store after granting `source`: what has expired is dropped, and the new
/// grant takes the place of an earlier one of the same source.
pub open spec fn granted(
    s: Store,
    source: Seq<char>,
    values: vars::Listing,
    ttl_secs: u64,
    allow_all: bool,
    now: u64,
) -> Store {
    without(unexpired(s, now), source).push(
        GrantView { source, values, expires_at: expiry(now, ttl_secs), allow_all },
    )
}

/// `s` with the grant of `source` in allow-all mode and expiring at `end`.
pub open spec fn relaxed(s: Store, source: Seq<char>, end: nat) -> Store
    decreases s.len(),
{
    if s.len() == 0 {
        s
    } else if s[0].source == source {
        seq![GrantView { allow_all: true, expires_at: end, ..s[0] }] + s.drop_first()
    } else {
        seq![s[0]] + relaxed(s.drop_first(), source, end)
    }
}

/// The store after upgrading `source` to allow-all.
pub open spec fn upgraded(s: Store, source: Seq<char>, ttl_secs: u64, now: u64) -> Store {
    relaxed(unexpired(s, now), source, expiry(now, ttl_secs))
}

/// The store after dropping one source, or all.
pub open spec fn cleared(s: Store, source: Option<Seq<char>>) -> Store {
    match source {
        Some(p) => without(s, p),
        None => Seq::empty(),
    }
}

/// Whole seconds from `now` to `end`, as far as 64 bits hold them.
pub open spec fn secs_left(end: nat, now: u64) -> u64 {
    let secs = if end > now {
        (end - now) as nat / NANOS_PER_SEC as nat
    } else {
        0
    };
    if secs > u64::MAX {
        u64::MAX
    } else {
        secs as u64
    }
}

/// What a grant shows: its source, its names and its lease, never a value.
pub open spec fn summary(g: GrantView, now: u64) -> CaptureView {
    CaptureView {
        source: g.source,
        names: vars::names_of(g.values),
        expires_in_secs: secs_left(g.expires_at, now),
        allow_all: g.allow_all,
    }
}

/// What all live grants show.
pub open spec fn summaries(s: Store, now: u64) -> Seq<CaptureView> {
    unexpired(s, now).map_values(|g: GrantView| summary(g, now))
}

// ---------------------------------------------------------------------------
// What holds of every store

/// No source has two grants.
pub open spec fn one_per_source(s: Store) -> bool {
    forall|i: int, j: int| 0 <= i < j < s.len() ==> (#[trigger] s[i]).source != (#[trigger] s[j]).source
}

/// No lease ends after `end`.
pub open spec fn leases_end_by(s: Store, end: nat) -> bool {
    forall|i: int| 0 <= i < s.len() ==> (#[trigger] s[i]).expires_at <= end
}

/// A found grant is one of the store's, of the source that was sought.
pub proof fn find_is_sound(s: Store, source: Seq<char>)
    ensures
        match find(s, source) {
            Some(g) => s.contains(g) && g.source == source,
            None => forall|i: int| 0 <= i < s.len() ==> (#[trigger] s[i]).source != source,
        },
    decreases s.len(),
{
    if s.len() > 0 {
        if s[0].source == source {
            assert(s.contains(s[0]));
        } else {
            find_is_sound(s.drop_first(), source);
            match find(s, source) {
                Some(g) => {
                    let k = choose|k: int| 0 <= k < s.drop_first().len() && s.drop_first()[k] == g;
                    assert(s[k + 1] == g);
                },
                None => {
                    assert forall|i: int| 0 <= i < s.len() implies (#[trigger] s[i]).source
                        != source by {
                        if i > 0 {
                            assert(s.drop_first()[i - 1] == s[i]);
                        }
                    }
                },
            }
        }
    }
}

proof fn find_after_push(s: Store, g: GrantView, source: Seq<char>)
    ensures
        find(s.push(g), source) == match find(s, source) {
            Some(x) => Some(x),
            None => if g.source == source {
                Some(g)
            } else {
                None
            },
        },
    decreases s.len(),
{
    let t = s.push(g);
    if s.len() == 0 {
        assert(t.drop_first() =~= Seq::empty());
        reveal_with_fuel(find, 2);
    } else {
        assert(t.drop_first() =~= s.drop_first().push(g));
        find_after_push(s.drop_first(), g, source);
    }
}

/// Two ways of thinning out a store find the same grant of a source, if they
/// agree on that source.
proof fn find_in_filters(
    s: Store,
    a: spec_fn(GrantView) -> bool,
    b: spec_fn(GrantView) -> bool,
    source: Seq<char>,
)
    requires
        forall|g: GrantView| g.source == source ==> #[trigger] a(g) == #[trigger] b(g),
    ensures
        find(s.filter(a), source) == find(s.filter(b), source),
    decreases s.len(),
{
    reveal(Seq::filter);
    if s.len() > 0 {
        let t = s.drop_last();
        find_in_filters(t, a, b, source);
        find_after_push(t.filter(a), s.last(), source);
        find_after_push(t.filter(b), s.last(), source);
        if s.last().source == source {
            assert(a(s.last()) == b(s.last()));
        }
    }
}

/// Thinning out twice is thinning out by both conditions.
proof fn filter_twice(s: Store, a: spec_fn(GrantView) -> bool, b: spec_fn(GrantView) -> bool)
    ensures
        s.filter(a).filter(b) == s.filter(|g: GrantView| a(g) && b(g)),
    decreases s.len(),
{
    reveal(Seq::filter);
    let both = |g: GrantView| a(g) && b(g);
    if s.len() > 0 {
        let t = s.drop_last();
        filter_twice(t, a, b);
        if a(s.last()) {
            assert(t.filter(a).push(s.last()).drop_last() =~= t.filter(a));
        }
    } else {
        assert(s.filter(a).filter(b) =~= s.filter(both));
    }
}

/// What is left of a store was in it, and in the same order.
proof fn filter_is_part(s: Store, a: spec_fn(GrantView) -> bool)
    ensures
        forall|i: int|
            0 <= i < s.filter(a).len() ==> s.contains(#[trigger] s.filter(a)[i]) && a(
                s.filter(a)[i],
            ),
        one_per_source(s) ==> one_per_source(s.filter(a)),
        forall|end: nat| leases_end_by(s, end) ==> #[trigger] leases_end_by(s.filter(a), end),
    decreases s.len(),
{
    reveal(Seq::filter);
    if s.len() > 0 {
        let t = s.drop_last();
        let f = t.filter(a);
        filter_is_part(t, a);
        assert forall|i: int| 0 <= i < s.filter(a).len() implies s.contains(
            #[trigger] s.filter(a)[i],
        ) && a(s.filter(a)[i]) by {
            if i < f.len() {
                assert(f[i] == s.filter(a)[i]);
                assert(t.contains(f[i]));
                let k = choose|k: int| 0 <= k < t.len() && t[k] == f[i];
                assert(s[k] == f[i]);
            } else {
                assert(s[s.len() - 1] == s.filter(a)[i]);
            }
        }
        if one_per_source(s) {
            assert(one_per_source(t)) by {
                assert forall|i: int, j: int| 0 <= i < j < t.len() implies (#[trigger] t[i]).source
                    != (#[trigger] t[j]).source by {
                    assert(s[i] == t[i] && s[j] == t[j]);
                }
            }
            let r = s.filter(a);
            assert forall|i: int, j: int| 0 <= i < j < r.len() implies (#[trigger] r[i]).source
                != (#[trigger] r[j]).source by {
                assert(f[i] == r[i]);
                if j < f.len() {
                    assert(f[j] == r[j]);
                } else {
                    assert(t.contains(f[i]));
                    let k = choose|k: int| 0 <= k < t.len() && t[k] == f[i];
                    assert(s[k] == r[i] && s[s.len() - 1] == r[j]);
                }
            }
        }
        assert forall|end: nat| leases_end_by(s, end) implies #[trigger] leases_end_by(
            s.filter(a),
            end,
        ) by {
            assert forall|i: int| 0 <= i < s.filter(a).len() implies (#[trigger] s.filter(
                a,
            )[i]).expires_at <= end by {
                assert(s.contains(s.filter(a)[i]));
                let k = choose|k: int| 0 <= k < s.len() && s[k] == s.filter(a)[i];
                assert(s[k].expires_at <= end);
            }
        }
    }
}

/// What has been dropped as expired is not dropped again.
pub proof fn unexpired_is_settled(s: Store, now: u64)
    ensures
        unexpired(unexpired(s, now), now) == unexpired(s, now),
{
    let p = |g: GrantView| g.expires_at > now;
    filter_twice(s, p, p);
    assert((|g: GrantView| p(g) && p(g)) =~= p);
}

/// A live grant is one of the store's, of the source that was sought, and its
/// lease has not ended.
pub proof fn live_is_sound(s: Store, source: Seq<char>, now: u64)
    ensures
        live_grant(s, source, now) matches Some(g) ==> s.contains(g) && g.source == source
            && g.expires_at > now,
{
    find_is_sound(unexpired(s, now), source);
    filter_is_part(s, |g: GrantView| g.expires_at > now);
    if let Some(g) = live_grant(s, source, now) {
        let r = unexpired(s, now);
        let k = choose|k: int| 0 <= k < r.len() && r[k] == g;
        assert(s.contains(r[k]) && r[k].expires_at > now);
    }
}

/// Where each source has one grant, that grant is live until its lease ends,
/// and not after.
pub proof fn live_until_expiry(s: Store, source: Seq<char>, now: u64)
    requires
        one_per_source(s),
    ensures
        live_grant(s, source, now) == match find(s, source) {
            Some(g) => if g.expires_at > now {
                Some(g)
            } else {
                None
            },
            None => None,
        },
    decreases s.len(),
{
    reveal(Seq::filter);
    if s.len() > 0 {
        let t = s.drop_last();
        let p = |g: GrantView| g.expires_at > now;
        assert forall|i: int, j: int| 0 <= i < j < t.len() implies (#[trigger] t[i]).source
            != (#[trigger] t[j]).source by {
            assert(s[i] == t[i] && s[j] == t[j]);
        }
        live_until_expiry(t, source, now);
        assert(s =~= t.push(s.last()));
        find_after_push(t, s.last(), source);
        find_after_push(t.filter(p), s.last(), source);
        find_is_sound(t, source);
        if find(t, source) is Some && s.last().source == source {
            let k = choose|k: int| 0 <= k < t.len() && t[k] == find(t, source)->0;
            assert(s[k].source != s[s.len() - 1].source);
        }
    }
}

/// A grant is live from the moment it is made until its lease ends, with the
/// values it was made with.
pub proof fn granted_is_live(
    s: Store,
    source: Seq<char>,
    values: vars::Listing,
    ttl_secs: u64,
    allow_all: bool,
    made: u64,
    now: u64,
)
    ensures
        live_grant(granted(s, source, values, ttl_secs, allow_all, made), source, now) == if now
            < expiry(made, ttl_secs) {
            Some(GrantView { source, values, expires_at: expiry(made, ttl_secs), allow_all })
        } else {
            None
        },
{
    let g = GrantView { source, values, expires_at: expiry(made, ttl_secs), allow_all };
    let rest = without(unexpired(s, made), source);
    let p = |g: GrantView| g.expires_at > now;
    filter_is_part(unexpired(s, made), |g: GrantView| g.source != source);
    filter_is_part(rest, p);
    reveal(Seq::filter);
    assert(rest.push(g).drop_last() =~= rest);
    find_after_push(rest.filter(p), g, source);
    find_is_sound(rest.filter(p), source);
    if let Some(x) = find(rest.filter(p), source) {
        let k = choose|k: int| 0 <= k < rest.filter(p).len() && rest.filter(p)[k] == x;
        assert(rest.contains(rest.filter(p)[k]));
        let m = choose|m: int| 0 <= m < rest.len() && rest[m] == x;
        assert(rest[m].source != source);
    }
}

/// Granting one source changes nothing for any other.
pub proof fn granting_leaves_others(
    s: Store,
    source: Seq<char>,
    values: vars::Listing,
    ttl_secs: u64,
    allow_all: bool,
    made: u64,
    other: Seq<char>,
    now: u64,
)
    requires
        other != source,
        made <= now,
    ensures
        live_grant(granted(s, source, values, ttl_secs, allow_all, made), other, now)
            == live_grant(s, other, now),
{
    let g = GrantView { source, values, expires_at: expiry(made, ttl_secs), allow_all };
    let old_live = |g: GrantView| g.expires_at > made;
    let elsewhere = |g: GrantView| g.source != source;
    let live = |g: GrantView| g.expires_at > now;
    let rest = without(unexpired(s, made), source);
    filter_twice(s, old_live, elsewhere);
    let both = |g: GrantView| old_live(g) && elsewhere(g);
    filter_twice(s, both, live);
    let all = |g: GrantView| both(g) && live(g);
    find_in_filters(s, all, live, other);
    reveal(Seq::filter);
    assert(rest.push(g).drop_last() =~= rest);
    find_after_push(rest.filter(live), g, other);
}

/// A source that is cleared has no grant, and no other source loses its own.
pub proof fn clearing_drops_the_source(s: Store, source: Seq<char>, other: Seq<char>, now: u64)
    ensures
        find(cleared(s, Some(source)), source) is None,
        live_grant(cleared(s, Some(source)), source, now) is None,
        other != source ==> live_grant(cleared(s, Some(source)), other, now) == live_grant(
            s,
            other,
            now,
        ),
{
    let elsewhere = |g: GrantView| g.source != source;
    let live = |g: GrantView| g.expires_at > now;
    let rest = cleared(s, Some(source));
    filter_is_part(s, elsewhere);
    find_is_sound(rest, source);
    if let Some(g) = find(rest, source) {
        let k = choose|k: int| 0 <= k < rest.len() && rest[k] == g;
        assert(rest[k].source != source);
    }
    live_is_sound(rest, source, now);
    if let Some(g) = live_grant(rest, source, now) {
        let k = choose|k: int| 0 <= k < rest.len() && rest[k] == g;
        assert(rest[k].source != source);
    }
    filter_twice(s, elsewhere, live);
    let both = |g: GrantView| elsewhere(g) && live(g);
    if other != source {
        find_in_filters(s, both, live, other);
    }
}

/// After everything is cleared no source has a grant.
pub proof fn clearing_all_drops_every_source(s: Store, source: Seq<char>, now: u64)
    ensures
        live_grant(cleared(s, None), source, now) is None,
{
    reveal(Seq::filter);
    assert(unexpired(Seq::empty(), now) =~= Seq::empty());
}

proof fn relaxed_finds(s: Store, source: Seq<char>, end: nat, other: Seq<char>)
    ensures
        find(relaxed(s, source, end), other) == match find(s, other) {
            Some(g) => if other == source {
                Some(GrantView { allow_all: true, expires_at: end, ..g })
            } else {
                Some(g)
            },
            None => None,
        },
        relaxed(s, source, end).len() == s.len(),
        forall|i: int|
            0 <= i < s.len() ==> (#[trigger] relaxed(s, source, end)[i]).source == s[i].source
                && relaxed(s, source, end)[i].values == s[i].values && (relaxed(
                s,
                source,
                end,
            )[i] == s[i] || (relaxed(s, source, end)[i].expires_at == end && relaxed(
                s,
                source,
                end,
            )[i].allow_all && s[i].source == source)),
    decreases s.len(),
{
    if s.len() > 0 {
        let r = relaxed(s, source, end);
        if s[0].source == source {
            assert(r.drop_first() =~= s.drop_first());
            assert forall|i: int| 0 <= i < s.len() implies (#[trigger] r[i]).source == s[i].source
                && r[i].values == s[i].values && (r[i] == s[i] || (r[i].expires_at == end
                && r[i].allow_all && s[i].source == source)) by {
                if i > 0 {
                    assert(r[i] == s.drop_first()[i - 1]);
                }
            }
        } else {
            let t = relaxed(s.drop_first(), source, end);
            relaxed_finds(s.drop_first(), source, end, other);
            assert(r.drop_first() =~= t);
            assert forall|i: int| 0 <= i < s.len() implies (#[trigger] r[i]).source == s[i].source
                && r[i].values == s[i].values && (r[i] == s[i] || (r[i].expires_at == end
                && r[i].allow_all && s[i].source == source)) by {
                if i > 0 {
                    assert(r[i] == t[i - 1]);
                    assert(s.drop_first()[i - 1] == s[i]);
                }
            }
        }
    }
}

/// Upgrading a live grant leaves it its values, in allow-all mode and with a
/// fresh lease; a source without a live grant gets none.
pub proof fn upgrading_keeps_values(
    s: Store,
    source: Seq<char>,
    ttl_secs: u64,
    made: u64,
    now: u64,
)
    requires
        one_per_source(s),
        made <= now,
    ensures
        live_grant(upgraded(s, source, ttl_secs, made), source, now) == match live_grant(
            s,
            source,
            made,
        ) {
            Some(g) => if now < expiry(made, ttl_secs) {
                Some(GrantView { allow_all: true, expires_at: expiry(made, ttl_secs), ..g })
            } else {
                None
            },
            None => None,
        },
{
    filter_is_part(s, |g: GrantView| g.expires_at > made);
    store_stays_sound(s, source, Seq::empty(), ttl_secs, true, made);
    relaxed_finds(unexpired(s, made), source, expiry(made, ttl_secs), source);
    live_until_expiry(upgraded(s, source, ttl_secs, made), source, now);
}

/// Upgrading one source changes nothing for any other.
pub proof fn upgrading_leaves_others(
    s: Store,
    source: Seq<char>,
    ttl_secs: u64,
    made: u64,
    other: Seq<char>,
    now: u64,
)
    requires
        one_per_source(s),
        other != source,
        made <= now,
    ensures
        live_grant(upgraded(s, source, ttl_secs, made), other, now) == live_grant(s, other, now),
{
    store_stays_sound(s, source, Seq::empty(), ttl_secs, true, made);
    relaxed_finds(unexpired(s, made), source, expiry(made, ttl_secs), other);
    live_until_expiry(upgraded(s, source, ttl_secs, made), other, now);
    live_until_expiry(s, other, made);
    live_until_expiry(s, other, now);
}

/// Every operation leaves each source with at most one grant.
pub proof fn store_stays_sound(
    s: Store,
    source: Seq<char>,
    values: vars::Listing,
    ttl_secs: u64,
    allow_all: bool,
    now: u64,
)
    requires
        one_per_source(s),
    ensures
        one_per_source(unexpired(s, now)),
        one_per_source(granted(s, source, values, ttl_secs, allow_all, now)),
        one_per_source(upgraded(s, source, ttl_secs, now)),
        one_per_source(cleared(s, Some(source))),
        one_per_source(cleared(s, None)),
{
    let rest = unexpired(s, now);
    filter_is_part(s, |g: GrantView| g.expires_at > now);
    filter_is_part(rest, |g: GrantView| g.source != source);
    filter_is_part(s, |g: GrantView| g.source != source);
    let g = granted(s, source, values, ttl_secs, allow_all, now);
    let w = without(rest, source);
    assert forall|i: int, j: int| 0 <= i < j < g.len() implies (#[trigger] g[i]).source
        != (#[trigger] g[j]).source by {
        assert(g[i] == w[i]);
        if j < w.len() {
            assert(g[j] == w[j]);
        }
    }
    relaxed_finds(rest, source, expiry(now, ttl_secs), source);
    let u = upgraded(s, source, ttl_secs, now);
    assert forall|i: int, j: int| 0 <= i < j < u.len() implies (#[trigger] u[i]).source
        != (#[trigger] u[j]).source by {
        assert(u[i].source == rest[i].source && u[j].source == rest[j].source);
    }
}

/// Every operation with a lease of at most `max_secs` leaves no lease that
/// ends later than `max_secs` after the operation.
pub proof fn leases_stay_bounded(
    s: Store,
    source: Seq<char>,
    values: vars::Listing,
    ttl_secs: u64,
    allow_all: bool,
    max_secs: u64,
    last: u64,
    now: u64,
)
    requires
        leases_end_by(s, expiry(last, max_secs)),
        ttl_secs <= max_secs,
        last <= now,
    ensures
        leases_end_by(unexpired(s, now), expiry(now, max_secs)),
        leases_end_by(
            granted(s, source, values, ttl_secs, allow_all, now),
            expiry(now, max_secs),
        ),
        leases_end_by(upgraded(s, source, ttl_secs, now), expiry(now, max_secs)),
        leases_end_by(cleared(s, Some(source)), expiry(now, max_secs)),
        leases_end_by(cleared(s, None), expiry(now, max_secs)),
{
    let end = expiry(now, max_secs);
    assert(leases_end_by(s, end));
    assert(expiry(now, ttl_secs) <= end);
    let rest = unexpired(s, now);
    filter_is_part(s, |g: GrantView| g.expires_at > now);
    filter_is_part(rest, |g: GrantView| g.source != source);
    filter_is_part(s, |g: GrantView| g.source != source);
    assert(leases_end_by(rest, end));
    let w = without(rest, source);
    assert(leases_end_by(w, end));
    let g = granted(s, source, values, ttl_secs, allow_all, now);
    assert forall|i: int| 0 <= i < g.len() implies (#[trigger] g[i]).expires_at <= end by {
        if i < w.len() {
            assert(g[i] == w[i]);
        }
    }
    relaxed_finds(rest, source, expiry(now, ttl_secs), source);
    let u = upgraded(s, source, ttl_secs, now);
    assert forall|i: int| 0 <= i < u.len() implies (#[trigger] u[i]).expires_at <= end by {
        assert(u[i] == rest[i] || u[i].expires_at == expiry(now, ttl_secs));
    }
}

/// What a store shows depends on its sources, names and leases alone: two
/// stores that differ only in the values behind the names show the same.
pub proof fn summaries_hide_values(s: Store, t: Store, now: u64)
    requires
        s.len() == t.len(),
        forall|i: int|
            0 <= i < s.len() ==> {
                let a = #[trigger] s[i];
                let b = t[i];
                a.source == b.source && vars::names_of(a.values) == vars::names_of(b.values)
                    && a.expires_at == b.expires_at && a.allow_all == b.allow_all
            },
    ensures
        summaries(s, now) == summaries(t, now),
    decreases s.len(),
{
    reveal(Seq::filter);
    let p = |g: GrantView| g.expires_at > now;
    let f = |g: GrantView| summary(g, now);
    if s.len() > 0 {
        let a = s.drop_last();
        let b = t.drop_last();
        assert forall|i: int| 0 <= i < a.len() implies {
            let x = #[trigger] a[i];
            let y = b[i];
            x.source == y.source && vars::names_of(x.values) == vars::names_of(y.values)
                && x.expires_at == y.expires_at && x.allow_all == y.allow_all
        } by {
            assert(s[i] == a[i] && t[i] == b[i]);
        }
        summaries_hide_values(a, b, now);
        let last = s[s.len() - 1];
        assert(last.source == t.last().source);
        if p(s.last()) {
            assert(summaries(s, now) =~= summaries(a, now).push(summary(s.last(), now)));
            assert(summaries(t, now) =~= summaries(b, now).push(summary(t.last(), now)));
        }
    } else {
        assert(summaries(s, now) =~= summaries(t, now));
    }
}

/// A found grant that is kept is still the one that is found.
proof fn find_survives_filter(s: Store, a: spec_fn(GrantView) -> bool, source: Seq<char>)
    requires
        find(s, source) matches Some(g) && a(g),
    ensures
        find(s.filter(a), source) == find(s, source),
    decreases s.len(),
{
    reveal(Seq::filter);
    let t = s.drop_last();
    assert(s =~= t.push(s.last()));
    find_after_push(t, s.last(), source);
    find_after_push(t.filter(a), s.last(), source);
    if find(t, source) is Some {
        find_survives_filter(t, a, source);
    } else {
        find_is_sound(t, source);
        filter_is_part(t, a);
        find_is_sound(t.filter(a), source);
        if let Some(g) = find(t.filter(a), source) {
            let f = t.filter(a);
            let k = choose|k: int| 0 <= k < f.len() && f[k] == g;
            assert(t.contains(f[k]));
            let m = choose|m: int| 0 <= m < t.len() && t[m] == g;
            assert(t[m].source != source);
        }
    }
}

/// A grant whose lease runs at `now` is found after every operation up to then
/// that is not on its source.
pub proof fn running_grants_stay(
    s: Store,
    source: Seq<char>,
    values: vars::Listing,
    ttl_secs: u64,
    allow_all: bool,
    made: u64,
    other: Seq<char>,
    now: u64,
)
    requires
        made <= now,
        find(s, other) matches Some(g) && g.expires_at > now,
    ensures
        find(unexpired(s, made), other) == find(s, other),
        other != source ==> find(granted(s, source, values, ttl_secs, allow_all, made), other)
            == find(s, other),
        other != source ==> find(upgraded(s, source, ttl_secs, made), other) == find(s, other),
{
    let rest = unexpired(s, made);
    let w = without(rest, source);
    find_survives_filter(s, |g: GrantView| g.expires_at > made, other);
    find_is_sound(s, other);
    if other != source {
        find_survives_filter(rest, |g: GrantView| g.source != source, other);
        find_after_push(
            w,
            GrantView { source, values, expires_at: expiry(made, ttl_secs), allow_all },
            other,
        );
        relaxed_finds(rest, source, expiry(made, ttl_secs), other);
    }
}

/// A grant that was just made, or just upgraded where it was live, is found in
/// the store with its fresh lease.
pub proof fn fresh_grants_are_found(
    s: Store,
    source: Seq<char>,
    values: vars::Listing,
    ttl_secs: u64,
    allow_all: bool,
    made: u64,
)
    ensures
        find(granted(s, source, values, ttl_secs, allow_all, made), source) == Some(
            GrantView { source, values, expires_at: expiry(made, ttl_secs), allow_all },
        ),
        find(upgraded(s, source, ttl_secs, made), source) == match live_grant(s, source, made) {
            Some(g) => Some(GrantView { allow_all: true, expires_at: expiry(made, ttl_secs), ..g }),
            None => None,
        },
{
    let rest = unexpired(s, made);
    let w = without(rest, source);
    clearing_drops_the_source(rest, source, source, made);
    find_after_push(
        w,
        GrantView { source, values, expires_at: expiry(made, ttl_secs), allow_all },
        source,
    );
    relaxed_finds(rest, source, expiry(made, ttl_secs), source);
}

/// A found grant whose lease runs is live.
pub proof fn running_grants_are_live(s: Store, source: Seq<char>, now: u64)
    requires
        find(s, source) matches Some(g) && g.expires_at > now,
    ensures
        live_grant(s, source, now) == find(s, source),
{
    find_survives_filter(s, |g: GrantView| g.expires_at > now, source);
}

/// What is left when the expired grants are dropped was there before.
pub proof fn part_of_the_old(s: Store, g: GrantView, now: u64)
    ensures
        unexpired(s, now).contains(g) ==> s.contains(g),
{
    let r = unexpired(s, now);
    filter_is_part(s, |g: GrantView| g.expires_at > now);
    if r.contains(g) {
        let k = choose|k: int| 0 <= k < r.len() && r[k] == g;
        assert(s.contains(r[k]));
    }
}

/// What is left when sources are cleared was there before.
pub proof fn cleared_is_part(s: Store, source: Option<Seq<char>>, g: GrantView)
    ensures
        cleared(s, source).contains(g) ==> s.contains(g),
{
    if let Some(p) = source {
        let r = without(s, p);
        filter_is_part(s, |g: GrantView| g.source != p);
        if r.contains(g) {
            let k = choose|k: int| 0 <= k < r.len() && r[k] == g;
            assert(s.contains(r[k]));
        }
    }
}

/// Granting adds the new grant and no other.
pub proof fn granted_adds_one(
    s: Store,
    source: Seq<char>,
    values: vars::Listing,
    ttl_secs: u64,
    allow_all: bool,
    now: u64,
    g: GrantView,
)
    ensures
        granted(s, source, values, ttl_secs, allow_all, now).contains(g) ==> s.contains(g) || g
            == (GrantView { source, values, expires_at: expiry(now, ttl_secs), allow_all }),
{
    let rest = unexpired(s, now);
    let w = without(rest, source);
    let r = granted(s, source, values, ttl_secs, allow_all, now);
    if r.contains(g) {
        let k = choose|k: int| 0 <= k < r.len() && r[k] == g;
        if k < w.len() {
            assert(w[k] == g);
            assert(w.contains(g));
            cleared_is_part(rest, Some(source), g);
            part_of_the_old(s, g, now);
        }
    }
}

/// Upgrading changes a grant of the source, which keeps its values, and no
/// other.
pub proof fn upgraded_changes_one(
    s: Store,
    source: Seq<char>,
    ttl_secs: u64,
    now: u64,
    g: GrantView,
)
    ensures
        upgraded(s, source, ttl_secs, now).contains(g) ==> s.contains(g) || (g.source == source
            && g.allow_all && g.expires_at == now + ttl_secs * 1_000_000_000
            && exists|x: GrantView| #[trigger]
            s.contains(x) && x.source == g.source && x.values == g.values),
{
    let rest = unexpired(s, now);
    let u = upgraded(s, source, ttl_secs, now);
    relaxed_finds(rest, source, expiry(now, ttl_secs), source);
    if u.contains(g) {
        let k = choose|k: int| 0 <= k < u.len() && u[k] == g;
        assert(u[k].source == rest[k].source);
        assert(rest.contains(rest[k]));
        part_of_the_old(s, rest[k], now);
        assert(s.contains(rest[k]));
    }
}

proof fn filter_contains(s: Store, keep: spec_fn(GrantView) -> bool, g: GrantView)
    ensures
        s.filter(keep).contains(g) <==> s.contains(g) && keep(g),
    decreases s.len(),
{
    reveal(Seq::filter);
    filter_is_part(s, keep);
    let f = s.filter(keep);
    if f.contains(g) {
        let k = choose|k: int| 0 <= k < f.len() && f[k] == g;
        assert(s.contains(f[k]) && keep(f[k]));
    }
    if s.contains(g) && keep(g) {
        let t = s.drop_last();
        let k = choose|k: int| 0 <= k < s.len() && s[k] == g;
        filter_contains(t, keep, g);
        if k < t.len() {
            assert(t[k] == g);
            let m = choose|m: int| 0 <= m < t.filter(keep).len() && t.filter(keep)[m] == g;
            assert(f[m] == g);
        } else {
            assert(f.last() == g);
        }
    }
}

/// What is left when the expired grants are dropped are those whose lease still
/// runs, all of them.
pub proof fn the_running_grants_are_kept(s: Store, now: u64, g: GrantView)
    ensures
        unexpired(s, now).contains(g) <==> s.contains(g) && g.expires_at > now,
{
    filter_contains(s, |g: GrantView| g.expires_at > now, g);
}

/// What is left when a source is cleared are the grants of the others, all of
/// them.
pub proof fn the_other_grants_are_kept(s: Store, source: Seq<char>, g: GrantView)
    ensures
        cleared(s, Some(source)).contains(g) <==> s.contains(g) && g.source != source,
{
    filter_contains(s, |g: GrantView| g.source != source, g);
}

/// Where no source has two grants, the one that a store holds is the one that is
/// found.
pub proof fn the_only_grant_is_found(s: Store, g: GrantView)
    requires
        one_per_source(s),
        s.contains(g),
    ensures
        find(s, g.source) == Some(g),
{
    find_is_sound(s, g.source);
    let k = choose|k: int| 0 <= k < s.len() && s[k] == g;
    match find(s, g.source) {
        Some(x) => {
            let m = choose|m: int| 0 <= m < s.len() && s[m] == x;
            if m < k {
                assert(s[m].source != s[k].source);
            } else if k < m {
                assert(s[k].source != s[m].source);
            }
        },
        None => {
            assert(s[k].source != g.source);
        },
    }
}

/// A grant is live as long as its lease runs, and a source is without a live
/// grant only where none of its grants runs.
pub proof fn live_means_running(s: Store, source: Seq<char>, now: u64)
    requires
        one_per_source(s),
    ensures
        match live_grant(s, source, now) {
            Some(g) => s.contains(g) && g.source == source && g.expires_at > now,
            None => forall|g: GrantView| #[trigger]
                s.contains(g) && g.source == source ==> g.expires_at <= now,
        },
        forall|g: GrantView| #[trigger]
            s.contains(g) && g.source == source && g.expires_at > now ==> live_grant(
                s,
                source,
                now,
            ) == Some(g),
{
    live_is_sound(s, source, now);
    live_until_expiry(s, source, now);
    assert forall|g: GrantView| #[trigger]
        s.contains(g) && g.source == source && g.expires_at > now implies live_grant(
        s,
        source,
        now,
    ) == Some(g) by {
        the_only_grant_is_found(s, g);
    }
}

/// Granting leaves one grant of the source, the new one, which ends `ttl_secs`
/// seconds after it was made; of the others it leaves those that still run.
pub proof fn granting_replaces(
    s: Store,
    source: Seq<char>,
    values: vars::Listing,
    ttl_secs: u64,
    allow_all: bool,
    now: u64,
    g: GrantView,
)
    ensures
        granted(s, source, values, ttl_secs, allow_all, now).contains(g) <==> if g.source
            == source {
            g.values == values && g.allow_all == allow_all && g.expires_at == now + ttl_secs
                * 1_000_000_000
        } else {
            s.contains(g) && g.expires_at > now
        },
{
    let rest = unexpired(s, now);
    let w = without(rest, source);
    let fresh = GrantView { source, values, expires_at: expiry(now, ttl_secs), allow_all };
    let r = w.push(fresh);
    the_running_grants_are_kept(s, now, g);
    the_other_grants_are_kept(rest, source, g);
    if r.contains(g) {
        let k = choose|k: int| 0 <= k < r.len() && r[k] == g;
        if k < w.len() {
            assert(w[k] == g);
        }
    }
    if w.contains(g) {
        let k = choose|k: int| 0 <= k < w.len() && w[k] == g;
        assert(r[k] == g);
    }
    assert(r[w.len() as int] == fresh);
}

/// Upgrading turns the running grant of the source allow-all, with its values,
/// to end `ttl_secs` seconds from now; of the others it leaves those that still
/// run.
pub proof fn upgrading_turns(s: Store, source: Seq<char>, ttl_secs: u64, now: u64, g: GrantView)
    requires
        one_per_source(s),
    ensures
        upgraded(s, source, ttl_secs, now).contains(g) <==> if g.source == source {
            g.allow_all && g.expires_at == now + ttl_secs * 1_000_000_000 && exists|x: GrantView|
                {
                    &&& #[trigger] s.contains(x)
                    &&& x.source == source
                    &&& x.values == g.values
                    &&& x.expires_at > now
                }
        } else {
            s.contains(g) && g.expires_at > now
        },
{
    let rest = unexpired(s, now);
    let end = expiry(now, ttl_secs);
    let u = relaxed(rest, source, end);
    store_stays_sound(s, source, Seq::empty(), ttl_secs, true, now);
    relaxed_finds(rest, source, end, g.source);
    the_running_grants_are_kept(s, now, g);
    find_is_sound(rest, source);
    if u.contains(g) {
        the_only_grant_is_found(u, g);
        let k = choose|k: int| 0 <= k < u.len() && u[k] == g;
        assert(u[k].source == rest[k].source);
        assert(rest.contains(rest[k]));
        the_running_grants_are_kept(s, now, rest[k]);
        assert(s.contains(rest[k]));
    }
    if g.source == source {
        if exists|x: GrantView|
            {
                &&& #[trigger] s.contains(x)
                &&& x.source == source
                &&& x.values == g.values
                &&& x.expires_at > now
            } {
            let x = choose|x: GrantView|
                {
                    &&& #[trigger] s.contains(x)
                    &&& x.source == source
                    &&& x.values == g.values
                    &&& x.expires_at > now
                };
            the_running_grants_are_kept(s, now, x);
            the_only_grant_is_found(rest, x);
            find_is_sound(u, source);
        }
    } else if s.contains(g) && g.expires_at > now {
        the_only_grant_is_found(rest, g);
        find_is_sound(u, g.source);
    }
}

/// The grants of `part` are among those of `s`, in the same order: the index of
/// each in `s` ascends.
pub open spec fn picks(s: Store, part: Store, index: Seq<int>) -> bool {
    &&& index.len() == part.len()
    &&& forall|i: int, j: int| 0 <= i < j < index.len() ==> #[trigger] index[i] < #[trigger] index[j]
    &&& forall|i: int|
        0 <= i < index.len() ==> 0 <= #[trigger] index[i] < s.len() && part[i] == s[index[i]]
}

proof fn filter_keeps_order(s: Store, keep: spec_fn(GrantView) -> bool)
    ensures
        exists|index: Seq<int>| #[trigger] picks(s, s.filter(keep), index),
    decreases s.len(),
{
    reveal(Seq::filter);
    let all = s.filter(keep);
    if s.len() == 0 {
        let none: Seq<int> = Seq::empty();
        assert(picks(s, all, none));
    } else {
        let t = s.drop_last();
        let last = s.len() - 1;
        filter_keeps_order(t, keep);
        let before = choose|index: Seq<int>| #[trigger] picks(t, t.filter(keep), index);
        assert forall|i: int| 0 <= i < before.len() implies s[#[trigger] before[i]]
            == t[before[i]] by {}
        if keep(s.last()) {
            let index = before.push(last);
            assert forall|i: int| 0 <= i < index.len() implies 0 <= #[trigger] index[i] < s.len()
                && all[i] == s[index[i]] by {
                if i < before.len() {
                    assert(index[i] == before[i]);
                }
            }
            assert forall|i: int, j: int| 0 <= i < j < index.len() implies #[trigger] index[i]
                < #[trigger] index[j] by {
                assert(index[i] == before[i]);
                if j < before.len() {
                    assert(index[j] == before[j]);
                }
            }
            assert(picks(s, all, index));
        } else {
            assert(picks(s, all, before));
        }
    }
}

/// Grants stay in the order in which they were made: what is dropped leaves the
/// others in their order, and a new grant comes last.
pub proof fn grants_stay_in_order(
    s: Store,
    source: Seq<char>,
    values: vars::Listing,
    ttl_secs: u64,
    allow_all: bool,
    now: u64,
)
    ensures
        exists|index: Seq<int>| #[trigger] picks(s, unexpired(s, now), index),
        exists|index: Seq<int>| #[trigger] picks(s, cleared(s, Some(source)), index),
        granted(s, source, values, ttl_secs, allow_all, now).last().source == source,
        exists|index: Seq<int>| #[trigger]
            picks(s, granted(s, source, values, ttl_secs, allow_all, now).drop_last(), index),
{
    let live = |g: GrantView| g.expires_at > now;
    let elsewhere = |g: GrantView| g.source != source;
    let both = |g: GrantView| live(g) && elsewhere(g);
    filter_keeps_order(s, live);
    filter_keeps_order(s, elsewhere);
    filter_keeps_order(s, both);
    filter_twice(s, live, elsewhere);
    let r = granted(s, source, values, ttl_secs, allow_all, now);
    assert(r.drop_last() =~= s.filter(both));
    assert(cleared(s, Some(source)) == s.filter(elsewhere));
    let index = choose|index: Seq<int>| #[trigger] picks(s, s.filter(elsewhere), index);
    assert(picks(s, cleared(s, Some(source)), index));
}

/// Upgrading leaves the running grants in their order.
pub proof fn upgrading_keeps_the_order(s: Store, source: Seq<char>, ttl_secs: u64, now: u64)
    ensures
        upgraded(s, source, ttl_secs, now).len() == unexpired(s, now).len(),
        forall|i: int|
            0 <= i < unexpired(s, now).len() ==> (#[trigger] upgraded(
                s,
                source,
                ttl_secs,
                now,
            )[i]).source == unexpired(s, now)[i].source,
{
    relaxed_finds(unexpired(s, now), source, expiry(now, ttl_secs), source);
}

/// What is shown stands for the running grants, one for one and in their order:
/// the index of each in the store ascends.
pub open spec fn shows(s: Store, now: u64, captures: Seq<CaptureView>, index: Seq<int>) -> bool {
    &&& index.len() == captures.len()
    &&& forall|i: int, j: int| 0 <= i < j < index.len() ==> #[trigger] index[i] < #[trigger] index[j]
    &&& forall|i: int|
        0 <= i < index.len() ==> {
            &&& 0 <= #[trigger] index[i] < s.len()
            &&& s[index[i]].expires_at > now
            &&& captures[i].source == s[index[i]].source
            &&& captures[i].names.len() == s[index[i]].values.len()
            &&& forall|k: int|
                0 <= k < captures[i].names.len() ==> (#[trigger] captures[i].names[k])
                    == s[index[i]].values[k].0
            &&& captures[i].allow_all == s[index[i]].allow_all
            &&& (s[index[i]].expires_at - now) / 1_000_000_000 <= u64::MAX
                ==> captures[i].expires_in_secs == (s[index[i]].expires_at - now)
                / 1_000_000_000
        }
    &&& forall|k: int|
        0 <= k < s.len() && (#[trigger] s[k]).expires_at > now ==> index.contains(k)
}

/// Every running grant is shown, with its source, all its names, its mode and
/// the whole seconds that are left of its lease, and nothing else is.
pub proof fn every_running_grant_is_shown(s: Store, now: u64)
    ensures
        exists|index: Seq<int>| #[trigger] shows(s, now, summaries(s, now), index),
    decreases s.len(),
{
    reveal(Seq::filter);
    let keep = |g: GrantView| g.expires_at > now;
    let all = summaries(s, now);
    if s.len() == 0 {
        let none: Seq<int> = Seq::empty();
        assert(shows(s, now, all, none));
    } else {
        let t = s.drop_last();
        every_running_grant_is_shown(t, now);
        let before = choose|index: Seq<int>| #[trigger] shows(t, now, summaries(t, now), index);
        if keep(s.last()) {
            let last = s.len() - 1;
            let index = before.push(last);
            assert(all =~= summaries(t, now).push(summary(s.last(), now)));
            assert forall|i: int| 0 <= i < index.len() implies {
                &&& 0 <= #[trigger] index[i] < s.len()
                &&& s[index[i]].expires_at > now
                &&& all[i].source == s[index[i]].source
                &&& all[i].names.len() == s[index[i]].values.len()
                &&& forall|k: int|
                    0 <= k < all[i].names.len() ==> (#[trigger] all[i].names[k])
                        == s[index[i]].values[k].0
                &&& all[i].allow_all == s[index[i]].allow_all
                &&& (s[index[i]].expires_at - now) / 1_000_000_000 <= u64::MAX
                    ==> all[i].expires_in_secs == (s[index[i]].expires_at - now) / 1_000_000_000
            } by {
                if i < before.len() {
                    assert(index[i] == before[i]);
                    assert(t[before[i]] == s[before[i]]);
                    assert(all[i] == summaries(t, now)[i]);
                } else {
                    assert(all[i] == summary(s[last], now));
                }
            }
            assert forall|i: int, j: int| 0 <= i < j < index.len() implies #[trigger] index[i]
                < #[trigger] index[j] by {
                assert(index[i] == before[i]);
                if j < before.len() {
                    assert(index[j] == before[j]);
                }
            }
            assert forall|k: int|
                0 <= k < s.len() && (#[trigger] s[k]).expires_at > now implies index.contains(k) by {
                if k < last {
                    assert(t[k] == s[k]);
                    assert(before.contains(k));
                    let i = choose|i: int| 0 <= i < before.len() && before[i] == k;
                    assert(index[i] == k);
                } else {
                    assert(index[before.len() as int] == k);
                }
            }
            assert(shows(s, now, all, index));
        } else {
            assert(all == summaries(t, now));
            assert forall|i: int| 0 <= i < before.len() implies s[#[trigger] before[i]]
                == t[before[i]] by {}
            assert forall|k: int|
                0 <= k < s.len() && (#[trigger] s[k]).expires_at > now implies before.contains(
                k,
            ) by {
                assert(t[k] == s[k]);
            }
            assert(shows(s, now, all, before));
        }
    }
}

impl Default for State {
    /// No grants.
    fn default() -> (r: State)
        ensures
            r@ == Seq::<GrantView>::empty(),
    {
        let r = State { grants: Vec::new() };
        assert(r@ =~= Seq::empty());
        r
    }
}

/// Which grants are kept.
enum Rule<'a> {
    /// Those whose lease has not ended.
    Unexpired { now: u64 },
    /// Those of every other source.
    Without { source: &'a str },
}

spec fn keeps(rule: Rule, g: GrantView) -> bool {
    match rule {
        Rule::Unexpired { now } => g.expires_at > now,
        Rule::Without { source } => g.source != source@,
    }
}

impl<'a> Rule<'a> {
    /// Whether `g` is kept.
    fn keeps(&self, g: &Grant) -> (r: bool)
        ensures
            r == keeps(*self, g@),
    {
        match self {
            Rule::Unexpired { now } => g.expires_at > *now as u128,
            Rule::Without { source } => !text::same(g.source.as_str(), source),
        }
    }
}

impl State {
    /// Keep the grants that `rule` keeps.
    fn retain(&mut self, rule: &Rule)
        ensures
            final(self)@ == old(self)@.filter(|g: GrantView| keeps(*rule, g)),
    {
        let ghost s: Store = self@;
        let ghost keep = |g: GrantView| keeps(*rule, g);
        let ghost mut k: int = 0;
        let mut i: usize = 0;
        proof {
            reveal(Seq::filter);
            assert(s.take(0).filter(keep) + s.skip(0) =~= s);
        }
        while i < self.grants.len()
            invariant
                0 <= k <= s.len(),
                i <= self.grants@.len(),
                keep == (|g: GrantView| keeps(*rule, g)),
                s.take(k).filter(keep).len() == i,
                self@ == s.take(k).filter(keep) + s.skip(k),
            decreases self.grants@.len() - i,
        {
            let ghost before: Store = self@;
            proof {
                reveal(Seq::filter);
                assert(s.take(k + 1).drop_last() =~= s.take(k));
                assert(before[i as int] == s.skip(k)[0]);
            }
            if rule.keeps(&self.grants[i]) {
                proof {
                    assert(s.take(k + 1).filter(keep) + s.skip(k + 1) =~= before);
                }
                i = i + 1;
            } else {
                let _gone: Grant = self.grants.remove(i);
                proof {
                    assert(self@ =~= before.remove(i as int));
                    assert(before.remove(i as int) =~= s.take(k + 1).filter(keep) + s.skip(k + 1));
                }
            }
            proof {
                k = k + 1;
            }
        }
        proof {
            assert(s.skip(k).len() == 0);
            assert(s.take(k) =~= s);
            assert(self@ =~= s.filter(keep));
        }
    }

    /// Drop any grants whose lease has ended.
    fn purge_expired(&mut self, now: u64)
        ensures
            final(self)@ == unexpired(old(self)@, now),
    {
        let rule = Rule::Unexpired { now };
        self.retain(&rule);
        assert((|g: GrantView| keeps(rule, g)) =~= (|g: GrantView| g.expires_at > now));
    }

    /// Drop the grant of `source`.
    fn forget(&mut self, source: &str)
        ensures
            final(self)@ == without(old(self)@, source@),
    {
        let rule = Rule::Without { source };
        self.retain(&rule);
        assert((|g: GrantView| keeps(rule, g)) =~= (|g: GrantView| g.source != source@));
    }

    /// The index of the grant of `source`, or the number of grants.
    fn position(&self, source: &str) -> (r: usize)
        ensures
            r <= self.grants@.len(),
            match find(self@, source@) {
                Some(g) => r < self.grants@.len() && self@[r as int] == g,
                None => r == self.grants@.len(),
            },
            forall|end: nat|
                #[trigger] relaxed(self@, source@, end) == if r < self.grants@.len() {
                    self@.update(
                        r as int,
                        GrantView { allow_all: true, expires_at: end, ..self@[r as int] },
                    )
                } else {
                    self@
                },
    {
        let mut i: usize = 0;
        assert(self@.skip(0) =~= self@);
        while i < self.grants.len() && !text::same(self.grants[i].source.as_str(), source)
            invariant
                i <= self.grants@.len(),
                find(self@.skip(i as int), source@) == find(self@, source@),
                forall|end: nat| #[trigger]
                    relaxed(self@, source@, end) == self@.take(i as int) + relaxed(
                        self@.skip(i as int),
                        source@,
                        end,
                    ),
            decreases self.grants@.len() - i,
        {
            proof {
                let t = self@.skip(i as int);
                assert(t[0] == self@[i as int]);
                assert(t.drop_first() =~= self@.skip(i + 1));
                assert forall|end: nat| #[trigger]
                    relaxed(self@, source@, end) == self@.take(i + 1) + relaxed(
                        self@.skip(i + 1),
                        source@,
                        end,
                    ) by {
                    assert(self@.take(i as int) + relaxed(t, source@, end) =~= self@.take(i + 1)
                        + relaxed(self@.skip(i + 1), source@, end));
                }
            }
            i = i + 1;
        }
        proof {
            let t = self@.skip(i as int);
            assert forall|end: nat| #[trigger] relaxed(self@, source@, end) == if i
                < self.grants@.len() {
                self@.update(
                    i as int,
                    GrantView { allow_all: true, expires_at: end, ..self@[i as int] },
                )
            } else {
                self@
            } by {
                if i < self.grants@.len() {
                    assert(t[0] == self@[i as int]);
                    assert(self@.take(i as int) + relaxed(t, source@, end) =~= self@.update(
                        i as int,
                        GrantView { allow_all: true, expires_at: end, ..self@[i as int] },
                    ));
                } else {
                    assert(self@.take(i as int) + relaxed(t, source@, end) =~= self@);
                }
            }
        }
        i
    }

    /// Insert (or replace) the grant for `source`, expiring `ttl_secs` after
    /// `now`.
    pub fn add(&mut self, source: String, values: Vars, ttl_secs: u64, allow_all: bool, now: u64)
        ensures
            final(self)@ == granted(old(self)@, source@, values@, ttl_secs, allow_all, now),
    {
        self.purge_expired(now);
        self.forget(source.as_str());
        let ghost rest: Store = self@;
        let grant = Grant {
            source,
            values,
            expires_at: now as u128 + ttl_secs as u128 * NANOS_PER_SEC,
            allow_all,
        };
        self.grants.push(grant);
        assert(self@ =~= rest.push(grant@));
    }

    /// Upgrade a live grant to allow-all and refresh its lease. Returns false if
    /// no live grant exists for `source`.
    pub fn set_allow_all(&mut self, source: &str, ttl_secs: u64, now: u64) -> (r: bool)
        ensures
            final(self)@ == upgraded(old(self)@, source@, ttl_secs, now),
            r == (live_grant(old(self)@, source@, now) is Some),
    {
        self.purge_expired(now);
        let i: usize = self.position(source);
        let end: u128 = now as u128 + ttl_secs as u128 * NANOS_PER_SEC;
        let ghost before: Store = self@;
        assert(relaxed(before, source@, end as nat) == upgraded(
            old(self)@,
            source@,
            ttl_secs,
            now,
        ));
        if i < self.grants.len() {
            self.grants[i].allow_all = true;
            self.grants[i].expires_at = end;
            assert(self@ =~= before.update(
                i as int,
                GrantView { allow_all: true, expires_at: end as nat, ..before[i as int] },
            ));
            true
        } else {
            false
        }
    }

    /// Remove a single source's grant, or all of them when `path` is `None`.
    /// Returns how many grants were removed.
    pub fn clear(&mut self, path: Option<&str>) -> (r: usize)
        ensures
            final(self)@ == cleared(
                old(self)@,
                match path {
                    Some(p) => Some(p@),
                    None => None,
                },
            ),
            r == old(self)@.len() - final(self)@.len(),
    {
        let count: usize = self.grants.len();
        match path {
            Some(p) => {
                proof {
                    self@.lemma_filter_len(|g: GrantView| g.source != p@);
                }
                self.forget(p);
            },
            None => {
                self.grants.clear();
                assert(self@ =~= Seq::empty());
            },
        }
        count - self.grants.len()
    }

    /// Return a still-live grant for `source`, or `None` if it is not granted
    /// (or its lease has ended).
    pub fn live(&mut self, source: &str, now: u64) -> (r: Option<LiveGrant>)
        ensures
            final(self)@ == unexpired(old(self)@, now),
            match live_grant(old(self)@, source@, now) {
                Some(g) => r matches Some(l) && l.allow_all == g.allow_all && text::pairs(l.values@)
                    == g.values,
                None => r is None,
            },
            r matches Some(l) ==> vars::is_sorted(text::pairs(l.values@)),
    {
        self.purge_expired(now);
        let i: usize = self.position(source);
        if i < self.grants.len() {
            let g: &Grant = &self.grants[i];
            Some(LiveGrant { allow_all: g.allow_all, values: g.values.entries() })
        } else {
            None
        }
    }

    /// Snapshot of active grants, safe to hand to the agent (names only).
    pub fn info(&mut self, now: u64) -> (r: Vec<CaptureInfo>)
        ensures
            final(self)@ == unexpired(old(self)@, now),
            proto::captures_of(r@) == summaries(old(self)@, now),
            forall|i: int| 0 <= i < r@.len() ==> vars::ascend((#[trigger] r@[i])@.names),
    {
        self.purge_expired(now);
        let ghost all: Seq<CaptureView> = self@.map_values(|g: GrantView| summary(g, now));
        let mut out: Vec<CaptureInfo> = Vec::new();
        let mut i: usize = 0;
        while i < self.grants.len()
            invariant
                i <= self.grants@.len(),
                all == self@.map_values(|g: GrantView| summary(g, now)),
                proto::captures_of(out@) == all.take(i as int),
                forall|k: int| 0 <= k < out@.len() ==> vars::ascend((#[trigger] out@[k])@.names),
            decreases self.grants@.len() - i,
        {
            let ghost done: Seq<CaptureView> = proto::captures_of(out@);
            let g: &Grant = &self.grants[i];
            let left: u128 = if g.expires_at > now as u128 {
                (g.expires_at - now as u128) / NANOS_PER_SEC
            } else {
                0
            };
            let info = CaptureInfo {
                source: g.source.clone(),
                names: g.values.names(),
                expires_in_secs: if left > u64::MAX as u128 {
                    u64::MAX
                } else {
                    left as u64
                },
                allow_all: g.allow_all,
            };
            proof {
                assert(info@ == summary(self@[i as int], now));
            }
            out.push(info);
            proof {
                assert(proto::captures_of(out@) =~= done.push(info@));
                assert(all.take(i as int + 1) =~= done.push(info@));
            }
            i = i + 1;
        }
        assert(all.take(i as int) =~= all);
        out
    }
}

} // verus!
