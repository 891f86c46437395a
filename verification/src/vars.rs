//! Named values, kept in the order of their names.

use vstd::prelude::*;
use vstd::string::*;

use crate::text;

verus! {

/// A list of names with their values, as a model.
pub type Listing = Seq<(Seq<char>, Seq<char>)>;

/// Whether the names of a listing strictly ascend.
pub open spec fn is_sorted(s: Listing) -> bool {
    forall|i: int, j: int| 0 <= i < j < s.len() ==> text::before((#[trigger] s[i]).0, (#[trigger] s[j]).0)
}

/// Whether names strictly ascend.
pub open spec fn ascend(names: Seq<Seq<char>>) -> bool {
    forall|i: int, j: int|
        0 <= i < j < names.len() ==> text::before(#[trigger] names[i], #[trigger] names[j])
}

/// The entries with a name before `name`.
pub open spec fn below(s: Listing, name: Seq<char>) -> Listing {
    s.filter(|p: (Seq<char>, Seq<char>)| text::before(p.0, name))
}

/// The entries with a name after `name`.
pub open spec fn above(s: Listing, name: Seq<char>) -> Listing {
    s.filter(|p: (Seq<char>, Seq<char>)| text::before(name, p.0))
}

/// The listing where `name` has the value `value` and every other name keeps
/// its own.
pub open spec fn put(s: Listing, name: Seq<char>, value: Seq<char>) -> Listing {
    below(s, name) + seq![(name, value)] + above(s, name)
}

/// The ordered listing of a list of assignments, where a later one wins.
pub open spec fn table(assignments: Listing) -> Listing
    decreases assignments.len(),
{
    if assignments.len() == 0 {
        Seq::empty()
    } else {
        put(table(assignments.drop_last()), assignments.last().0, assignments.last().1)
    }
}

/// The ordered listing of the entries of `s` and of `t`, where those of `t` win.
pub open spec fn overridden(s: Listing, t: Listing) -> Listing {
    table(s + t)
}

/// The value that a listing gives to `name`: that of the last entry of that name.
pub open spec fn lookup(s: Listing, name: Seq<char>) -> Option<Seq<char>>
    decreases s.len(),
{
    if s.len() == 0 {
        None
    } else if s.last().0 == name {
        Some(s.last().1)
    } else {
        lookup(s.drop_last(), name)
    }
}

/// The names of a listing.
pub open spec fn names_of(s: Listing) -> Seq<Seq<char>> {
    s.map_values(|p: (Seq<char>, Seq<char>)| p.0)
}

proof fn filter_keeps_order(s: Listing, keep: spec_fn((Seq<char>, Seq<char>)) -> bool)
    requires
        is_sorted(s),
    ensures
        is_sorted(s.filter(keep)),
        forall|i: int| 0 <= i < s.filter(keep).len() ==> keep(#[trigger] s.filter(keep)[i]),
        forall|i: int|
            0 <= i < s.filter(keep).len() ==> exists|j: int|
                0 <= j < s.len() && s[j] == #[trigger] s.filter(keep)[i],
    decreases s.len(),
{
    reveal(Seq::filter);
    if s.len() > 0 {
        let t = s.drop_last();
        filter_keeps_order(t, keep);
        let f = t.filter(keep);
        assert forall|i: int| 0 <= i < s.filter(keep).len() implies exists|j: int|
            0 <= j < s.len() && s[j] == #[trigger] s.filter(keep)[i] by {
            if i < f.len() {
                let j = choose|j: int| 0 <= j < t.len() && t[j] == f[i];
                assert(s[j] == s.filter(keep)[i]);
            } else {
                assert(s[s.len() - 1] == s.filter(keep)[i]);
            }
        }
        assert forall|i: int, j: int| 0 <= i < j < s.filter(keep).len() implies text::before(
            (#[trigger] s.filter(keep)[i]).0,
            (#[trigger] s.filter(keep)[j]).0,
        ) by {
            if j == f.len() {
                let k = choose|k: int| 0 <= k < t.len() && t[k] == f[i];
                assert(s[k] == f[i] && s[s.len() - 1] == s.filter(keep)[j]);
            } else {
                assert(f[i] == s.filter(keep)[i] && f[j] == s.filter(keep)[j]);
            }
        }
    }
}

/// Setting a name in an ordered listing leaves it ordered.
pub proof fn put_keeps_order(s: Listing, name: Seq<char>, value: Seq<char>)
    requires
        is_sorted(s),
    ensures
        is_sorted(put(s, name, value)),
{
    let lo = below(s, name);
    let hi = above(s, name);
    let p = put(s, name, value);
    filter_keeps_order(s, |p: (Seq<char>, Seq<char>)| text::before(p.0, name));
    filter_keeps_order(s, |p: (Seq<char>, Seq<char>)| text::before(name, p.0));
    assert forall|i: int, j: int| 0 <= i < j < p.len() implies text::before(
        (#[trigger] p[i]).0,
        (#[trigger] p[j]).0,
    ) by {
        let m = lo.len() as int;
        if j < m {
            assert(lo[i] == p[i] && lo[j] == p[j]);
        } else if i > m {
            assert(hi[i - m - 1] == p[i] && hi[j - m - 1] == p[j]);
        } else if i < m && j > m {
            assert(lo[i] == p[i] && hi[j - m - 1] == p[j]);
            text::order_is_transitive(p[i].0, name, p[j].0);
        } else if i == m {
            assert(hi[j - m - 1] == p[j]);
        } else {
            assert(lo[i] == p[i]);
        }
    }
}

/// Setting a name adds its entry and no other.
pub proof fn put_adds_one(s: Listing, name: Seq<char>, value: Seq<char>)
    ensures
        forall|i: int|
            0 <= i < put(s, name, value).len() ==> (#[trigger] put(s, name, value)[i]) == (
                name,
                value,
            ) || s.contains(put(s, name, value)[i]),
{
    let lo = below(s, name);
    let hi = above(s, name);
    let p = put(s, name, value);
    filter_is_part(s, |p: (Seq<char>, Seq<char>)| text::before(p.0, name));
    filter_is_part(s, |p: (Seq<char>, Seq<char>)| text::before(name, p.0));
    assert forall|i: int| 0 <= i < p.len() implies (#[trigger] p[i]) == (name, value)
        || s.contains(p[i]) by {
        if i < lo.len() {
            assert(p[i] == lo[i]);
        } else if i > lo.len() {
            assert(p[i] == hi[i - lo.len() - 1]);
        }
    }
}

proof fn filter_is_part(s: Listing, keep: spec_fn((Seq<char>, Seq<char>)) -> bool)
    ensures
        forall|i: int| 0 <= i < s.filter(keep).len() ==> s.contains(#[trigger] s.filter(keep)[i]),
    decreases s.len(),
{
    reveal(Seq::filter);
    if s.len() > 0 {
        let t = s.drop_last();
        let f = t.filter(keep);
        filter_is_part(t, keep);
        assert forall|i: int| 0 <= i < s.filter(keep).len() implies s.contains(
            #[trigger] s.filter(keep)[i],
        ) by {
            if i < f.len() {
                assert(f[i] == s.filter(keep)[i]);
                assert(t.contains(f[i]));
                let k = choose|k: int| 0 <= k < t.len() && t[k] == f[i];
                assert(s[k] == f[i]);
            } else {
                assert(s[s.len() - 1] == s.filter(keep)[i]);
            }
        }
    }
}

/// The table of any list of assignments is ordered.
pub proof fn table_is_sorted(assignments: Listing)
    ensures
        is_sorted(table(assignments)),
    decreases assignments.len(),
{
    if assignments.len() > 0 {
        table_is_sorted(assignments.drop_last());
        put_keeps_order(
            table(assignments.drop_last()),
            assignments.last().0,
            assignments.last().1,
        );
    }
}

proof fn lookup_in_concat(a: Listing, b: Listing, name: Seq<char>)
    ensures
        lookup(a + b, name) == match lookup(b, name) {
            Some(v) => Some(v),
            None => lookup(a, name),
        },
    decreases b.len(),
{
    if b.len() == 0 {
        assert(a + b =~= a);
    } else {
        assert((a + b).drop_last() =~= a + b.drop_last());
        lookup_in_concat(a, b.drop_last(), name);
    }
}

proof fn lookup_in_filter(
    s: Listing,
    keep: spec_fn((Seq<char>, Seq<char>)) -> bool,
    name: Seq<char>,
)
    requires
        forall|v: Seq<char>, w: Seq<char>| #[trigger] keep((name, v)) == #[trigger] keep((name, w)),
    ensures
        lookup(s.filter(keep), name) == if keep((name, Seq::empty())) {
            lookup(s, name)
        } else {
            None
        },
    decreases s.len(),
{
    reveal(Seq::filter);
    if s.len() > 0 {
        lookup_in_filter(s.drop_last(), keep, name);
        let last = s.last();
        let f = s.drop_last().filter(keep);
        assert(last == (last.0, last.1));
        if last.0 == name {
            assert(keep((name, last.1)) == keep((name, Seq::<char>::empty())));
        }
        if keep(last) {
            assert(s.filter(keep) =~= f.push(last));
            assert(f.push(last).drop_last() =~= f);
        }
    }
}

/// After setting `name`, it has the new value, and every other name has the
/// value that it had.
pub proof fn put_then_lookup(s: Listing, name: Seq<char>, value: Seq<char>, other: Seq<char>)
    ensures
        lookup(put(s, name, value), other) == if other == name {
            Some(value)
        } else {
            lookup(s, other)
        },
{
    let lo = below(s, name);
    let mid = seq![(name, value)];
    let hi = above(s, name);
    lookup_in_concat(lo + mid, hi, other);
    lookup_in_concat(lo, mid, other);
    lookup_in_filter(s, |p: (Seq<char>, Seq<char>)| text::before(p.0, name), other);
    lookup_in_filter(s, |p: (Seq<char>, Seq<char>)| text::before(name, p.0), other);
    text::order_is_irreflexive(name);
    text::order_is_total(name, other);
    assert(mid.drop_last() =~= Seq::empty());
    reveal_with_fuel(lookup, 2);
    if text::before(name, other) && text::before(other, name) {
        text::order_is_transitive(name, other, name);
    }
}

/// The table of a list of assignments gives each name its last value.
pub proof fn table_then_lookup(assignments: Listing, name: Seq<char>)
    ensures
        lookup(table(assignments), name) == lookup(assignments, name),
    decreases assignments.len(),
{
    if assignments.len() > 0 {
        table_then_lookup(assignments.drop_last(), name);
        put_then_lookup(
            table(assignments.drop_last()),
            assignments.last().0,
            assignments.last().1,
            name,
        );
    }
}

proof fn put_last(t: Listing, name: Seq<char>, value: Seq<char>)
    requires
        forall|i: int| 0 <= i < t.len() ==> text::before((#[trigger] t[i]).0, name),
    ensures
        put(t, name, value) == t.push((name, value)),
{
    let lo = |p: (Seq<char>, Seq<char>)| text::before(p.0, name);
    let hi = |p: (Seq<char>, Seq<char>)| text::before(name, p.0);
    assert forall|i: int| 0 <= i < t.len() implies lo(#[trigger] t[i]) && !hi(t[i]) by {
        if text::before(name, t[i].0) {
            text::order_is_transitive(name, t[i].0, name);
            text::order_is_irreflexive(name);
        }
    }
    filter_all_or_none(t, lo);
    filter_all_or_none(t, hi);
    assert(put(t, name, value) =~= t.push((name, value)));
}

/// The table of an ordered listing is that listing.
pub proof fn table_of_ordered(s: Listing)
    requires
        is_sorted(s),
    ensures
        table(s) == s,
    decreases s.len(),
{
    if s.len() > 0 {
        let t = s.drop_last();
        let name = s.last().0;
        assert forall|i: int, j: int| 0 <= i < j < t.len() implies text::before(
            (#[trigger] t[i]).0,
            (#[trigger] t[j]).0,
        ) by {
            assert(s[i] == t[i] && s[j] == t[j]);
        }
        table_of_ordered(t);
        assert forall|i: int| 0 <= i < t.len() implies text::before((#[trigger] t[i]).0, name) by {
            assert(s[i] == t[i]);
            assert(s[s.len() - 1].0 == name);
        }
        put_last(t, name, s.last().1);
        assert(s =~= t.push((name, s.last().1)));
    } else {
        assert(table(s) =~= s);
    }
}

proof fn filter_all_or_none(s: Listing, keep: spec_fn((Seq<char>, Seq<char>)) -> bool)
    ensures
        (forall|i: int| 0 <= i < s.len() ==> keep(#[trigger] s[i])) ==> s.filter(keep) == s,
        (forall|i: int| 0 <= i < s.len() ==> !keep(#[trigger] s[i])) ==> s.filter(keep).len() == 0,
    decreases s.len(),
{
    reveal(Seq::filter);
    if s.len() > 0 {
        let t = s.drop_last();
        filter_all_or_none(t, keep);
        if forall|i: int| 0 <= i < s.len() ==> keep(#[trigger] s[i]) {
            assert forall|i: int| 0 <= i < t.len() implies keep(#[trigger] t[i]) by {
                assert(s[i] == t[i]);
            }
            assert(keep(s[s.len() - 1]));
            assert(s =~= t.push(s.last()));
        }
        if forall|i: int| 0 <= i < s.len() ==> !keep(#[trigger] s[i]) {
            assert forall|i: int| 0 <= i < t.len() implies !keep(#[trigger] t[i]) by {
                assert(s[i] == t[i]);
            }
            assert(!keep(s[s.len() - 1]));
        }
    } else {
        assert(s.filter(keep) =~= s);
    }
}

/// In an ordered listing the value of a name is that of its only entry.
proof fn lookup_in_ordered(s: Listing, i: int)
    requires
        is_sorted(s),
        0 <= i < s.len(),
    ensures
        lookup(s, s[i].0) == Some(s[i].1),
    decreases s.len(),
{
    if i < s.len() - 1 {
        let t = s.drop_last();
        drop_last_is_ordered(s);
        assert(text::before(s[i].0, s[s.len() - 1].0));
        text::order_is_irreflexive(s[i].0);
        assert(t[i] == s[i]);
        lookup_in_ordered(t, i);
    }
}

proof fn drop_last_is_ordered(s: Listing)
    requires
        is_sorted(s),
        s.len() > 0,
    ensures
        is_sorted(s.drop_last()),
{
    let t = s.drop_last();
    assert forall|i: int, j: int| 0 <= i < j < t.len() implies text::before(
        (#[trigger] t[i]).0,
        (#[trigger] t[j]).0,
    ) by {
        assert(s[i] == t[i] && s[j] == t[j]);
    }
}

proof fn lookup_finds_an_entry(s: Listing, name: Seq<char>)
    requires
        lookup(s, name) is Some,
    ensures
        s.contains((name, lookup(s, name)->0)),
    decreases s.len(),
{
    if s.last().0 == name {
        assert(s[s.len() - 1] == (name, lookup(s, name)->0));
    } else {
        lookup_finds_an_entry(s.drop_last(), name);
        let t = s.drop_last();
        let k = choose|k: int| 0 <= k < t.len() && t[k] == (name, lookup(s, name)->0);
        assert(s[k] == t[k]);
    }
}

/// The last name of an ordered listing comes after every other of its names.
proof fn last_is_greatest(s: Listing, name: Seq<char>)
    requires
        is_sorted(s),
        s.len() > 0,
        lookup(s, name) is Some,
    ensures
        name == s.last().0 || text::before(name, s.last().0),
{
    lookup_finds_an_entry(s, name);
    let k = choose|k: int| 0 <= k < s.len() && s[k] == (name, lookup(s, name)->0);
    if k < s.len() - 1 {
        assert(text::before(s[k].0, s[s.len() - 1].0));
    }
}

/// Ordered listings that give every name the same value are the same.
pub proof fn ordered_by_values(s: Listing, t: Listing)
    requires
        is_sorted(s),
        is_sorted(t),
        forall|name: Seq<char>| #[trigger] lookup(s, name) == lookup(t, name),
    ensures
        s == t,
    decreases s.len() + t.len(),
{
    if s.len() == 0 || t.len() == 0 {
        if s.len() > 0 {
            lookup_in_ordered(s, s.len() - 1);
            assert(lookup(s, s.last().0) == lookup(t, s.last().0));
        }
        if t.len() > 0 {
            lookup_in_ordered(t, t.len() - 1);
            assert(lookup(s, t.last().0) == lookup(t, t.last().0));
        }
        assert(s =~= t);
    } else {
        let a = s.last();
        let b = t.last();
        lookup_in_ordered(s, s.len() - 1);
        lookup_in_ordered(t, t.len() - 1);
        assert(lookup(s, a.0) == lookup(t, a.0));
        assert(lookup(s, b.0) == lookup(t, b.0));
        last_is_greatest(t, a.0);
        last_is_greatest(s, b.0);
        if a.0 != b.0 {
            text::order_is_transitive(a.0, b.0, a.0);
            text::order_is_irreflexive(a.0);
        }
        assert(a == b);
        let x = s.drop_last();
        let y = t.drop_last();
        drop_last_is_ordered(s);
        drop_last_is_ordered(t);
        assert forall|name: Seq<char>| #[trigger] lookup(x, name) == lookup(y, name) by {
            if name == a.0 {
                last_is_gone(s);
                last_is_gone(t);
            } else {
                assert(lookup(s, name) == lookup(t, name));
            }
        }
        ordered_by_values(x, y);
        assert(s =~= x.push(a));
        assert(t =~= y.push(b));
    }
}

proof fn last_is_gone(s: Listing)
    requires
        is_sorted(s),
        s.len() > 0,
    ensures
        lookup(s.drop_last(), s.last().0) is None,
{
    let t = s.drop_last();
    let name = s.last().0;
    if lookup(t, name) is Some {
        lookup_finds_an_entry(t, name);
        let k = choose|k: int| 0 <= k < t.len() && t[k] == (name, lookup(t, name)->0);
        assert(s[k] == t[k]);
        assert(text::before(s[k].0, s[s.len() - 1].0));
        text::order_is_irreflexive(name);
    }
}

/// The table of two lists of assignments, one after the other, is the table of
/// the first overridden by that of the second.
pub proof fn table_of_both(s: Listing, t: Listing)
    ensures
        table(s + t) == overridden(table(s), table(t)),
{
    let both = table(s) + table(t);
    table_is_sorted(s + t);
    table_is_sorted(both);
    assert forall|name: Seq<char>| #[trigger] lookup(table(s + t), name) == lookup(
        table(both),
        name,
    ) by {
        table_then_lookup(s + t, name);
        table_then_lookup(both, name);
        table_then_lookup(s, name);
        table_then_lookup(t, name);
        lookup_in_concat(s, t, name);
        lookup_in_concat(table(s), table(t), name);
    }
    ordered_by_values(table(s + t), table(both));
}

/// An overridden listing gives each name the value of the second, or that of the
/// first where the second has none.
pub proof fn overridden_then_lookup(s: Listing, t: Listing, name: Seq<char>)
    ensures
        lookup(overridden(s, t), name) == match lookup(t, name) {
            Some(v) => Some(v),
            None => lookup(s, name),
        },
{
    table_then_lookup(s + t, name);
    lookup_in_concat(s, t, name);
}

/// The value of a name is that of the last entry with this name; a name has none
/// only where no entry has it.
pub proof fn the_last_entry_counts(s: Listing, name: Seq<char>)
    ensures
        match lookup(s, name) {
            Some(v) => exists|i: int|
                {
                    &&& 0 <= i < s.len()
                    &&& #[trigger] s[i] == (name, v)
                    &&& forall|j: int| i < j < s.len() ==> (#[trigger] s[j]).0 != name
                },
            None => forall|i: int| 0 <= i < s.len() ==> (#[trigger] s[i]).0 != name,
        },
    decreases s.len(),
{
    if s.len() > 0 {
        let t = s.drop_last();
        let last = s.len() - 1;
        if s.last().0 == name {
            assert(s[last] == (name, s.last().1));
        } else {
            the_last_entry_counts(t, name);
            match lookup(s, name) {
                Some(v) => {
                    let i = choose|i: int|
                        {
                            &&& 0 <= i < t.len()
                            &&& #[trigger] t[i] == (name, v)
                            &&& forall|j: int| i < j < t.len() ==> (#[trigger] t[j]).0 != name
                        };
                    assert(s[i] == (name, v));
                    assert forall|j: int| i < j < s.len() implies (#[trigger] s[j]).0 != name by {
                        if j < last {
                            assert(t[j] == s[j]);
                        }
                    }
                },
                None => {
                    assert forall|i: int| 0 <= i < s.len() implies (#[trigger] s[i]).0 != name by {
                        if i < last {
                            assert(t[i] == s[i]);
                        }
                    }
                },
            }
        }
    }
}

/// A table of assignments holds each name once, in order, with the last value
/// that it was given, and no other name.
pub proof fn a_table_holds_the_last_values(assignments: Listing, name: Seq<char>, value: Seq<char>)
    ensures
        table(assignments).contains((name, value)) <==> exists|i: int|
            {
                &&& 0 <= i < assignments.len()
                &&& #[trigger] assignments[i] == (name, value)
                &&& forall|j: int| i < j < assignments.len() ==> (#[trigger] assignments[j]).0 != name
            },
        forall|i: int, j: int|
            0 <= i < j < table(assignments).len() ==> text::before(
                (#[trigger] table(assignments)[i]).0,
                (#[trigger] table(assignments)[j]).0,
            ),
{
    let t = table(assignments);
    table_is_sorted(assignments);
    table_then_lookup(assignments, name);
    the_last_entry_counts(assignments, name);
    if t.contains((name, value)) {
        let k = choose|k: int| 0 <= k < t.len() && t[k] == (name, value);
        lookup_in_ordered(t, k);
    }
    if exists|i: int|
        {
            &&& 0 <= i < assignments.len()
            &&& #[trigger] assignments[i] == (name, value)
            &&& forall|j: int| i < j < assignments.len() ==> (#[trigger] assignments[j]).0 != name
        } {
        let i = choose|i: int|
            {
                &&& 0 <= i < assignments.len()
                &&& #[trigger] assignments[i] == (name, value)
                &&& forall|j: int|
                    i < j < assignments.len() ==> (#[trigger] assignments[j]).0 != name
            };
        assert(lookup(assignments, name) is Some);
        let v = lookup(assignments, name)->0;
        let m = choose|m: int|
            {
                &&& 0 <= m < assignments.len()
                &&& #[trigger] assignments[m] == (name, v)
                &&& forall|j: int|
                    m < j < assignments.len() ==> (#[trigger] assignments[j]).0 != name
            };
        assert(m == i) by {
            assert(assignments[m].0 == name && assignments[i].0 == name);
        }
        lookup_finds_an_entry(t, name);
    }
}

/// Named values, each name once, in the order of the names.
#[derive(Debug)]
pub struct Vars {
    entries: Vec<(String, String)>,
}

impl View for Vars {
    type V = Listing;

    closed spec fn view(&self) -> Listing {
        text::pairs(self.entries@)
    }
}

impl Vars {
    #[verifier::type_invariant]
    spec fn ordered(self) -> bool {
        is_sorted(text::pairs(self.entries@))
    }

    /// No values.
    pub fn new() -> (r: Vars)
        ensures
            r@ == Seq::<(Seq<char>, Seq<char>)>::empty(),
    {
        let entries: Vec<(String, String)> = Vec::new();
        assert(text::pairs(entries@) =~= Seq::empty());
        Vars { entries }
    }

    /// How many values there are.
    pub fn len(&self) -> (r: usize)
        ensures
            r == self@.len(),
    {
        self.entries.len()
    }

    /// Give `name` the value `value`.
    pub fn insert(&mut self, name: String, value: String)
        ensures
            final(self)@ == put(old(self)@, name@, value@),
    {
        proof {
            use_type_invariant(&*self);
            put_keeps_order(self@, name@, value@);
        }
        let ghost s: Listing = self@;
        let ghost lo = |p: (Seq<char>, Seq<char>)| text::before(p.0, name@);
        let ghost hi = |p: (Seq<char>, Seq<char>)| text::before(name@, p.0);
        let mut out: Vec<(String, String)> = Vec::new();
        let mut i: usize = 0;
        proof {
            reveal(Seq::filter);
            assert(text::pairs(out@) =~= s.take(0).filter(lo));
        }
        while i < self.entries.len()
            invariant
                i <= self.entries@.len(),
                s == text::pairs(self.entries@),
                text::pairs(out@) == s.take(i as int).filter(lo),
                lo == (|p: (Seq<char>, Seq<char>)| text::before(p.0, name@)),
            decreases self.entries@.len() - i,
        {
            let ghost done: Listing = text::pairs(out@);
            let ghost e: (Seq<char>, Seq<char>) = s[i as int];
            proof {
                reveal(Seq::filter);
                assert(s.take(i as int + 1).drop_last() =~= s.take(i as int));
            }
            if text::is_before(self.entries[i].0.as_str(), name.as_str()) {
                out.push((self.entries[i].0.clone(), self.entries[i].1.clone()));
                assert(text::pairs(out@) =~= done.push(e));
            }
            i = i + 1;
        }
        assert(s.take(i as int) =~= s);
        let ghost lows: Listing = text::pairs(out@);
        out.push((name.clone(), value));
        assert(text::pairs(out@) =~= lows + seq![(name@, value@)]);
        let ghost head: Listing = text::pairs(out@);
        let mut j: usize = 0;
        proof {
            reveal(Seq::filter);
            assert(head =~= head + s.take(0).filter(hi));
        }
        while j < self.entries.len()
            invariant
                j <= self.entries@.len(),
                s == text::pairs(self.entries@),
                text::pairs(out@) == head + s.take(j as int).filter(hi),
                hi == (|p: (Seq<char>, Seq<char>)| text::before(name@, p.0)),
            decreases self.entries@.len() - j,
        {
            let ghost done: Listing = text::pairs(out@);
            let ghost e: (Seq<char>, Seq<char>) = s[j as int];
            proof {
                reveal(Seq::filter);
                assert(s.take(j as int + 1).drop_last() =~= s.take(j as int));
            }
            if text::is_before(name.as_str(), self.entries[j].0.as_str()) {
                out.push((self.entries[j].0.clone(), self.entries[j].1.clone()));
                assert(text::pairs(out@) =~= done.push(e));
                assert(done.push(e) =~= head + s.take(j as int).filter(hi).push(e));
            }
            j = j + 1;
        }
        assert(s.take(j as int) =~= s);
        self.entries = out;
    }

    /// The values of a list of assignments, where a later one wins.
    pub fn from_pairs(assignments: &Vec<(String, String)>) -> (r: Vars)
        ensures
            r@ == table(text::pairs(assignments@)),
    {
        let ghost s: Listing = text::pairs(assignments@);
        let mut out: Vars = Vars::new();
        let mut i: usize = 0;
        while i < assignments.len()
            invariant
                i <= assignments@.len(),
                s == text::pairs(assignments@),
                out@ == table(s.take(i as int)),
            decreases assignments@.len() - i,
        {
            proof {
                assert(s.take(i as int + 1).drop_last() =~= s.take(i as int));
            }
            out.insert(assignments[i].0.clone(), assignments[i].1.clone());
            i = i + 1;
        }
        assert(s.take(i as int) =~= s);
        out
    }

    /// All names with their values, in order.
    pub fn entries(&self) -> (r: Vec<(String, String)>)
        ensures
            text::pairs(r@) == self@,
            is_sorted(self@),
    {
        proof {
            use_type_invariant(self);
        }
        text::copy_pairs(&self.entries)
    }

    /// All names, in order.
    pub fn names(&self) -> (r: Vec<String>)
        ensures
            text::texts(r@) == names_of(self@),
            ascend(names_of(self@)),
    {
        proof {
            use_type_invariant(self);
            assert forall|i: int, j: int| 0 <= i < j < names_of(self@).len() implies text::before(
                #[trigger] names_of(self@)[i],
                #[trigger] names_of(self@)[j],
            ) by {
                assert(text::before(self@[i].0, self@[j].0));
            }
        }
        let mut out: Vec<String> = Vec::new();
        let mut i: usize = 0;
        while i < self.entries.len()
            invariant
                i <= self.entries@.len(),
                text::texts(out@) == names_of(self@).take(i as int),
            decreases self.entries@.len() - i,
        {
            let ghost done: Seq<Seq<char>> = text::texts(out@);
            out.push(self.entries[i].0.clone());
            proof {
                assert(text::texts(out@) =~= done.push(self@[i as int].0));
                assert(names_of(self@).take(i as int + 1) =~= done.push(self@[i as int].0));
            }
            i = i + 1;
        }
        assert(names_of(self@).take(i as int) =~= names_of(self@));
        out
    }

    /// The value of `name`.
    pub fn get(&self, name: &str) -> (r: Option<String>)
        ensures
            match r {
                Some(v) => lookup(self@, name@) == Some(v@),
                None => lookup(self@, name@) is None,
            },
    {
        let mut i: usize = self.entries.len();
        assert(self@.take(i as int) =~= self@);
        while i > 0
            invariant
                i <= self.entries@.len(),
                lookup(self@.take(i as int), name@) == lookup(self@, name@),
            decreases i,
        {
            let ghost t: Listing = self@.take(i as int);
            assert(t.drop_last() =~= self@.take(i - 1));
            assert(t.last() == self@[i - 1]);
            if text::same(self.entries[i - 1].0.as_str(), name) {
                return Some(self.entries[i - 1].1.clone());
            }
            i = i - 1;
        }
        None
    }
}

} // verus!
