//! Keeping secret values out of the output of commands.

use vstd::prelude::*;
use vstd::string::*;

use crate::text;
use crate::vars::Listing;

verus! {

/// What stands for a secret value in what is shown.
pub const PLACEHOLDER: &'static str = "‹redacted›";

/// `s` with every value in `values` replaced, one value after the other. An
/// empty value is left out.
pub open spec fn redacted(s: Seq<char>, values: Seq<Seq<char>>) -> Seq<char>
    decreases values.len(),
{
    if values.len() == 0 {
        s
    } else if values.last().len() == 0 {
        redacted(s, values.drop_last())
    } else {
        text::replaced(redacted(s, values.drop_last()), values.last(), PLACEHOLDER@)
    }
}

/// The values of a listing.
pub open spec fn values_in(secrets: Listing) -> Seq<Seq<char>> {
    secrets.map_values(|p: (Seq<char>, Seq<char>)| p.1)
}

/// Replace every (non-empty) secret value in `s` with a placeholder.
pub fn redact(s: String, secrets: &Vec<(String, String)>) -> (r: String)
    ensures
        r@ == redacted(s@, values_in(text::pairs(secrets@))),
{
    let ghost values: Seq<Seq<char>> = values_in(text::pairs(secrets@));
    let ghost first: Seq<char> = s@;
    let mut out: String = s;
    let mut i: usize = 0;
    while i < secrets.len()
        invariant
            i <= secrets@.len(),
            values == values_in(text::pairs(secrets@)),
            out@ == redacted(first, values.take(i as int)),
        decreases secrets@.len() - i,
    {
        proof {
            assert(values.take(i as int + 1).drop_last() =~= values.take(i as int));
            reveal_strlit("");
        }
        let v: &str = secrets[i].1.as_str();
        if !text::same(v, "") {
            out = text::replace(out.as_str(), v, PLACEHOLDER);
        }
        proof {
            if v@.len() == 0 {
                assert(v@ =~= ""@);
            }
        }
        i = i + 1;
    }
    assert(values.take(i as int) =~= values);
    out
}

// ---------------------------------------------------------------------------
// What redaction achieves

/// A text in which each character is marked: whether it comes from a
/// placeholder.
pub type Marked = Seq<(char, bool)>;

/// The text without its marks.
pub open spec fn plain(m: Marked) -> Seq<char> {
    m.map_values(|c: (char, bool)| c.0)
}

/// A text in which every character is marked alike.
pub open spec fn marked(s: Seq<char>, mark: bool) -> Marked {
    s.map_values(|c: char| (c, mark))
}

/// The replacement of one value, with the placeholders marked.
pub open spec fn replaced_marked(m: Marked, value: Seq<char>) -> Marked
    decreases m.len(),
{
    if m.len() == 0 {
        Seq::empty()
    } else if value.len() > 0 && text::occurs_at(plain(m), value, 0) {
        marked(PLACEHOLDER@, true) + replaced_marked(m.skip(value.len() as int), value)
    } else {
        seq![m[0]] + replaced_marked(m.drop_first(), value)
    }
}

/// The redaction of a text, with the placeholders marked.
pub open spec fn redacted_marked(s: Seq<char>, values: Seq<Seq<char>>) -> Marked
    decreases values.len(),
{
    if values.len() == 0 {
        marked(s, false)
    } else if values.last().len() == 0 {
        redacted_marked(s, values.drop_last())
    } else {
        replaced_marked(redacted_marked(s, values.drop_last()), values.last())
    }
}

/// `value` stands at index `i`, and no character of it is from a placeholder.
pub open spec fn exposed_at(m: Marked, value: Seq<char>, i: int) -> bool {
    &&& text::occurs_at(plain(m), value, i)
    &&& forall|k: int| i <= k < i + value.len() ==> !(#[trigger] m[k]).1
}

/// `value` stands somewhere outside the placeholders.
pub open spec fn exposed(m: Marked, value: Seq<char>) -> bool {
    exists|i: int| exposed_at(m, value, i)
}

proof fn marking_changes_no_text(m: Marked, value: Seq<char>)
    ensures
        plain(replaced_marked(m, value)) == text::replaced(plain(m), value, PLACEHOLDER@),
    decreases m.len(),
{
    let r = replaced_marked(m, value);
    let p = marked(PLACEHOLDER@, true);
    if m.len() == 0 {
        assert(plain(r) =~= text::replaced(plain(m), value, PLACEHOLDER@));
    } else if value.len() > 0 && text::occurs_at(plain(m), value, 0) {
        let n = value.len() as int;
        marking_changes_no_text(m.skip(n), value);
        assert(plain(m.skip(n)) =~= plain(m).skip(n));
        assert(plain(p) =~= PLACEHOLDER@);
        assert(plain(r) =~= plain(p) + plain(replaced_marked(m.skip(n), value)));
    } else {
        marking_changes_no_text(m.drop_first(), value);
        assert(plain(m.drop_first()) =~= plain(m).drop_first());
        assert(plain(r) =~= seq![m[0].0] + plain(replaced_marked(m.drop_first(), value)));
    }
}

/// What stands unmarked at the start after a replacement stood there before it,
/// and the replaced value starts nowhere in it.
proof fn start_is_untouched(m: Marked, value: Seq<char>, w: Seq<char>)
    requires
        value.len() > 0,
        exposed_at(replaced_marked(m, value), w, 0),
    ensures
        exposed_at(m, w, 0),
        w.len() > 0 ==> !text::occurs_at(plain(m), value, 0),
    decreases w.len(),
{
    let r = replaced_marked(m, value);
    reveal_strlit("‹redacted›");
    if w.len() == 0 {
        assert(plain(m).subrange(0, 0) =~= w);
    } else {
        assert(!r[0].1);
        assert(m.len() > 0);
        if text::occurs_at(plain(m), value, 0) {
            assert(r[0] == marked(PLACEHOLDER@, true)[0]);
        } else {
            let t = replaced_marked(m.drop_first(), value);
            let v = w.drop_first();
            assert(r =~= seq![m[0]] + t);
            assert(r.drop_first() =~= t);
            assert(plain(r).subrange(0, w.len() as int) == w);
            assert(plain(t).subrange(0, v.len() as int) =~= v) by {
                assert forall|k: int| 0 <= k < v.len() implies plain(t)[k] == v[k] by {
                    assert(plain(r)[k + 1] == plain(r).subrange(0, w.len() as int)[k + 1]);
                }
            }
            assert forall|k: int| 0 <= k < v.len() implies !(#[trigger] t[k]).1 by {
                assert(r[k + 1] == t[k]);
            }
            start_is_untouched(m.drop_first(), value, v);
            assert(plain(m).subrange(0, w.len() as int) =~= w) by {
                assert forall|k: int| 0 <= k < w.len() implies plain(m)[k] == w[k] by {
                    if k == 0 {
                        assert(plain(r)[0] == plain(r).subrange(0, w.len() as int)[0]);
                    } else {
                        let d = plain(m.drop_first());
                        assert(d[k - 1] == d.subrange(0, v.len() as int)[k - 1]);
                    }
                }
            }
            assert forall|k: int| 0 <= k < w.len() implies !(#[trigger] m[k]).1 by {
                if k > 0 {
                    assert(m.drop_first()[k - 1] == m[k]);
                } else {
                    assert(r[0] == m[0]);
                }
            }
        }
    }
}

/// A replacement exposes nothing that was not exposed before, and leaves the
/// replaced value exposed nowhere.
proof fn replacement_exposes_nothing(m: Marked, value: Seq<char>, w: Seq<char>, i: int)
    requires
        value.len() > 0,
        w.len() > 0,
        exposed_at(replaced_marked(m, value), w, i),
    ensures
        exposed(m, w),
        w != value,
    decreases m.len(),
{
    let r = replaced_marked(m, value);
    let p = marked(PLACEHOLDER@, true);
    if m.len() > 0 {
        if i == 0 {
            start_is_untouched(m, value, w);
            assert(exposed_at(m, w, 0));
        } else {
            let (n, gone, t) = if text::occurs_at(plain(m), value, 0) {
                (
                    value.len() as int,
                    p.len() as int,
                    replaced_marked(m.skip(value.len() as int), value),
                )
            } else {
                (1, 1, replaced_marked(m.drop_first(), value))
            };
            let rest = m.skip(n);
            assert(m.drop_first() =~= m.skip(1));
            if i < gone {
                assert(r[i] == p[i]);
                assert(!r[i].1);
            } else {
                assert(r.skip(gone) =~= t);
                assert(plain(t).subrange(i - gone, i - gone + w.len()) =~= w) by {
                    assert forall|k: int| 0 <= k < w.len() implies plain(t)[i - gone + k]
                        == w[k] by {
                        assert(plain(r)[i + k] == plain(r).subrange(i, i + w.len())[k]);
                        assert(t[i - gone + k] == r[i + k]);
                    }
                }
                assert forall|k: int| i - gone <= k < i - gone + w.len() implies !(
                #[trigger] t[k]).1 by {
                    assert(r[k + gone] == t[k]);
                }
                replacement_exposes_nothing(rest, value, w, i - gone);
                let j = choose|j: int| exposed_at(rest, w, j);
                assert(plain(m).subrange(j + n, j + n + w.len()) =~= w) by {
                    assert forall|k: int| 0 <= k < w.len() implies plain(m)[j + n + k] == w[k] by {
                        assert(plain(rest)[j + k] == plain(rest).subrange(j, j + w.len())[k]);
                        assert(rest[j + k] == m[j + n + k]);
                    }
                }
                assert forall|k: int| j + n <= k < j + n + w.len() implies !(
                #[trigger] m[k]).1 by {
                    assert(rest[k - n] == m[k]);
                }
                assert(exposed_at(m, w, j + n));
            }
        }
    }
}

/// The marks are those of the redacted text.
pub proof fn marks_fit_the_text(s: Seq<char>, values: Seq<Seq<char>>)
    ensures
        plain(redacted_marked(s, values)) == redacted(s, values),
    decreases values.len(),
{
    if values.len() == 0 {
        assert(plain(marked(s, false)) =~= s);
    } else {
        marks_fit_the_text(s, values.drop_last());
        marking_changes_no_text(redacted_marked(s, values.drop_last()), values.last());
    }
}

/// After redaction no secret value is left outside the placeholders.
pub proof fn no_value_is_exposed(s: Seq<char>, values: Seq<Seq<char>>, value: Seq<char>)
    requires
        values.contains(value),
        value.len() > 0,
    ensures
        !exposed(redacted_marked(s, values), value),
    decreases values.len(),
{
    let last = values.last();
    let before = values.drop_last();
    let m = redacted_marked(s, before);
    let r = redacted_marked(s, values);
    if exposed(r, value) {
        let i = choose|i: int| exposed_at(r, value, i);
        if last.len() > 0 {
            replacement_exposes_nothing(m, last, value, i);
        }
        let k = choose|k: int| 0 <= k < values.len() && values[k] == value;
        if value != last {
            assert(before[k] == value);
        } else {
            assert(last.len() > 0);
        }
        no_value_is_exposed(s, before, value);
    }
}

/// The character that opens a placeholder.
pub const OPENING: char = '‹';

/// The character that closes a placeholder.
pub const CLOSING: char = '›';

/// Whether a text holds neither of the two.
pub open spec fn is_bracket_free(s: Seq<char>) -> bool {
    !s.contains(OPENING) && !s.contains(CLOSING)
}

/// Every run of marked characters is opened, where `after_mark` says whether the
/// text follows a marked character.
spec fn runs_are_opened(m: Marked, after_mark: bool) -> bool {
    forall|k: int|
        0 <= k < m.len() && (#[trigger] m[k]).1 && !(if k == 0 {
            after_mark
        } else {
            m[k - 1].1
        }) ==> m[k].0 == OPENING
}

/// Every run of marked characters is closed.
spec fn runs_are_closed(m: Marked) -> bool {
    forall|k: int|
        0 <= k < m.len() && (#[trigger] m[k]).1 && (k == m.len() - 1 || !m[k + 1].1) ==> m[k].0
            == CLOSING
}

/// What stands between the brackets of a run is a part of the placeholder.
spec fn runs_are_placeholders(m: Marked) -> bool {
    forall|i: int, j: int|
        #![trigger m.subrange(i, j)]
        0 <= i < j <= m.len() && (forall|k: int| i <= k < j ==> (#[trigger] m[k]).1)
            && is_bracket_free(plain(m.subrange(i, j))) ==> text::occurs(
            PLACEHOLDER@,
            plain(m.subrange(i, j)),
        )
}

proof fn placeholder_is_bracketed()
    ensures
        PLACEHOLDER@.len() > 1,
        PLACEHOLDER@[0] == OPENING,
        PLACEHOLDER@.last() == CLOSING,
{
    reveal_strlit("‹redacted›");
}

proof fn replacement_keeps_opened(m: Marked, value: Seq<char>, after_mark: bool)
    requires
        runs_are_opened(m, after_mark),
    ensures
        runs_are_opened(replaced_marked(m, value), after_mark),
    decreases m.len(),
{
    let r = replaced_marked(m, value);
    let p = marked(PLACEHOLDER@, true);
    placeholder_is_bracketed();
    if m.len() > 0 {
        if value.len() > 0 && text::occurs_at(plain(m), value, 0) {
            let n = value.len() as int;
            let rest = m.skip(n);
            let t = replaced_marked(rest, value);
            assert forall|k: int| 0 <= k < rest.len() && (#[trigger] rest[k]).1 && !(if k == 0 {
                m[n - 1].1
            } else {
                rest[k - 1].1
            }) implies rest[k].0 == OPENING by {
                assert(rest[k] == m[k + n]);
                if k > 0 {
                    assert(rest[k - 1] == m[k + n - 1]);
                }
            }
            replacement_keeps_opened(rest, value, m[n - 1].1);
            assert forall|k: int| 0 <= k < r.len() && (#[trigger] r[k]).1 && !(if k == 0 {
                after_mark
            } else {
                r[k - 1].1
            }) implies r[k].0 == OPENING by {
                if k < p.len() {
                    assert(r[k] == p[k]);
                    if k > 0 {
                        assert(r[k - 1] == p[k - 1]);
                    }
                } else {
                    assert(r[k] == t[k - p.len()]);
                    if k > p.len() {
                        assert(r[k - 1] == t[k - p.len() - 1]);
                    } else {
                        assert(r[k - 1] == p[k - 1]);
                    }
                }
            }
        } else {
            let rest = m.drop_first();
            let t = replaced_marked(rest, value);
            assert forall|k: int| 0 <= k < rest.len() && (#[trigger] rest[k]).1 && !(if k == 0 {
                m[0].1
            } else {
                rest[k - 1].1
            }) implies rest[k].0 == OPENING by {
                assert(rest[k] == m[k + 1]);
                if k > 0 {
                    assert(rest[k - 1] == m[k]);
                }
            }
            replacement_keeps_opened(rest, value, m[0].1);
            assert forall|k: int| 0 <= k < r.len() && (#[trigger] r[k]).1 && !(if k == 0 {
                after_mark
            } else {
                r[k - 1].1
            }) implies r[k].0 == OPENING by {
                assert(r[0] == m[0]);
                if k > 0 {
                    assert(r[k] == t[k - 1]);
                    if k > 1 {
                        assert(r[k - 1] == t[k - 2]);
                    }
                }
            }
        }
    }
}

proof fn replacement_keeps_closed(m: Marked, value: Seq<char>)
    requires
        runs_are_closed(m),
    ensures
        runs_are_closed(replaced_marked(m, value)),
        replaced_marked(m, value).len() == 0 <==> m.len() == 0,
        replaced_marked(m, value).len() > 0 && !replaced_marked(m, value)[0].1 ==> replaced_marked(
            m,
            value,
        )[0] == m[0],
    decreases m.len(),
{
    let r = replaced_marked(m, value);
    let p = marked(PLACEHOLDER@, true);
    placeholder_is_bracketed();
    if m.len() > 0 {
        let (n, gone) = if value.len() > 0 && text::occurs_at(plain(m), value, 0) {
            (value.len() as int, p.len() as int)
        } else {
            (1, 1)
        };
        let rest = m.skip(n);
        assert(m.drop_first() =~= m.skip(1));
        let t = replaced_marked(rest, value);
        assert forall|k: int| 0 <= k < rest.len() && (#[trigger] rest[k]).1 && (k == rest.len() - 1
            || !rest[k + 1].1) implies rest[k].0 == CLOSING by {
            assert(rest[k] == m[k + n]);
            if k < rest.len() - 1 {
                assert(rest[k + 1] == m[k + n + 1]);
            }
        }
        replacement_keeps_closed(rest, value);
        if gone == p.len() {
            assert(r[0].1) by {
                if value.len() > 0 && text::occurs_at(plain(m), value, 0) {
                    assert(r[0] == p[0]);
                }
            }
        }
        assert forall|k: int| 0 <= k < r.len() && (#[trigger] r[k]).1 && (k == r.len() - 1 || !r[k
            + 1].1) implies r[k].0 == CLOSING by {
            if k >= gone {
                assert(r[k] == t[k - gone]);
                if k < r.len() - 1 {
                    assert(r[k + 1] == t[k + 1 - gone]);
                }
            } else if value.len() > 0 && text::occurs_at(plain(m), value, 0) {
                assert(r[k] == p[k]);
                if k + 1 < gone {
                    assert(r[k + 1] == p[k + 1]);
                }
            } else {
                assert(k == 0 && r[0] == m[0]);
                if r.len() > 1 {
                    assert(r[1] == t[0]);
                    assert(t[0] == rest[0] && rest[0] == m[1]);
                } else {
                    assert(t.len() == 0);
                }
            }
        }
    }
}

/// What stands without brackets at the start after a replacement stood there
/// before it.
proof fn bracket_free_start_is_kept(m: Marked, value: Seq<char>, n: int)
    requires
        0 <= n <= replaced_marked(m, value).len(),
        is_bracket_free(plain(replaced_marked(m, value).take(n))),
    ensures
        n <= m.len(),
        replaced_marked(m, value).take(n) == m.take(n),
    decreases n,
{
    let r = replaced_marked(m, value);
    placeholder_is_bracketed();
    if n == 0 {
        assert(r.take(0) =~= m.take(0));
    } else {
        assert(plain(r.take(n))[0] == r[0].0);
        assert(plain(r.take(n)).contains(r[0].0));
        if value.len() > 0 && text::occurs_at(plain(m), value, 0) {
            assert(r[0] == marked(PLACEHOLDER@, true)[0]);
        } else {
            let t = replaced_marked(m.drop_first(), value);
            assert(r =~= seq![m[0]] + t);
            let head = plain(t.take(n - 1));
            assert forall|c: char| #[trigger] head.contains(c) implies plain(r.take(n)).contains(
                c,
            ) by {
                let k = choose|k: int| 0 <= k < head.len() && head[k] == c;
                assert(plain(r.take(n))[k + 1] == c);
            }
            bracket_free_start_is_kept(m.drop_first(), value, n - 1);
            assert(r.take(n) =~= seq![m[0]] + t.take(n - 1));
            assert(m.take(n) =~= seq![m[0]] + m.drop_first().take(n - 1));
        }
    }
}

proof fn replacement_keeps_placeholders(m: Marked, value: Seq<char>)
    requires
        runs_are_placeholders(m),
    ensures
        runs_are_placeholders(replaced_marked(m, value)),
    decreases m.len(),
{
    let r = replaced_marked(m, value);
    let p = marked(PLACEHOLDER@, true);
    placeholder_is_bracketed();
    if m.len() > 0 {
        let hit = value.len() > 0 && text::occurs_at(plain(m), value, 0);
        let (n, gone) = if hit {
            (value.len() as int, p.len() as int)
        } else {
            (1, 1)
        };
        let rest = m.skip(n);
        assert(m.drop_first() =~= m.skip(1));
        let t = replaced_marked(rest, value);
        assert(runs_are_placeholders(rest)) by {
            assert forall|i: int, j: int|
                #![trigger rest.subrange(i, j)]
                0 <= i < j <= rest.len() && (forall|k: int| i <= k < j ==> (#[trigger] rest[k]).1)
                    && is_bracket_free(plain(rest.subrange(i, j))) implies text::occurs(
                PLACEHOLDER@,
                plain(rest.subrange(i, j)),
            ) by {
                assert(rest.subrange(i, j) =~= m.subrange(i + n, j + n));
                assert forall|k: int| i + n <= k < j + n implies (#[trigger] m[k]).1 by {
                    assert(rest[k - n] == m[k]);
                }
            }
        }
        replacement_keeps_placeholders(rest, value);
        assert forall|i: int, j: int|
            #![trigger r.subrange(i, j)]
            0 <= i < j <= r.len() && (forall|k: int| i <= k < j ==> (#[trigger] r[k]).1)
                && is_bracket_free(plain(r.subrange(i, j))) implies text::occurs(
            PLACEHOLDER@,
            plain(r.subrange(i, j)),
        ) by {
            let w = r.subrange(i, j);
            if i >= gone {
                assert(w =~= t.subrange(i - gone, j - gone));
                assert forall|k: int| i - gone <= k < j - gone implies (#[trigger] t[k]).1 by {
                    assert(r[k + gone] == t[k]);
                }
            } else if hit {
                if j <= gone {
                    assert(plain(w) =~= PLACEHOLDER@.subrange(i, j));
                    assert(text::occurs_at(PLACEHOLDER@, plain(w), i));
                } else {
                    assert(plain(w)[gone - 1 - i] == CLOSING) by {
                        assert(r[gone - 1] == p[gone - 1]);
                    }
                    assert(plain(w).contains(CLOSING));
                }
            } else {
                assert(i == 0);
                assert(w =~= r.take(j));
                bracket_free_start_is_kept(m, value, j);
                assert(m.take(j) =~= m.subrange(0, j));
                assert forall|k: int| 0 <= k < j implies (#[trigger] m[k]).1 by {
                    assert(r.take(j)[k] == m.take(j)[k]);
                    assert(r[k].1);
                }
                assert(text::occurs(PLACEHOLDER@, plain(m.subrange(0, j))));
            }
        }
    }
}

proof fn redaction_keeps_runs(s: Seq<char>, values: Seq<Seq<char>>)
    ensures
        runs_are_opened(redacted_marked(s, values), false),
        runs_are_closed(redacted_marked(s, values)),
        runs_are_placeholders(redacted_marked(s, values)),
    decreases values.len(),
{
    let r = redacted_marked(s, values);
    if values.len() > 0 {
        redaction_keeps_runs(s, values.drop_last());
        let m = redacted_marked(s, values.drop_last());
        replacement_keeps_opened(m, values.last(), false);
        replacement_keeps_closed(m, values.last());
        replacement_keeps_placeholders(m, values.last());
    } else {
        assert forall|i: int, j: int|
            #![trigger r.subrange(i, j)]
            0 <= i < j <= r.len() && (forall|k: int| i <= k < j ==> (#[trigger] r[k]).1)
                && is_bracket_free(plain(r.subrange(i, j))) implies text::occurs(
            PLACEHOLDER@,
            plain(r.subrange(i, j)),
        ) by {
            assert(!r[i].1);
        }
    }
}

/// A run that starts at `i` goes on to `j` unless it is closed before.
proof fn run_goes_on(m: Marked, i: int, j: int)
    requires
        runs_are_closed(m),
        0 <= i <= j < m.len(),
        m[i].1,
        forall|k: int| i <= k < j ==> (#[trigger] m[k]).0 != CLOSING,
    ensures
        m[j].1,
    decreases j - i,
{
    if i < j {
        run_goes_on(m, i, j - 1);
        assert(m[j - 1].0 != CLOSING);
    }
}

/// A run that reaches `j` came from `i` unless it is opened after.
proof fn run_comes_from(m: Marked, i: int, j: int)
    requires
        runs_are_opened(m, false),
        0 <= i <= j < m.len(),
        m[j].1,
        forall|k: int| i < k <= j ==> (#[trigger] m[k]).0 != OPENING,
    ensures
        m[i].1,
    decreases j - i,
{
    if i < j {
        assert(m[j].0 != OPENING);
        run_comes_from(m, i, j - 1);
    }
}

/// After redaction a secret value does not occur at all, unless it holds one of
/// the brackets of the placeholder or is a part of the placeholder itself.
pub proof fn values_are_gone(s: Seq<char>, values: Seq<Seq<char>>, value: Seq<char>)
    requires
        values.contains(value),
        value.len() > 0,
        is_bracket_free(value),
        !text::occurs(PLACEHOLDER@, value),
    ensures
        !text::occurs(redacted(s, values), value),
{
    let m = redacted_marked(s, values);
    marks_fit_the_text(s, values);
    no_value_is_exposed(s, values, value);
    redaction_keeps_runs(s, values);
    if text::occurs(redacted(s, values), value) {
        let i = choose|i: int| text::occurs_at(redacted(s, values), value, i);
        let j = i + value.len();
        assert forall|k: int| i <= k < j implies (#[trigger] m[k]).0 == value[k - i] && m[k].0
            != OPENING && m[k].0 != CLOSING by {
            assert(plain(m)[k] == plain(m).subrange(i, j)[k - i]);
            assert(value.contains(value[k - i]));
        }
        assert(exists|k: int| i <= k < j && (#[trigger] m[k]).1) by {
            if forall|k: int| i <= k < j ==> !(#[trigger] m[k]).1 {
                assert(exposed_at(m, value, i));
            }
        }
        let k = choose|k: int| i <= k < j && (#[trigger] m[k]).1;
        assert forall|q: int| i <= q < j implies (#[trigger] m[q]).1 by {
            if q >= k {
                run_goes_on(m, k, q);
            } else {
                run_comes_from(m, q, k);
            }
        }
        assert(plain(m.subrange(i, j)) =~= value);
        assert(text::occurs(PLACEHOLDER@, plain(m.subrange(i, j))));
    }
}

// ---------------------------------------------------------------------------
// What redaction leaves alone

/// No (non-empty) value of a listing stands in a text.
pub open spec fn holds_no_value(s: Seq<char>, secrets: Listing) -> bool {
    forall|i: int|
        0 <= i < secrets.len() && (#[trigger] secrets[i]).1.len() > 0 ==> !text::occurs(
            s,
            secrets[i].1,
        )
}

/// A text in which no secret value stands is shown unchanged, whole.
pub proof fn other_text_is_shown_unchanged(s: Seq<char>, secrets: Listing)
    requires
        holds_no_value(s, secrets),
    ensures
        redacted(s, values_in(secrets)) == s,
    decreases secrets.len(),
{
    if secrets.len() > 0 {
        let before = secrets.drop_last();
        assert(holds_no_value(s, before)) by {
            assert forall|i: int|
                0 <= i < before.len() && (#[trigger] before[i]).1.len() > 0 implies !text::occurs(
                s,
                before[i].1,
            ) by {
                assert(secrets[i] == before[i]);
            }
        }
        other_text_is_shown_unchanged(s, before);
        assert(values_in(secrets).drop_last() =~= values_in(before));
        let last = secrets[secrets.len() - 1];
        assert(values_in(secrets).last() == last.1);
        if last.1.len() > 0 {
            text::nothing_to_replace(s, last.1, PLACEHOLDER@);
        }
    }
}

/// Redaction changes nothing but the value: the text shown is the original with
/// a placeholder exactly where the value stood, and the original comes back when
/// the value is put in the place of each of these placeholders.
pub proof fn only_the_value_is_replaced(s: Seq<char>, name: Seq<char>, value: Seq<char>)
    requires
        value.len() > 0,
    ensures
        exists|parts: Seq<Seq<char>>|
            {
                &&& #[trigger] text::parted(s, value, parts)
                &&& redacted(s, values_in(seq![(name, value)])) == text::joined(
                    parts,
                    "‹redacted›"@,
                )
            },
{
    let values = values_in(seq![(name, value)]);
    assert(values =~= seq![value]);
    assert(values.drop_last() =~= Seq::empty());
    text::replacing_keeps_the_rest(s, value, PLACEHOLDER@);
    assert(redacted(s, values.drop_last()) == s);
    let parts = choose|parts: Seq<Seq<char>>| #[trigger]
        text::parted(s, value, parts) && text::replaced(s, value, PLACEHOLDER@) == text::joined(
            parts,
            PLACEHOLDER@,
        );
    assert(text::parted(s, value, parts));
}

/// Values are replaced one after the other: what further secrets do, they do to
/// what the earlier ones left.
pub proof fn secrets_count_one_by_one(s: Seq<char>, a: Listing, b: Listing)
    ensures
        redacted(s, values_in(a + b)) == redacted(redacted(s, values_in(a)), values_in(b)),
    decreases b.len(),
{
    let all = values_in(a + b);
    if b.len() == 0 {
        assert(a + b =~= a);
    } else {
        let before = b.drop_last();
        secrets_count_one_by_one(s, a, before);
        assert(all.drop_last() =~= values_in(a + before));
        assert(values_in(b).drop_last() =~= values_in(before));
        assert(all.last() == values_in(b).last());
    }
}

/// The value of every secret is kept out: after redaction it does not occur,
/// unless it holds one of the brackets of the placeholder or is a part of the
/// placeholder itself.
pub proof fn every_secret_is_kept_out(s: Seq<char>, secrets: Listing, i: int)
    requires
        0 <= i < secrets.len(),
        secrets[i].1.len() > 0,
        is_bracket_free(secrets[i].1),
        !text::occurs("‹redacted›"@, secrets[i].1),
    ensures
        !text::occurs(redacted(s, values_in(secrets)), secrets[i].1),
{
    assert(values_in(secrets)[i] == secrets[i].1);
    values_are_gone(s, values_in(secrets), secrets[i].1);
}

// ---------------------------------------------------------------------------
// What stands in the place of what

/// A piece of a text that is shown, and what it stands for.
pub struct Piece {
    pub shown: Seq<char>,
    pub was: Seq<char>,
}

/// The text that the pieces show.
pub open spec fn shown_by(ps: Seq<Piece>) -> Seq<char>
    decreases ps.len(),
{
    if ps.len() == 0 {
        Seq::empty()
    } else {
        ps[0].shown + shown_by(ps.drop_first())
    }
}

/// The text that comes back when each piece is put back to what it stands for.
pub open spec fn put_back(ps: Seq<Piece>) -> Seq<char>
    decreases ps.len(),
{
    if ps.len() == 0 {
        Seq::empty()
    } else {
        ps[0].was + put_back(ps.drop_first())
    }
}

/// The piece is a character that is shown as it is.
pub open spec fn is_kept(p: Piece) -> bool {
    p.shown == p.was && p.was.len() == 1
}

/// The piece stands for a text that holds a secret value.
pub open spec fn hides_a_value(p: Piece, secrets: Listing) -> bool {
    p.shown.len() > 0 && exists|i: int|
        0 <= i < secrets.len() && (#[trigger] secrets[i]).1.len() > 0 && text::occurs(
            p.was,
            secrets[i].1,
        )
}

/// Every piece is shown as it is, or hides a secret value.
pub open spec fn hides_only_values(ps: Seq<Piece>, secrets: Listing) -> bool {
    forall|i: int|
        0 <= i < ps.len() ==> is_kept(#[trigger] ps[i]) || hides_a_value(ps[i], secrets)
}

proof fn pieces_in_two(ps: Seq<Piece>, k: int)
    requires
        0 <= k <= ps.len(),
    ensures
        shown_by(ps) == shown_by(ps.take(k)) + shown_by(ps.skip(k)),
        put_back(ps) == put_back(ps.take(k)) + put_back(ps.skip(k)),
    decreases k,
{
    if k == 0 {
        assert(ps.skip(0) =~= ps);
        assert(shown_by(ps) =~= shown_by(ps.take(0)) + shown_by(ps.skip(0)));
        assert(put_back(ps) =~= put_back(ps.take(0)) + put_back(ps.skip(0)));
    } else {
        let rest = ps.drop_first();
        pieces_in_two(rest, k - 1);
        assert(ps.take(k).drop_first() =~= rest.take(k - 1));
        assert(ps.skip(k) =~= rest.skip(k - 1));
        assert(shown_by(ps) =~= shown_by(ps.take(k)) + shown_by(ps.skip(k)));
        assert(put_back(ps) =~= put_back(ps.take(k)) + put_back(ps.skip(k)));
    }
}

proof fn pieces_go_on(p: Piece, ps: Seq<Piece>)
    ensures
        shown_by(seq![p] + ps) == p.shown + shown_by(ps),
        put_back(seq![p] + ps) == p.was + put_back(ps),
{
    assert((seq![p] + ps).drop_first() =~= ps);
}

/// How many pieces it takes to show `n` characters.
proof fn enough_pieces(ps: Seq<Piece>, n: int) -> (k: int)
    requires
        0 < n <= shown_by(ps).len(),
    ensures
        0 < k <= ps.len(),
        shown_by(ps.take(k)).len() >= n,
        shown_by(ps.take(k - 1)).len() < n,
    decreases ps.len(),
{
    let rest = ps.drop_first();
    let first = ps[0].shown;
    assert(ps.take(0) =~= Seq::empty());
    if n <= first.len() {
        assert(ps.take(1).drop_first() =~= Seq::empty());
        reveal_with_fuel(shown_by, 2);
        1
    } else {
        let k = enough_pieces(rest, n - first.len());
        assert(ps.take(k + 1).drop_first() =~= rest.take(k));
        if k > 1 {
            assert(ps.take(k).drop_first() =~= rest.take(k - 1));
        } else {
            assert(ps.take(k).drop_first() =~= rest.take(0));
        }
        k + 1
    }
}

proof fn kept_pieces_show_what_they_are(ps: Seq<Piece>)
    requires
        forall|i: int| 0 <= i < ps.len() ==> is_kept(#[trigger] ps[i]),
    ensures
        shown_by(ps) == put_back(ps),
        shown_by(ps).len() == ps.len(),
    decreases ps.len(),
{
    if ps.len() > 0 {
        let rest = ps.drop_first();
        assert forall|i: int| 0 <= i < rest.len() implies is_kept(#[trigger] rest[i]) by {
            assert(rest[i] == ps[i + 1]);
        }
        kept_pieces_show_what_they_are(rest);
        assert(is_kept(ps[0]));
    }
}

proof fn occurs_in_more(a: Seq<char>, b: Seq<char>, c: Seq<char>, w: Seq<char>)
    requires
        text::occurs(b, w),
    ensures
        text::occurs(a + b + c, w),
{
    let i = choose|i: int| text::occurs_at(b, w, i);
    let k = a.len() + i;
    assert((a + b + c).subrange(k, k + w.len()) =~= b.subrange(i, i + w.len()));
    assert(text::occurs_at(a + b + c, w, k));
}

proof fn hiding_lasts(a: Seq<char>, p: Piece, c: Seq<char>, shown: Seq<char>, secrets: Listing)
    requires
        hides_a_value(p, secrets),
        shown.len() > 0,
    ensures
        hides_a_value(Piece { shown, was: a + p.was + c }, secrets),
{
    let i = choose|i: int|
        0 <= i < secrets.len() && (#[trigger] secrets[i]).1.len() > 0 && text::occurs(
            p.was,
            secrets[i].1,
        );
    occurs_in_more(a, p.was, c, secrets[i].1);
}

/// Pieces that a value stands across hide a value together.
proof fn a_hit_hides_a_value(
    ps: Seq<Piece>,
    k: int,
    value: Seq<char>,
    more: Seq<char>,
    shown: Seq<char>,
    secrets: Listing,
)
    requires
        hides_only_values(ps, secrets),
        0 < k <= ps.len(),
        value.len() > 0,
        value.len() <= shown_by(ps.take(k)).len(),
        shown_by(ps.take(k - 1)).len() < value.len(),
        text::occurs_at(shown_by(ps), value, 0),
        exists|j: int| 0 <= j < secrets.len() && (#[trigger] secrets[j]).1 == value,
        shown.len() > 0,
    ensures
        hides_a_value(Piece { shown, was: put_back(ps.take(k)) + more }, secrets),
{
    let head = ps.take(k);
    let none: Seq<char> = Seq::empty();
    if forall|i: int| 0 <= i < head.len() ==> is_kept(#[trigger] head[i]) {
        kept_pieces_show_what_they_are(head);
        let front = ps.take(k - 1);
        assert forall|i: int| 0 <= i < front.len() implies is_kept(#[trigger] front[i]) by {
            assert(front[i] == head[i]);
        }
        kept_pieces_show_what_they_are(front);
        pieces_in_two(ps, k);
        assert(shown_by(head) =~= shown_by(ps).subrange(0, value.len() as int));
        let j = choose|j: int| 0 <= j < secrets.len() && (#[trigger] secrets[j]).1 == value;
        assert(value.subrange(0, value.len() as int) =~= value);
        assert(text::occurs_at(value, value, 0));
        occurs_in_more(none, value, more, secrets[j].1);
        assert(none + value + more =~= put_back(head) + more);
    } else {
        let i = choose|i: int| 0 <= i < head.len() && !is_kept(#[trigger] head[i]);
        assert(head[i] == ps[i]);
        pieces_in_two(head, i);
        let tail = head.skip(i);
        assert(tail[0] == head[i]);
        let a = put_back(head.take(i));
        let c = put_back(tail.drop_first()) + more;
        hiding_lasts(a, head[i], c, shown, secrets);
        assert(a + head[i].was + c =~= put_back(head) + more);
    }
}

proof fn part_hides_only_values(ps: Seq<Piece>, k: int, secrets: Listing)
    requires
        hides_only_values(ps, secrets),
        0 <= k <= ps.len(),
    ensures
        hides_only_values(ps.skip(k), secrets),
{
    let rest = ps.skip(k);
    assert forall|i: int| 0 <= i < rest.len() implies is_kept(#[trigger] rest[i])
        || hides_a_value(rest[i], secrets) by {
        assert(rest[i] == ps[i + k]);
    }
}

/// Whether the replacement of `value` in `rem`, which a piece has still to show,
/// and in what `ps` shows comes to `tail`, shown by that piece, and what `qs`
/// shows; that piece has then taken on `extra`.
spec fn goes_on(
    open: bool,
    rem: Seq<char>,
    ps: Seq<Piece>,
    value: Seq<char>,
    secrets: Listing,
    tail: Seq<char>,
    extra: Seq<char>,
    qs: Seq<Piece>,
) -> bool {
    &&& text::replaced(rem + shown_by(ps), value, PLACEHOLDER@) == tail + shown_by(qs)
    &&& put_back(ps) == extra + put_back(qs)
    &&& hides_only_values(qs, secrets)
    &&& !open ==> tail.len() == 0 && extra.len() == 0
    &&& rem.len() > 0 ==> tail.len() > 0
}

proof fn replacing_goes_on(
    open: bool,
    rem: Seq<char>,
    ps: Seq<Piece>,
    value: Seq<char>,
    secrets: Listing,
) -> (r: (Seq<char>, Seq<char>, Seq<Piece>))
    requires
        hides_only_values(ps, secrets),
        !open ==> rem.len() == 0,
        value.len() > 0,
        exists|j: int| 0 <= j < secrets.len() && (#[trigger] secrets[j]).1 == value,
    ensures
        goes_on(open, rem, ps, value, secrets, r.0, r.1, r.2),
    decreases
            rem.len() + shown_by(ps).len(),
            2 * ps.len() + if open {
                1int
            } else {
                0int
            },
{
    let none: Seq<char> = Seq::empty();
    let all = rem + shown_by(ps);
    let n = value.len() as int;
    let ph = PLACEHOLDER@;
    placeholder_is_bracketed();
    if rem.len() > 0 {
        if text::occurs_at(all, value, 0) {
            if n <= rem.len() {
                let (tail, extra, qs) = replacing_goes_on(true, rem.skip(n), ps, value, secrets);
                assert(all.skip(n) =~= rem.skip(n) + shown_by(ps));
                assert(ph + (tail + shown_by(qs)) =~= (ph + tail) + shown_by(qs));
                (ph + tail, extra, qs)
            } else {
                let k = enough_pieces(ps, n - rem.len());
                let head = shown_by(ps.take(k));
                let left = head.skip(n - rem.len());
                pieces_in_two(ps, k);
                part_hides_only_values(ps, k, secrets);
                assert(all.skip(n) =~= left + shown_by(ps.skip(k)));
                let (tail, extra, qs) = replacing_goes_on(
                    true,
                    left,
                    ps.skip(k),
                    value,
                    secrets,
                );
                assert(ph + (tail + shown_by(qs)) =~= (ph + tail) + shown_by(qs));
                assert(put_back(ps) =~= (put_back(ps.take(k)) + extra) + put_back(qs));
                (ph + tail, put_back(ps.take(k)) + extra, qs)
            }
        } else {
            let (tail, extra, qs) = replacing_goes_on(true, rem.drop_first(), ps, value, secrets);
            assert(all.drop_first() =~= rem.drop_first() + shown_by(ps));
            assert(seq![all[0]] + (tail + shown_by(qs)) =~= (seq![all[0]] + tail) + shown_by(qs));
            (seq![all[0]] + tail, extra, qs)
        }
    } else if ps.len() == 0 {
        let qs: Seq<Piece> = Seq::empty();
        assert(all =~= none);
        assert(text::replaced(all, value, ph) =~= none + shown_by(qs));
        assert(put_back(ps) =~= none + put_back(qs));
        (none, none, qs)
    } else if open {
        let (tail, extra, qs) = replacing_goes_on(false, none, ps, value, secrets);
        assert(none + shown_by(ps) =~= all);
        assert(tail =~= none && extra =~= none);
        (tail, extra, qs)
    } else {
        let p = ps[0];
        let rest = ps.drop_first();
        assert(rest =~= ps.skip(1));
        part_hides_only_values(ps, 1, secrets);
        assert(all =~= shown_by(ps));
        if !is_kept(p) {
            assert(hides_a_value(p, secrets));
            let (tail, extra, qs) = replacing_goes_on(true, p.shown, rest, value, secrets);
            let q = Piece { shown: tail, was: p.was + extra };
            assert(all =~= p.shown + shown_by(rest));
            hiding_lasts(none, p, extra, tail, secrets);
            assert(none + p.was + extra =~= q.was);
            pieces_go_on(q, qs);
            let out = seq![q] + qs;
            assert(hides_only_values(out, secrets)) by {
                assert forall|i: int| 0 <= i < out.len() implies is_kept(#[trigger] out[i])
                    || hides_a_value(out[i], secrets) by {
                    if i > 0 {
                        assert(out[i] == qs[i - 1]);
                    }
                }
            }
            assert(none + shown_by(out) =~= tail + shown_by(qs));
            assert(none + put_back(out) =~= p.was + (extra + put_back(qs)));
            (none, none, out)
        } else if text::occurs_at(all, value, 0) {
            let k = enough_pieces(ps, n);
            let head = shown_by(ps.take(k));
            let left = head.skip(n);
            pieces_in_two(ps, k);
            part_hides_only_values(ps, k, secrets);
            assert(all.skip(n) =~= left + shown_by(ps.skip(k)));
            let (tail, extra, qs) = replacing_goes_on(true, left, ps.skip(k), value, secrets);
            let q = Piece { shown: ph + tail, was: put_back(ps.take(k)) + extra };
            a_hit_hides_a_value(ps, k, value, extra, ph + tail, secrets);
            pieces_go_on(q, qs);
            let out = seq![q] + qs;
            assert(hides_only_values(out, secrets)) by {
                assert forall|i: int| 0 <= i < out.len() implies is_kept(#[trigger] out[i])
                    || hides_a_value(out[i], secrets) by {
                    if i > 0 {
                        assert(out[i] == qs[i - 1]);
                    }
                }
            }
            assert(none + shown_by(out) =~= ph + (tail + shown_by(qs)));
            assert(none + put_back(out) =~= put_back(ps.take(k)) + (extra + put_back(qs)));
            (none, none, out)
        } else {
            let (tail, extra, qs) = replacing_goes_on(false, none, rest, value, secrets);
            assert(tail =~= none && extra =~= none);
            assert(all.drop_first() =~= none + shown_by(rest));
            pieces_go_on(p, qs);
            let out = seq![p] + qs;
            assert(hides_only_values(out, secrets)) by {
                assert forall|i: int| 0 <= i < out.len() implies is_kept(#[trigger] out[i])
                    || hides_a_value(out[i], secrets) by {
                    if i > 0 {
                        assert(out[i] == qs[i - 1]);
                    }
                }
            }
            assert(p.shown =~= seq![all[0]]);
            assert(none + shown_by(out) =~= seq![all[0]] + (tail + shown_by(qs)));
            assert(none + put_back(out) =~= p.was + (extra + put_back(qs)));
            (none, none, out)
        }
    }
}

proof fn whole_text_in_pieces(s: Seq<char>) -> (ps: Seq<Piece>)
    ensures
        shown_by(ps) == s,
        put_back(ps) == s,
        forall|i: int| 0 <= i < ps.len() ==> is_kept(#[trigger] ps[i]),
    decreases s.len(),
{
    let none: Seq<Piece> = Seq::empty();
    if s.len() == 0 {
        assert(shown_by(none) =~= s);
        assert(put_back(none) =~= s);
        none
    } else {
        let p = Piece { shown: seq![s[0]], was: seq![s[0]] };
        let rest = whole_text_in_pieces(s.drop_first());
        let ps = seq![p] + rest;
        pieces_go_on(p, rest);
        assert(seq![s[0]] + s.drop_first() =~= s);
        assert forall|i: int| 0 <= i < ps.len() implies is_kept(#[trigger] ps[i]) by {
            if i > 0 {
                assert(ps[i] == rest[i - 1]);
            }
        }
        ps
    }
}

/// Redaction changes nothing but the values, however many there are and however
/// they overlap: the text that is shown falls into pieces, each of which is a
/// character as it was or stands for a part of the original that holds a secret
/// value; and with each piece put back to what it stands for, the whole original
/// comes back.
pub proof fn the_original_can_be_put_back(s: Seq<char>, secrets: Listing)
    ensures
        exists|ps: Seq<Piece>|
            {
                &&& shown_by(ps) == redacted(s, values_in(secrets))
                &&& put_back(ps) == s
                &&& #[trigger] hides_only_values(ps, secrets)
            },
    decreases secrets.len(),
{
    if secrets.len() == 0 {
        let ps = whole_text_in_pieces(s);
        assert(hides_only_values(ps, secrets));
    } else {
        let before = secrets.drop_last();
        let last = secrets[secrets.len() - 1];
        the_original_can_be_put_back(s, before);
        let ps = choose|ps: Seq<Piece>|
            {
                &&& shown_by(ps) == redacted(s, values_in(before))
                &&& put_back(ps) == s
                &&& #[trigger] hides_only_values(ps, before)
            };
        assert(hides_only_values(ps, secrets)) by {
            assert forall|i: int| 0 <= i < ps.len() implies is_kept(#[trigger] ps[i])
                || hides_a_value(ps[i], secrets) by {
                if !is_kept(ps[i]) {
                    let j = choose|j: int|
                        0 <= j < before.len() && (#[trigger] before[j]).1.len() > 0
                            && text::occurs(ps[i].was, before[j].1);
                    assert(secrets[j] == before[j]);
                }
            }
        }
        assert(values_in(secrets).drop_last() =~= values_in(before));
        assert(values_in(secrets).last() == last.1);
        if last.1.len() > 0 {
            let none: Seq<char> = Seq::empty();
            let (tail, extra, qs) = replacing_goes_on(false, none, ps, last.1, secrets);
            assert(none + shown_by(ps) =~= shown_by(ps));
            assert(tail + shown_by(qs) =~= shown_by(qs));
            assert(extra + put_back(qs) =~= put_back(qs));
            assert(hides_only_values(qs, secrets));
        }
    }
}

} // verus!
