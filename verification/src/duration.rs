//! Lease durations: reading them from the command line and showing them.

use vstd::prelude::*;
use vstd::string::*;

use crate::text;

verus! {

/// Lifetime of a grant: how long a source stays usable after its first run
/// before the next run asks again. One hour.
///
/// This is the default for every grant, and the fixed lease for `sx run`. Only
/// `sx grant-all --lease` can pick another one, up to [`GRANT_TTL_MAX_SECS`].
pub const GRANT_TTL_SECS: u64 = 3600;

/// Hard ceiling on a grant lease: 24 hours. A longer lease is rejected rather
/// than silently clamped.
pub const GRANT_TTL_MAX_SECS: u64 = 86_400;

/// Why a text is not a lease duration.
pub enum LeaseFault {
    /// Nothing but whitespace.
    Empty,
    /// The last character is a letter, but not a unit.
    Unit { unit: char },
    /// What stands before the unit is not a number, or not one of 64 bits.
    Number,
    /// The number of seconds does not fit 64 bits.
    Overflow,
    /// Zero seconds.
    Zero,
    /// More than [`GRANT_TTL_MAX_SECS`].
    OverMax { secs: nat },
}

/// Whether `c` is an ASCII letter.
pub open spec fn is_letter(c: char) -> bool {
    ('a' <= c <= 'z') || ('A' <= c <= 'Z')
}

/// The seconds that a unit suffix stands for.
pub open spec fn unit_secs(c: char) -> Option<nat> {
    if c == 's' {
        Some(1)
    } else if c == 'm' {
        Some(60)
    } else if c == 'h' {
        Some(3600)
    } else if c == 'd' {
        Some(86_400)
    } else {
        None
    }
}

/// The lease that a number of units amounts to.
pub open spec fn lease_of(count: Option<nat>, unit: nat) -> Result<nat, LeaseFault> {
    match count {
        None => Err(LeaseFault::Number),
        Some(n) => if n > u64::MAX {
            Err(LeaseFault::Number)
        } else if n * unit > u64::MAX {
            Err(LeaseFault::Overflow)
        } else if n * unit == 0 {
            Err(LeaseFault::Zero)
        } else if n * unit > GRANT_TTL_MAX_SECS {
            Err(LeaseFault::OverMax { secs: n * unit })
        } else {
            Ok(n * unit)
        },
    }
}

/// The lease, in seconds, that `input` asks for: a number, optionally followed
/// by a unit, with whitespace around it ignored.
pub open spec fn lease(input: Seq<char>) -> Result<nat, LeaseFault> {
    let s = text::trimmed(input);
    if s.len() == 0 {
        Err(LeaseFault::Empty)
    } else if !is_letter(s.last()) {
        lease_of(text::number(s), 1)
    } else {
        match unit_secs(s.last()) {
            None => Err(LeaseFault::Unit { unit: s.last() }),
            Some(unit) => lease_of(text::number(s.drop_last()), unit),
        }
    }
}

/// The message for a rejected `input`.
pub open spec fn fault_text(input: Seq<char>, fault: LeaseFault) -> Seq<char> {
    let s = text::trimmed(input);
    match fault {
        LeaseFault::Empty => "empty duration; use e.g. 30m, 2h, 1d, or 45"@,
        LeaseFault::Unit { unit } => "invalid duration unit '"@ + seq![unit] + "' in "@
            + text::quoted(s) + "; use s, m, h, or d"@,
        LeaseFault::Number => "invalid duration "@ + text::quoted(s)
            + "; expected a number optionally followed by s, m, h, or d"@,
        LeaseFault::Overflow => "duration "@ + text::quoted(s) + " is too large"@,
        LeaseFault::Zero => "duration must be greater than zero"@,
        LeaseFault::OverMax { secs } => over_max_text(secs),
    }
}

/// The message for a lease over the ceiling.
pub open spec fn over_max_text(secs: nat) -> Seq<char> {
    "lease "@ + humanized(secs) + " exceeds maximum of "@ + humanized(GRANT_TTL_MAX_SECS as nat)
}

/// The largest unit, in seconds, that divides `secs`, and its name.
pub open spec fn even_unit(secs: nat) -> (nat, Seq<char>) {
    if secs % 86_400 == 0 {
        (86_400, "day"@)
    } else if secs % 3600 == 0 {
        (3600, "hour"@)
    } else if secs % 60 == 0 {
        (60, "minute"@)
    } else {
        (1, "second"@)
    }
}

/// A count with the name of what is counted, in the plural unless it is one.
pub open spec fn counted(n: nat, noun: Seq<char>) -> Seq<char> {
    text::decimal(n) + " "@ + noun + if n == 1 {
        Seq::empty()
    } else {
        "s"@
    }
}

/// A duration in the largest unit that divides it evenly.
pub open spec fn humanized(secs: nat) -> Seq<char> {
    counted(secs / even_unit(secs).0, even_unit(secs).1)
}

/// Parse a human-friendly duration into whole seconds.
///
/// Accepts an unsigned integer with an optional unit suffix: `s` (seconds, the
/// default when omitted), `m` (minutes), `h` (hours), or `d` (days).
///
/// Rejects empty input, zero, negative or non-numeric values, unknown unit
/// suffixes, and any duration exceeding [`GRANT_TTL_MAX_SECS`]. The `Err` is a
/// human-readable message.
pub fn parse_duration(input: &str) -> (r: Result<u64, String>)
    ensures
        match lease(input@) {
            Ok(secs) => r matches Ok(n) && n == secs && 0 < n <= GRANT_TTL_MAX_SECS,
            Err(fault) => r matches Err(m) && m@ == fault_text(input@, fault),
        },
{
    let s: String = text::trim(input);
    let cs: Vec<char> = text::chars_of(s.as_str());
    let len: usize = cs.len();
    if len == 0 {
        return Err(text::text("empty duration; use e.g. 30m, 2h, 1d, or 45"));
    }
    let last: char = cs[len - 1];
    let has_unit: bool = ('a' <= last && last <= 'z') || ('A' <= last && last <= 'Z');
    let unit: u64 = if !has_unit || last == 's' {
        1
    } else if last == 'm' {
        60
    } else if last == 'h' {
        3600
    } else if last == 'd' {
        86_400
    } else {
        let mut m: String = text::text("invalid duration unit '");
        m.push(last);
        m.append("' in ");
        m.append(text::quote(s.as_str()).as_str());
        m.append("; use s, m, h, or d");
        proof {
            assert("invalid duration unit '"@.push(last) =~= "invalid duration unit '"@ + seq![
                last,
            ]);
        }
        return Err(m);
    };
    let digits: String = if has_unit {
        text::string_of(&cs, 0, len - 1)
    } else {
        text::string_of(&cs, 0, len)
    };
    proof {
        if has_unit {
            assert(digits@ =~= s@.drop_last());
        } else {
            assert(digits@ =~= s@);
        }
    }
    let n: u64 = match text::parse_number(digits.as_str()) {
        Some(n) => n,
        None => {
            return Err(
                text::text("invalid duration ").concat(text::quote(s.as_str()).as_str()).concat(
                    "; expected a number optionally followed by s, m, h, or d",
                ),
            );
        },
    };
    let secs: u64 = match n.checked_mul(unit) {
        Some(secs) => secs,
        None => {
            return Err(
                text::text("duration ").concat(text::quote(s.as_str()).as_str()).concat(
                    " is too large",
                ),
            );
        },
    };
    if secs == 0 {
        return Err(text::text("duration must be greater than zero"));
    }
    if secs > GRANT_TTL_MAX_SECS {
        return Err(over_max_message(secs));
    }
    Ok(secs)
}

/// The message for a lease over the ceiling.
pub fn over_max_message(secs: u64) -> (r: String)
    ensures
        r@ == over_max_text(secs as nat),
{
    text::text("lease ").concat(humanize_secs(secs).as_str()).concat(
        " exceeds maximum of ",
    ).concat(humanize_secs(GRANT_TTL_MAX_SECS).as_str())
}

/// Render a whole-second duration as a short human-readable string, choosing
/// the largest unit that divides it evenly.
pub fn humanize_secs(secs: u64) -> (r: String)
    ensures
        r@ == humanized(secs as nat),
{
    let (unit, noun): (u64, &str) = if secs % 86_400 == 0 {
        (86_400, "day")
    } else if secs % 3600 == 0 {
        (3600, "hour")
    } else if secs % 60 == 0 {
        (60, "minute")
    } else {
        (1, "second")
    };
    let n: u64 = secs / unit;
    let out: String = text::decimal_text(n).concat(" ").concat(noun);
    if n == 1 {
        assert(out@ + Seq::<char>::empty() =~= out@);
        out
    } else {
        out.concat("s")
    }
}

// ---------------------------------------------------------------------------
// What holds of every duration

/// Every accepted lease is at least a second and at most the maximum.
pub proof fn accepted_leases_are_bounded(input: Seq<char>)
    ensures
        lease(input) matches Ok(secs) ==> 1 <= secs <= GRANT_TTL_MAX_SECS,
{
}

/// Whitespace around a duration makes no difference.
pub proof fn surrounding_whitespace_is_ignored(input: Seq<char>)
    ensures
        lease(text::trimmed(input)) == lease(input),
{
    text::trimming_settles(input);
}

/// A count with a unit stands for that many of the unit, and a count alone for
/// that many seconds, as long as it is a lease.
pub proof fn a_count_of_units_reads_back(count: nat, unit: char)
    requires
        unit_secs(unit) is Some,
        1 <= count * unit_secs(unit)->0 <= GRANT_TTL_MAX_SECS,
    ensures
        lease(text::decimal(count).push(unit)) == Ok::<nat, LeaseFault>(
            count * unit_secs(unit)->0,
        ),
        count <= GRANT_TTL_MAX_SECS ==> lease(text::decimal(count)) == Ok::<nat, LeaseFault>(count),
{
    let u = unit_secs(unit)->0;
    let d = text::decimal(count);
    assert(1 <= count && count <= count * u) by (nonlinear_arith)
        requires
            1 <= count * u,
            u >= 1,
    ;
    text::decimal_reads_back(count);
    let s = d.push(unit);
    assert(s.drop_last() =~= d);
    assert(d.drop_last().push(d.last()) =~= d);
    assert(text::is_digit(d[0]) && text::is_digit(d.last()));
    text::nothing_to_trim(d);
    text::nothing_to_trim(s);
    assert(count * 1 == count);
}

/// A duration is shown exactly, in the largest unit that divides it.
pub proof fn humanized_is_exact(secs: nat)
    ensures
        even_unit(secs).0 * (secs / even_unit(secs).0) == secs,
        forall|unit: char|
            (#[trigger] unit_secs(unit) matches Some(u) && u > even_unit(secs).0) ==> secs
                % unit_secs(unit)->0 != 0,
{
    let u = even_unit(secs).0;
    assert(secs % u == 0);
    assert(u * (secs / u) == secs) by (nonlinear_arith)
        requires
            u > 0,
            secs % u == 0,
    ;
}

/// A count of seconds, minutes, hours or days is that many times 1, 60, 3600 or
/// 86400 seconds, and a count alone is one of seconds: a lease if that is between
/// one second and a day, and rejected for its size otherwise.
pub proof fn a_count_is_a_lease_of_its_units(count: nat, unit: char, secs: nat)
    requires
        (unit == 's' && secs == 1) || (unit == 'm' && secs == 60) || (unit == 'h' && secs == 3600)
            || (unit == 'd' && secs == 86_400),
        count <= u64::MAX,
    ensures
        1 <= count * secs <= 86_400 ==> lease(text::decimal(count).push(unit)) == Ok::<
            nat,
            LeaseFault,
        >(count * secs),
        count == 0 ==> lease(text::decimal(count).push(unit)) == Err::<nat, LeaseFault>(
            LeaseFault::Zero,
        ),
        86_400 < count * secs <= u64::MAX ==> lease(text::decimal(count).push(unit)) == Err::<
            nat,
            LeaseFault,
        >(LeaseFault::OverMax { secs: count * secs }),
        count * secs > u64::MAX ==> lease(text::decimal(count).push(unit)) == Err::<
            nat,
            LeaseFault,
        >(LeaseFault::Overflow),
        lease(text::decimal(count)) == lease(text::decimal(count).push('s')),
{
    let d = text::decimal(count);
    let s = d.push(unit);
    let p = d.push('s');
    text::decimal_reads_back(count);
    assert(s.drop_last() =~= d);
    assert(p.drop_last() =~= d);
    assert(text::is_digit(d[0]) && text::is_digit(d.last()));
    text::nothing_to_trim(d);
    text::nothing_to_trim(s);
    text::nothing_to_trim(p);
    assert(count == 0 ==> count * secs == 0) by (nonlinear_arith);
    assert(count * secs == 0 ==> count == 0) by (nonlinear_arith)
        requires
            secs >= 1,
    ;
}

/// Digits, at least one, with a `+` before them or not.
pub open spec fn spells_a_number(s: Seq<char>) -> bool {
    ||| s.len() > 0 && text::all_digits(s)
    ||| s.len() > 1 && s[0] == '+' && text::all_digits(s.drop_first())
}

proof fn zeros_do_not_count(d: Seq<char>)
    requires
        text::all_digits(d),
    ensures
        text::digits_value(seq!['0'] + d) == text::digits_value(d),
    decreases d.len(),
{
    let z = seq!['0'] + d;
    if d.len() == 0 {
        assert(z.drop_last() =~= Seq::empty());
        reveal_with_fuel(text::digits_value, 2);
    } else {
        assert(z.drop_last() =~= seq!['0'] + d.drop_last());
        zeros_do_not_count(d.drop_last());
    }
}

/// A `+` or a zero before the digits makes no difference.
pub proof fn leading_zeros_do_not_count(d: Seq<char>, unit: char)
    requires
        d.len() > 0,
        text::all_digits(d),
        unit == 's' || unit == 'm' || unit == 'h' || unit == 'd',
    ensures
        lease((seq!['0'] + d).push(unit)) == lease(d.push(unit)),
        lease((seq!['+'] + d).push(unit)) == lease(d.push(unit)),
        lease(seq!['0'] + d) == lease(d),
        lease(seq!['+'] + d) == lease(d),
{
    let z = seq!['0'] + d;
    let p = seq!['+'] + d;
    zeros_do_not_count(d);
    assert forall|i: int| 0 <= i < z.len() implies text::is_digit(#[trigger] z[i]) by {
        if i > 0 {
            assert(z[i] == d[i - 1]);
        }
    }
    assert(p.drop_first() =~= d);
    assert(text::is_digit(d[0]) && text::is_digit(d.last()) && text::is_digit(z[0]));
    assert(z.last() == d.last() && p.last() == d.last());
    text::nothing_to_trim(d);
    text::nothing_to_trim(z);
    text::nothing_to_trim(p);
    text::nothing_to_trim(d.push(unit));
    text::nothing_to_trim(z.push(unit));
    text::nothing_to_trim(p.push(unit));
    assert(d.push(unit).drop_last() =~= d);
    assert(z.push(unit).drop_last() =~= z);
    assert(p.push(unit).drop_last() =~= p);
}

/// What is accepted is made of digits, with nothing but a `+` before them and
/// one of the four units behind them; what is empty, or ends in another letter,
/// is rejected for that.
pub proof fn nothing_else_is_a_lease(input: Seq<char>)
    ensures
        ({
            let t = text::trimmed(input);
            &&& lease(input) is Ok ==> {
                &&& t.len() > 0
                &&& text::is_digit(t[0]) || t[0] == '+'
                &&& forall|i: int| 0 < i < t.len() - 1 ==> text::is_digit(#[trigger] t[i])
                &&& text::is_digit(t.last()) || t.last() == 's' || t.last() == 'm' || t.last()
                    == 'h' || t.last() == 'd'
            }
            &&& t.len() == 0 <==> lease(input) == Err::<nat, LeaseFault>(LeaseFault::Empty)
            &&& t.len() > 0 && is_letter(t.last()) && t.last() != 's' && t.last() != 'm'
                && t.last() != 'h' && t.last() != 'd' ==> lease(input) == Err::<nat, LeaseFault>(
                LeaseFault::Unit { unit: t.last() },
            )
            &&& t.len() > 0 && !is_letter(t.last()) && !spells_a_number(t) ==> lease(input) == Err::<
                nat,
                LeaseFault,
            >(LeaseFault::Number)
            &&& t.len() > 0 && (t.last() == 's' || t.last() == 'm' || t.last() == 'h' || t.last()
                == 'd') && !spells_a_number(t.drop_last()) ==> lease(input) == Err::<
                nat,
                LeaseFault,
            >(LeaseFault::Number)
        }),
{
    let t = text::trimmed(input);
    text::a_number_is_made_of_digits(t);
    text::a_number_is_made_of_digits(t.drop_last());
    if lease(input) is Ok {
        let d = if is_letter(t.last()) {
            t.drop_last()
        } else {
            t
        };
        text::a_number_is_made_of_digits(d);
        let k: int = if text::all_digits(d) {
            0
        } else {
            1
        };
        assert forall|i: int| k <= i < d.len() implies text::is_digit(#[trigger] t[i]) by {
            assert(d[i] == t[i]);
            if k == 1 {
                assert(d.drop_first()[i - 1] == d[i]);
            }
        }
        assert(d[0] == t[0]);
        if !is_letter(t.last()) {
            assert(t.last() == t[t.len() - 1]);
            assert(t[t.len() - 1] == d[d.len() - 1]);
        }
    }
}

/// What a rejection says.
pub proof fn a_rejection_says_why(input: Seq<char>, unit: char, secs: nat)
    ensures
        fault_text(input, LeaseFault::Empty) == "empty duration; use e.g. 30m, 2h, 1d, or 45"@,
        fault_text(input, LeaseFault::Unit { unit }) == "invalid duration unit '"@ + seq![unit]
            + "' in "@ + text::quoted(text::trimmed(input)) + "; use s, m, h, or d"@,
        fault_text(input, LeaseFault::Number) == "invalid duration "@ + text::quoted(
            text::trimmed(input),
        ) + "; expected a number optionally followed by s, m, h, or d"@,
        fault_text(input, LeaseFault::Overflow) == "duration "@ + text::quoted(
            text::trimmed(input),
        ) + " is too large"@,
        fault_text(input, LeaseFault::Zero) == "duration must be greater than zero"@,
        fault_text(input, LeaseFault::OverMax { secs }) == "lease "@ + humanized(secs)
            + " exceeds maximum of "@ + humanized(86_400),
{
}

/// A number of days, hours, minutes or seconds is shown as that number with that
/// unit, unless it is a number of a larger one; the unit has an `s` unless the
/// number is one.
pub proof fn a_duration_is_shown_in_its_largest_unit(count: nat)
    ensures
        humanized(count * 86_400) == text::decimal(count) + (if count == 1 {
            " day"@
        } else {
            " days"@
        }),
        count * 3600 % 86_400 != 0 ==> humanized(count * 3600) == text::decimal(count) + (if count
            == 1 {
            " hour"@
        } else {
            " hours"@
        }),
        count * 60 % 3600 != 0 ==> humanized(count * 60) == text::decimal(count) + (if count == 1 {
            " minute"@
        } else {
            " minutes"@
        }),
        count % 60 != 0 ==> humanized(count) == text::decimal(count) + (if count == 1 {
            " second"@
        } else {
            " seconds"@
        }),
{
    whole_units(count);
    let d = text::decimal(count);
    words_for(d);
}

/// Which unit the four multiples of a count are shown in.
proof fn whole_units(count: nat)
    ensures
        even_unit(count * 86_400) == (86_400nat, "day"@),
        count * 86_400 / 86_400 == count,
        count * 3600 % 86_400 != 0 ==> even_unit(count * 3600) == (3600nat, "hour"@),
        count * 3600 / 3600 == count,
        count * 60 % 3600 != 0 ==> even_unit(count * 60) == (60nat, "minute"@),
        count * 60 / 60 == count,
        count % 60 != 0 ==> even_unit(count) == (1nat, "second"@),
        count / 1 == count,
{
    assert(count * 60 % 86_400 == 0 ==> count * 60 % 3600 == 0);
    assert(count % 86_400 == 0 ==> count % 60 == 0);
    assert(count % 3600 == 0 ==> count % 60 == 0);
}

/// The words behind a number.
proof fn words_for(d: Seq<char>)
    ensures
        d + " "@ + "day"@ + Seq::<char>::empty() == d + " day"@,
        d + " "@ + "day"@ + "s"@ == d + " days"@,
        d + " "@ + "hour"@ + Seq::<char>::empty() == d + " hour"@,
        d + " "@ + "hour"@ + "s"@ == d + " hours"@,
        d + " "@ + "minute"@ + Seq::<char>::empty() == d + " minute"@,
        d + " "@ + "minute"@ + "s"@ == d + " minutes"@,
        d + " "@ + "second"@ + Seq::<char>::empty() == d + " second"@,
        d + " "@ + "second"@ + "s"@ == d + " seconds"@,
{
    reveal_strlit(" ");
    reveal_strlit("s");
    reveal_strlit("day");
    reveal_strlit(" day");
    reveal_strlit(" days");
    reveal_strlit("hour");
    reveal_strlit(" hour");
    reveal_strlit(" hours");
    reveal_strlit("minute");
    reveal_strlit(" minute");
    reveal_strlit(" minutes");
    reveal_strlit("second");
    reveal_strlit(" second");
    reveal_strlit(" seconds");
    let none: Seq<char> = Seq::empty();
    assert(d + " "@ + "day"@ + none =~= d + " day"@);
    assert(d + " "@ + "day"@ + "s"@ =~= d + " days"@);
    assert(d + " "@ + "hour"@ + none =~= d + " hour"@);
    assert(d + " "@ + "hour"@ + "s"@ =~= d + " hours"@);
    assert(d + " "@ + "minute"@ + none =~= d + " minute"@);
    assert(d + " "@ + "minute"@ + "s"@ =~= d + " minutes"@);
    assert(d + " "@ + "second"@ + none =~= d + " second"@);
    assert(d + " "@ + "second"@ + "s"@ =~= d + " seconds"@);
}

} // verus!
