//! Text primitives: characters, whitespace, decimal numbers, trimming, lines.
//!
//! Text is modelled as a `Seq<char>`. Each executable function below computes
//! the spec function that its contract names.

use vstd::prelude::*;
use vstd::string::*;
use vstd::utf8::*;

verus! {

/// `String::push` appends one character at the end.
pub assume_specification[ String::push ](s: &mut String, c: char)
    ensures
        final(s)@ == old(s)@.push(c),
;

/// What `String::from_utf8_lossy` makes of a byte string.
pub uninterp spec fn lossy(bytes: Seq<u8>) -> Seq<char>;

/// `String::from_utf8_lossy`: text from bytes, where what is not UTF-8 is
/// replaced. Claimed: the result depends on the bytes alone, bytes that are
/// valid UTF-8 give exactly the text that they encode, and an ASCII byte at the
/// start gives that character at the start.
#[verifier::external_body]
pub(crate) fn lossy_text(bytes: &[u8]) -> (r: String)
    ensures
        r@ == lossy(bytes@),
        valid_utf8(bytes@) ==> r@ == decode_utf8(bytes@),
        bytes@.len() > 0 && bytes@[0] < 128 ==> r@.len() > 0 && r@[0] == bytes@[0] as char,
{
    String::from_utf8_lossy(bytes).into_owned()
}

/// What the `Debug` form of a string shows: the text in double quotes, with
/// escapes.
pub uninterp spec fn quoted(s: Seq<char>) -> Seq<char>;

/// The `Debug` form of a string, as `{:?}` prints it. Claimed: it depends on
/// the text alone.
#[verifier::external_body]
pub(crate) fn quote(s: &str) -> (r: String)
    ensures
        r@ == quoted(s@),
{
    format!("{:?}", s)
}

// ---------------------------------------------------------------------------
// Models

/// The contents of a list of strings.
pub open spec fn texts(v: Seq<String>) -> Seq<Seq<char>> {
    v.map_values(|s: String| s@)
}

/// The contents of a list of name/value pairs.
pub open spec fn pairs(v: Seq<(String, String)>) -> Seq<(Seq<char>, Seq<char>)> {
    v.map_values(|p: (String, String)| (p.0@, p.1@))
}

/// The Unicode `White_Space` property.
pub open spec fn is_space(c: char) -> bool {
    let n = c as u32;
    ||| 0x9 <= n <= 0xd
    ||| n == 0x20
    ||| n == 0x85
    ||| n == 0xa0
    ||| n == 0x1680
    ||| 0x2000 <= n <= 0x200a
    ||| n == 0x2028
    ||| n == 0x2029
    ||| n == 0x202f
    ||| n == 0x205f
    ||| n == 0x3000
}

/// `s` without its leading whitespace.
pub open spec fn trimmed_start(s: Seq<char>) -> Seq<char>
    decreases s.len(),
{
    if s.len() > 0 && is_space(s[0]) {
        trimmed_start(s.drop_first())
    } else {
        s
    }
}

/// `s` without its trailing whitespace.
pub open spec fn trimmed_end(s: Seq<char>) -> Seq<char>
    decreases s.len(),
{
    if s.len() > 0 && is_space(s.last()) {
        trimmed_end(s.drop_last())
    } else {
        s
    }
}

/// `s` without whitespace at either end.
pub open spec fn trimmed(s: Seq<char>) -> Seq<char> {
    trimmed_end(trimmed_start(s))
}

/// The decimal digit of value `d`, for `d < 10`.
pub open spec fn digit(d: nat) -> char {
    (48 + d) as char
}

/// The decimal notation of `n`, without leading zeros.
pub open spec fn decimal(n: nat) -> Seq<char>
    decreases n,
{
    if n < 10 {
        seq![digit(n)]
    } else {
        decimal(n / 10).push(digit(n % 10))
    }
}

/// The decimal notation of an integer, with a leading `-` when negative.
pub open spec fn signed_decimal(n: int) -> Seq<char> {
    if n < 0 {
        seq!['-'] + decimal((-n) as nat)
    } else {
        decimal(n as nat)
    }
}

/// Whether `c` is an ASCII digit.
pub open spec fn is_digit(c: char) -> bool {
    '0' <= c <= '9'
}

/// Whether `s` holds ASCII digits only.
pub open spec fn all_digits(s: Seq<char>) -> bool {
    forall|i: int| 0 <= i < s.len() ==> is_digit(#[trigger] s[i])
}

/// The number that a run of ASCII digits denotes.
pub open spec fn digits_value(s: Seq<char>) -> nat
    decreases s.len(),
{
    if s.len() == 0 {
        0
    } else {
        digits_value(s.drop_last()) * 10 + (s.last() as nat - 48) as nat
    }
}

/// The unsigned number that `s` spells: ASCII digits, at least one, after an
/// optional `+`.
pub open spec fn number(s: Seq<char>) -> Option<nat> {
    let t = if s.len() > 0 && s[0] == '+' {
        s.drop_first()
    } else {
        s
    };
    if t.len() > 0 && all_digits(t) {
        Some(digits_value(t))
    } else {
        None
    }
}

/// The index of the first `c` in `s`, or the length of `s` if there is none.
pub open spec fn cut(s: Seq<char>, c: char) -> int
    decreases s.len(),
{
    if s.len() == 0 || s[0] == c {
        0
    } else {
        1 + cut(s.drop_first(), c)
    }
}

/// `s` without one trailing carriage return.
pub open spec fn without_cr(s: Seq<char>) -> Seq<char> {
    if s.len() > 0 && s.last() == '\r' {
        s.drop_last()
    } else {
        s
    }
}

/// The lines of `s`: each ends at a `\n` or `\r\n`, which is not part of it;
/// the last line needs no ending.
pub open spec fn line_seq(s: Seq<char>) -> Seq<Seq<char>>
    decreases s.len(),
{
    if s.len() == 0 {
        Seq::empty()
    } else if !s.contains('\n') {
        seq![s]
    } else {
        seq![without_cr(s.take(cut(s, '\n')))] + if 0 <= cut(s, '\n') < s.len() {
            line_seq(s.skip(cut(s, '\n') + 1))
        } else {
            Seq::empty()
        }
    }
}

/// The pieces of `s` between the occurrences of `c`; always at least one.
pub open spec fn pieces(s: Seq<char>, c: char) -> Seq<Seq<char>>
    decreases s.len(),
{
    if !s.contains(c) {
        seq![s]
    } else {
        seq![s.take(cut(s, c))] + if 0 <= cut(s, c) < s.len() {
            pieces(s.skip(cut(s, c) + 1), c)
        } else {
            Seq::empty()
        }
    }
}

/// `parts` one after the other, with `sep` between each two.
pub open spec fn joined(parts: Seq<Seq<char>>, sep: Seq<char>) -> Seq<char>
    decreases parts.len(),
{
    if parts.len() == 0 {
        Seq::empty()
    } else if parts.len() == 1 {
        parts[0]
    } else {
        joined(parts.drop_last(), sep) + sep + parts.last()
    }
}

/// The ASCII lower-case form of `c`.
pub open spec fn lower(c: char) -> char {
    if 'A' <= c <= 'Z' {
        (c as u32 + 32) as char
    } else {
        c
    }
}

/// `pat` stands in `text` at index `i`.
pub open spec fn occurs_at(text: Seq<char>, pat: Seq<char>, i: int) -> bool {
    &&& 0 <= i
    &&& i + pat.len() <= text.len()
    &&& text.subrange(i, i + pat.len()) == pat
}

/// `pat` stands somewhere in `text`.
pub open spec fn occurs(text: Seq<char>, pat: Seq<char>) -> bool {
    exists|i: int| occurs_at(text, pat, i)
}

/// `text` with each occurrence of `pat` turned into `with`, taken from left to
/// right without overlaps. An empty `pat` occurs nowhere here.
pub open spec fn replaced(text: Seq<char>, pat: Seq<char>, with: Seq<char>) -> Seq<char>
    decreases text.len(),
{
    if text.len() == 0 {
        Seq::empty()
    } else if pat.len() > 0 && occurs_at(text, pat, 0) {
        with + replaced(text.skip(pat.len() as int), pat, with)
    } else {
        seq![text[0]] + replaced(text.drop_first(), pat, with)
    }
}

/// Lexicographic order by code point.
pub open spec fn before(a: Seq<char>, b: Seq<char>) -> bool
    decreases a.len(),
{
    if b.len() == 0 {
        false
    } else if a.len() == 0 {
        true
    } else if a[0] != b[0] {
        a[0] < b[0]
    } else {
        before(a.drop_first(), b.drop_first())
    }
}

// ---------------------------------------------------------------------------
// Facts about the models

/// The order never puts a text before itself.
pub proof fn order_is_irreflexive(a: Seq<char>)
    ensures
        !before(a, a),
    decreases a.len(),
{
    if a.len() > 0 {
        order_is_irreflexive(a.drop_first());
    }
}

/// Of two different texts one comes before the other.
pub proof fn order_is_total(a: Seq<char>, b: Seq<char>)
    ensures
        a != b ==> before(a, b) || before(b, a),
    decreases a.len(),
{
    if a.len() == 0 || b.len() == 0 {
        assert(a.len() == 0 && b.len() == 0 ==> a =~= b);
    } else if a[0] == b[0] {
        order_is_total(a.drop_first(), b.drop_first());
        if a.drop_first() == b.drop_first() {
            assert(a =~= seq![a[0]] + a.drop_first());
            assert(b =~= seq![b[0]] + b.drop_first());
        }
    }
}

/// The order is transitive.
pub proof fn order_is_transitive(a: Seq<char>, b: Seq<char>, c: Seq<char>)
    requires
        before(a, b),
        before(b, c),
    ensures
        before(a, c),
    decreases a.len(),
{
    if a.len() > 0 && a[0] == b[0] && b[0] == c[0] {
        order_is_transitive(a.drop_first(), b.drop_first(), c.drop_first());
    }
}

/// `cut` finds the first occurrence.
pub proof fn cut_is_first(s: Seq<char>, c: char)
    ensures
        0 <= cut(s, c) <= s.len(),
        forall|i: int| 0 <= i < cut(s, c) ==> s[i] != c,
        cut(s, c) < s.len() ==> s[cut(s, c)] == c,
        s.contains(c) <==> cut(s, c) < s.len(),
    decreases s.len(),
{
    if s.len() > 0 && s[0] != c {
        cut_is_first(s.drop_first(), c);
        assert forall|i: int| 0 <= i < cut(s, c) implies s[i] != c by {
            if i > 0 {
                assert(s[i] == s.drop_first()[i - 1]);
            }
        }
        if cut(s, c) < s.len() {
            assert(s[cut(s, c)] == s.drop_first()[cut(s, c) - 1]);
        }
    } else if s.len() > 0 {
        assert(s[0] == c);
    }
    if s.contains(c) {
        let k = choose|k: int| 0 <= k < s.len() && s[k] == c;
        assert(cut(s, c) <= k);
    }
}

/// The index at which `c` stands, and before which it does not, is the first.
pub proof fn cut_unique(s: Seq<char>, c: char, n: int)
    requires
        0 <= n <= s.len(),
        forall|i: int| 0 <= i < n ==> s[i] != c,
        n < s.len() ==> s[n] == c,
    ensures
        cut(s, c) == n,
{
    cut_is_first(s, c);
    if cut(s, c) < n {
        assert(s[cut(s, c)] != c);
    }
}

proof fn trimmed_start_skips(s: Seq<char>, n: int)
    requires
        0 <= n <= s.len(),
        forall|i: int| 0 <= i < n ==> is_space(s[i]),
        n < s.len() ==> !is_space(s[n]),
    ensures
        trimmed_start(s) == s.skip(n),
    decreases n,
{
    if n == 0 {
        assert(s.skip(0) =~= s);
    } else {
        assert(is_space(s[0]));
        let t = s.drop_first();
        assert forall|i: int| 0 <= i < n - 1 implies is_space(t[i]) by {
            assert(t[i] == s[i + 1]);
        }
        trimmed_start_skips(t, n - 1);
        assert(t.skip(n - 1) =~= s.skip(n));
    }
}

proof fn trimmed_end_takes(s: Seq<char>, n: int)
    requires
        0 <= n <= s.len(),
        forall|i: int| n <= i < s.len() ==> is_space(s[i]),
        n > 0 ==> !is_space(s[n - 1]),
    ensures
        trimmed_end(s) == s.take(n),
    decreases s.len(),
{
    if n == s.len() {
        assert(s.take(n) =~= s);
    } else {
        assert(is_space(s.last()));
        let t = s.drop_last();
        trimmed_end_takes(t, n);
        assert(t.take(n) =~= s.take(n));
    }
}

/// A text that neither starts nor ends with whitespace is left as it is.
pub proof fn nothing_to_trim(s: Seq<char>)
    requires
        s.len() > 0,
        !is_space(s[0]),
        !is_space(s.last()),
    ensures
        trimmed(s) == s,
{
    trimmed_start_skips(s, 0);
    assert(s.skip(0) =~= s);
    trimmed_end_takes(s, s.len() as int);
    assert(s.take(s.len() as int) =~= s);
}

proof fn trimmed_start_is_bare(s: Seq<char>)
    ensures
        trimmed_start(s).len() > 0 ==> !is_space(trimmed_start(s)[0]),
    decreases s.len(),
{
    if s.len() > 0 && is_space(s[0]) {
        trimmed_start_is_bare(s.drop_first());
    }
}

proof fn trimmed_end_is_bare(s: Seq<char>)
    ensures
        trimmed_end(s).len() > 0 ==> !is_space(trimmed_end(s).last()) && trimmed_end(s)[0] == s[0],
        trimmed_end(s).len() <= s.len(),
    decreases s.len(),
{
    if s.len() > 0 && is_space(s.last()) {
        trimmed_end_is_bare(s.drop_last());
    }
}

/// Trimming again changes nothing.
pub proof fn trimming_settles(s: Seq<char>)
    ensures
        trimmed(trimmed(s)) == trimmed(s),
{
    let t = trimmed(s);
    trimmed_start_is_bare(s);
    trimmed_end_is_bare(trimmed_start(s));
    if t.len() > 0 {
        nothing_to_trim(t);
    }
}

/// The decimal notation of a number is made of digits, and spells it.
pub proof fn decimal_reads_back(n: nat)
    ensures
        decimal(n).len() > 0,
        all_digits(decimal(n)),
        digits_value(decimal(n)) == n,
        number(decimal(n)) == Some(n),
    decreases n,
{
    let d = decimal(n);
    reveal_with_fuel(digits_value, 2);
    if n >= 10 {
        decimal_reads_back(n / 10);
        let h = decimal(n / 10);
        assert(d.drop_last() =~= h);
        assert forall|i: int| 0 <= i < d.len() implies is_digit(#[trigger] d[i]) by {
            if i < h.len() {
                assert(is_digit(h[i]));
            }
        }
    } else {
        assert(d.drop_last() =~= Seq::empty());
        assert forall|i: int| 0 <= i < d.len() implies is_digit(#[trigger] d[i]) by {}
    }
    assert(is_digit(d[0]));
}

/// The lines of two texts with a line break between them are those of the one
/// and those of the other, with an empty line between where the first ends at
/// the start of a line. A first text that ends in a bare carriage return would
/// lose it to the line break.
pub proof fn lines_of_both(a: Seq<char>, b: Seq<char>)
    requires
        a.len() > 0 ==> a.last() != '\r',
    ensures
        line_seq(a.push('\n') + b) == line_seq(a) + (if a.len() == 0 || a.last() == '\n' {
            seq![Seq::<char>::empty()]
        } else {
            Seq::empty()
        }) + line_seq(b),
    decreases a.len(),
{
    let whole = a.push('\n') + b;
    let k = cut(a, '\n');
    cut_is_first(a, '\n');
    assert(whole[a.len() as int] == '\n');
    assert(whole.contains('\n'));
    assert forall|i: int| 0 <= i < k implies whole[i] != '\n' by {
        assert(whole[i] == a[i]);
    }
    if k < a.len() {
        assert(whole[k] == a[k]);
    }
    cut_unique(whole, '\n', k);
    if k == a.len() {
        assert(whole.take(k) =~= a);
        assert(whole.skip(k + 1) =~= b);
        assert(line_seq(whole) =~= seq![a] + line_seq(b));
        if a.len() == 0 {
            assert(a =~= Seq::empty());
            assert(line_seq(a) + seq![Seq::<char>::empty()] + line_seq(b) =~= seq![a] + line_seq(
                b,
            ));
        } else {
            assert(a[a.len() - 1] != '\n');
            assert(line_seq(a) + Seq::empty() + line_seq(b) =~= seq![a] + line_seq(b));
        }
    } else {
        let rest = a.skip(k + 1);
        if rest.len() > 0 {
            assert(rest.last() == a.last());
        } else {
            assert(a.last() == a[k]);
        }
        assert(whole.take(k) =~= a.take(k));
        assert(whole.skip(k + 1) =~= rest.push('\n') + b);
        lines_of_both(rest, b);
        let first = seq![without_cr(a.take(k))];
        let gap = if a.last() == '\n' {
            seq![Seq::<char>::empty()]
        } else {
            Seq::empty()
        };
        assert(line_seq(a) == first + line_seq(rest));
        assert(line_seq(whole) =~= first + (line_seq(rest) + gap + line_seq(b)));
        assert(line_seq(whole) =~= line_seq(a) + gap + line_seq(b));
    }
}

/// Parts in a row are the first, and then the others behind a separator.
pub proof fn joined_from_the_left(first: Seq<char>, rest: Seq<Seq<char>>, sep: Seq<char>)
    ensures
        joined(seq![first] + rest, sep) == if rest.len() == 0 {
            first
        } else {
            first + sep + joined(rest, sep)
        },
    decreases rest.len(),
{
    let all = seq![first] + rest;
    if rest.len() == 0 {
        assert(all =~= seq![first]);
    } else {
        assert(all.drop_last() =~= seq![first] + rest.drop_last());
        joined_from_the_left(first, rest.drop_last(), sep);
        if rest.len() == 1 {
            assert(joined(all, sep) =~= first + sep + joined(rest, sep));
        } else {
            assert(joined(all, sep) =~= first + sep + joined(rest, sep));
        }
    }
}

/// Two rows of parts, one after the other, are each joined, with a separator
/// between the two.
pub proof fn joined_of_both(a: Seq<Seq<char>>, b: Seq<Seq<char>>, sep: Seq<char>)
    requires
        a.len() > 0,
        b.len() > 0,
    ensures
        joined(a + b, sep) == joined(a, sep) + sep + joined(b, sep),
    decreases b.len(),
{
    assert((a + b).drop_last() =~= a + b.drop_last());
    if b.len() == 1 {
        assert(a + b.drop_last() =~= a);
    } else {
        joined_of_both(a, b.drop_last(), sep);
        assert(joined(a + b, sep) =~= joined(a, sep) + sep + joined(b, sep));
    }
}

/// `parts` are what stands in `text` between the occurrences of `pat`, taken
/// from left to right without overlaps: joined by `pat` they are the text, and
/// `pat` stands nowhere else.
pub open spec fn parted(text: Seq<char>, pat: Seq<char>, parts: Seq<Seq<char>>) -> bool {
    &&& parts.len() > 0
    &&& joined(parts, pat) == text
    &&& forall|i: int, k: int|
        #![trigger occurs_at(parts[i] + pat, pat, k)]
        0 <= i < parts.len() - 1 && occurs_at(parts[i] + pat, pat, k) ==> k == parts[i].len()
    &&& !occurs(parts.last(), pat)
}

/// A text that starts with the pattern has an empty part before it.
proof fn parted_at_a_hit(text: Seq<char>, pat: Seq<char>, q: Seq<Seq<char>>)
    requires
        occurs_at(text, pat, 0),
        parted(text.skip(pat.len() as int), pat, q),
    ensures
        parted(text, pat, seq![Seq::<char>::empty()] + q),
{
    let none: Seq<char> = Seq::empty();
    let rest = text.skip(pat.len() as int);
    let parts = seq![none] + q;
    joined_from_the_left(none, q, pat);
    assert(none + pat + rest =~= pat + rest);
    assert(text =~= text.subrange(0, pat.len() as int) + rest);
    assert forall|i: int, k: int|
        #![trigger occurs_at(parts[i] + pat, pat, k)]
        0 <= i < parts.len() - 1 && occurs_at(parts[i] + pat, pat, k) implies k
        == parts[i].len() by {
        if i > 0 {
            assert(parts[i] == q[i - 1]);
            assert(occurs_at(q[i - 1] + pat, pat, k));
        }
    }
    assert(parts.last() == q.last());
}

/// The parts of `q` with `c` before the first.
spec fn led_by(c: char, q: Seq<Seq<char>>) -> Seq<Seq<char>> {
    seq![seq![c] + q[0]] + q.drop_first()
}

proof fn joined_led_by(c: char, q: Seq<Seq<char>>, sep: Seq<char>)
    requires
        q.len() > 0,
    ensures
        joined(led_by(c, q), sep) == seq![c] + joined(q, sep),
{
    let tail = q.drop_first();
    let first = seq![c] + q[0];
    assert(q =~= seq![q[0]] + tail);
    joined_from_the_left(q[0], tail, sep);
    joined_from_the_left(first, tail, sep);
    if tail.len() > 0 {
        assert(first + sep + joined(tail, sep) =~= seq![c] + (q[0] + sep + joined(tail, sep)));
    }
}

/// A text that does not start with the pattern has its first character in its
/// first part.
proof fn parted_at_a_miss(text: Seq<char>, pat: Seq<char>, q: Seq<Seq<char>>)
    requires
        text.len() > 0,
        pat.len() > 0,
        !occurs_at(text, pat, 0),
        parted(text.drop_first(), pat, q),
    ensures
        parted(text, pat, led_by(text[0], q)),
{
    let parts = led_by(text[0], q);
    let first = parts[0];
    let tail = q.drop_first();
    joined_led_by(text[0], q, pat);
    assert(text =~= seq![text[0]] + text.drop_first());
    joined_from_the_left(first, tail, pat);
    assert forall|i: int, k: int|
        #![trigger occurs_at(parts[i] + pat, pat, k)]
        0 <= i < parts.len() - 1 && occurs_at(parts[i] + pat, pat, k) implies k
        == parts[i].len() by {
        if i > 0 {
            assert(parts[i] == q[i]);
            assert(occurs_at(q[i] + pat, pat, k));
        } else if k > 0 {
            assert((q[0] + pat).subrange(k - 1, k - 1 + pat.len()) =~= (first + pat).subrange(
                k,
                k + pat.len(),
            ));
            assert(occurs_at(q[0] + pat, pat, k - 1));
        } else {
            assert(text == first + pat + joined(tail, pat));
            assert(text.subrange(0, pat.len() as int) =~= (first + pat).subrange(
                0,
                pat.len() as int,
            ));
            assert(occurs_at(text, pat, 0));
        }
    }
    if occurs(parts.last(), pat) {
        let k = choose|k: int| occurs_at(parts.last(), pat, k);
        if tail.len() > 0 {
            assert(parts.last() == q.last());
            assert(occurs(q.last(), pat));
        } else {
            assert(parts.last() == first && q.last() == q[0]);
            assert(text == first);
            if k > 0 {
                assert(q[0].subrange(k - 1, k - 1 + pat.len()) =~= first.subrange(
                    k,
                    k + pat.len(),
                ));
                assert(occurs_at(q[0], pat, k - 1));
            }
        }
    }
}

/// A replacement puts the new text exactly where the pattern stood, and leaves
/// all that stood between as it was.
pub proof fn replacing_keeps_the_rest(text: Seq<char>, pat: Seq<char>, with: Seq<char>)
    requires
        pat.len() > 0,
    ensures
        exists|parts: Seq<Seq<char>>| #[trigger]
            parted(text, pat, parts) && replaced(text, pat, with) == joined(parts, with),
    decreases text.len(),
{
    let none: Seq<char> = Seq::empty();
    if text.len() == 0 {
        let parts = seq![text];
        assert(!occurs(text, pat));
        assert(parted(text, pat, parts));
        assert(replaced(text, pat, with) =~= joined(parts, with));
    } else if occurs_at(text, pat, 0) {
        let rest = text.skip(pat.len() as int);
        replacing_keeps_the_rest(rest, pat, with);
        let q = choose|q: Seq<Seq<char>>| #[trigger]
            parted(rest, pat, q) && replaced(rest, pat, with) == joined(q, with);
        parted_at_a_hit(text, pat, q);
        joined_from_the_left(none, q, with);
        assert(none + with + joined(q, with) =~= with + joined(q, with));
        assert(parted(text, pat, seq![none] + q));
    } else {
        let rest = text.drop_first();
        replacing_keeps_the_rest(rest, pat, with);
        let q = choose|q: Seq<Seq<char>>| #[trigger]
            parted(rest, pat, q) && replaced(rest, pat, with) == joined(q, with);
        parted_at_a_miss(text, pat, q);
        joined_led_by(text[0], q, with);
        assert(parted(text, pat, led_by(text[0], q)));
    }
}

/// A text in which the pattern stands nowhere is left as it is.
pub proof fn nothing_to_replace(text: Seq<char>, pat: Seq<char>, with: Seq<char>)
    requires
        !occurs(text, pat),
    ensures
        replaced(text, pat, with) == text,
    decreases text.len(),
{
    if text.len() > 0 {
        let rest = text.drop_first();
        if occurs(rest, pat) {
            let k = choose|k: int| occurs_at(rest, pat, k);
            assert(text.subrange(k + 1, k + 1 + pat.len()) =~= rest.subrange(k, k + pat.len()));
            assert(occurs_at(text, pat, k + 1));
        }
        nothing_to_replace(rest, pat, with);
        assert(!occurs_at(text, pat, 0));
        assert(seq![text[0]] + rest =~= text);
    } else {
        assert(replaced(text, pat, with) =~= text);
    }
}

/// Whether `s` holds nothing but whitespace.
pub open spec fn is_blank(s: Seq<char>) -> bool {
    forall|i: int| 0 <= i < s.len() ==> is_space(#[trigger] s[i])
}

/// Whitespace are the blanks, tabs and line breaks of Unicode, and no other
/// character.
pub proof fn whitespace_is_that_of_unicode(c: char)
    ensures
        is_space(c) <==> c == '\t' || c == '\n' || c == '\u{b}' || c == '\u{c}' || c == '\r' || c
            == ' ' || c == '\u{85}' || c == '\u{a0}' || c == '\u{1680}' || ('\u{2000}' <= c
            <= '\u{200a}') || c == '\u{2028}' || c == '\u{2029}' || c == '\u{202f}' || c
            == '\u{205f}' || c == '\u{3000}',
{
}

proof fn trimmed_start_drops_blanks(s: Seq<char>)
    ensures
        exists|a: Seq<char>| #[trigger] is_blank(a) && s == a + trimmed_start(s),
    decreases s.len(),
{
    if s.len() > 0 && is_space(s[0]) {
        let t = s.drop_first();
        trimmed_start_drops_blanks(t);
        let a = choose|a: Seq<char>| #[trigger] is_blank(a) && t == a + trimmed_start(t);
        let b = seq![s[0]] + a;
        assert forall|i: int| 0 <= i < b.len() implies is_space(#[trigger] b[i]) by {
            if i > 0 {
                assert(b[i] == a[i - 1]);
            }
        }
        assert(is_blank(b));
        assert(s =~= seq![s[0]] + t);
        assert(seq![s[0]] + (a + trimmed_start(t)) =~= b + trimmed_start(t));
    } else {
        let none: Seq<char> = Seq::empty();
        assert(is_blank(none));
        assert(s =~= none + trimmed_start(s));
    }
}

proof fn trimmed_end_drops_blanks(s: Seq<char>)
    ensures
        exists|b: Seq<char>| #[trigger] is_blank(b) && s == trimmed_end(s) + b,
    decreases s.len(),
{
    if s.len() > 0 && is_space(s.last()) {
        let t = s.drop_last();
        trimmed_end_drops_blanks(t);
        let a = choose|a: Seq<char>| #[trigger] is_blank(a) && t == trimmed_end(t) + a;
        let b = a.push(s.last());
        assert forall|i: int| 0 <= i < b.len() implies is_space(#[trigger] b[i]) by {
            if i < a.len() {
                assert(b[i] == a[i]);
            }
        }
        assert(is_blank(b));
        assert(s =~= t.push(s.last()));
        assert((trimmed_end(t) + a).push(s.last()) =~= trimmed_end(t) + b);
    } else {
        let none: Seq<char> = Seq::empty();
        assert(is_blank(none));
        assert(s =~= trimmed_end(s) + none);
    }
}

/// Trimming takes whitespace off both ends, all of it, and nothing else.
pub proof fn trimming_takes_whitespace_off(s: Seq<char>)
    ensures
        exists|a: Seq<char>, b: Seq<char>|
            #![trigger is_blank(a), is_blank(b)]
            is_blank(a) && is_blank(b) && s == a + trimmed(s) + b,
        trimmed(s).len() > 0 ==> !is_space(trimmed(s)[0]) && !is_space(trimmed(s).last()),
{
    let t = trimmed_start(s);
    trimmed_start_drops_blanks(s);
    trimmed_end_drops_blanks(t);
    trimmed_start_is_bare(s);
    trimmed_end_is_bare(t);
    let a = choose|a: Seq<char>| #[trigger] is_blank(a) && s == a + t;
    let b = choose|b: Seq<char>| #[trigger] is_blank(b) && t == trimmed(s) + b;
    assert(s =~= a + trimmed(s) + b);
}

/// A text without a line break is one line, or none if it is empty. A line may
/// end in a carriage return and a line break.
pub proof fn a_text_without_breaks_is_one_line(s: Seq<char>, rest: Seq<char>)
    requires
        !s.contains('\n'),
    ensures
        line_seq(s) == if s.len() == 0 {
            Seq::empty()
        } else {
            seq![s]
        },
        line_seq(s + seq!['\r', '\n'] + rest) == seq![s] + line_seq(rest),
{
    let k = s.len() as int + 1;
    let whole = s + seq!['\r', '\n'] + rest;
    assert forall|i: int| 0 <= i < k implies whole[i] != '\n' by {
        if i < s.len() {
            assert(s.contains(s[i]));
        }
    }
    assert(whole[k] == '\n');
    assert(whole.contains('\n'));
    cut_unique(whole, '\n', k);
    assert(whole.take(k) =~= s.push('\r'));
    assert(without_cr(whole.take(k)) =~= s);
    assert(whole.skip(k + 1) =~= rest);
}

/// The lines of two texts with a carriage return and a line break between them
/// are those of the one and those of the other, with an empty line between where
/// the first ends at the start of a line.
pub proof fn lines_end_in_a_carriage_return_or_not(a: Seq<char>, b: Seq<char>)
    ensures
        line_seq(a + seq!['\r', '\n'] + b) == line_seq(a) + (if a.len() == 0 || a.last() == '\n' {
            seq![Seq::<char>::empty()]
        } else {
            Seq::empty()
        }) + line_seq(b),
    decreases a.len(),
{
    let whole = a + seq!['\r', '\n'] + b;
    let k = cut(a, '\n');
    cut_is_first(a, '\n');
    if k == a.len() {
        a_text_without_breaks_is_one_line(a, b);
        if a.len() == 0 {
            assert(a =~= Seq::empty());
            assert(line_seq(a) + seq![Seq::<char>::empty()] + line_seq(b) =~= seq![a] + line_seq(
                b,
            ));
        } else {
            assert(a[a.len() - 1] != '\n');
            assert(line_seq(a) + Seq::empty() + line_seq(b) =~= seq![a] + line_seq(b));
        }
    } else {
        let rest = a.skip(k + 1);
        assert forall|i: int| 0 <= i < k implies whole[i] != '\n' by {
            assert(whole[i] == a[i]);
        }
        assert(whole[k] == a[k]);
        assert(whole.contains(whole[k]));
        cut_unique(whole, '\n', k);
        if rest.len() > 0 {
            assert(rest.last() == a.last());
        } else {
            assert(a.last() == a[k]);
        }
        assert(whole.take(k) =~= a.take(k));
        assert(whole.skip(k + 1) =~= rest + seq!['\r', '\n'] + b);
        lines_end_in_a_carriage_return_or_not(rest, b);
        let first = seq![without_cr(a.take(k))];
        let gap = if a.last() == '\n' {
            seq![Seq::<char>::empty()]
        } else {
            Seq::empty()
        };
        assert(line_seq(a) == first + line_seq(rest));
        assert(line_seq(whole) =~= first + (line_seq(rest) + gap + line_seq(b)));
        assert(line_seq(whole) =~= line_seq(a) + gap + line_seq(b));
    }
}

/// The pieces of a text hold no separator, and joined by it they are the text.
pub proof fn pieces_make_up_the_text(s: Seq<char>, c: char)
    ensures
        pieces(s, c).len() > 0,
        joined(pieces(s, c), seq![c]) == s,
        forall|i: int| 0 <= i < pieces(s, c).len() ==> !(#[trigger] pieces(s, c)[i]).contains(c),
    decreases s.len(),
{
    let all = pieces(s, c);
    cut_is_first(s, c);
    let k = cut(s, c);
    if s.contains(c) {
        let head = s.take(k);
        let rest = s.skip(k + 1);
        pieces_make_up_the_text(rest, c);
        joined_from_the_left(head, pieces(rest, c), seq![c]);
        assert(s =~= head + seq![c] + rest);
        assert forall|i: int| 0 <= i < all.len() implies !(#[trigger] all[i]).contains(c) by {
            if i == 0 {
                assert(all[0] == head);
                if head.contains(c) {
                    let j = choose|j: int| 0 <= j < head.len() && head[j] == c;
                    assert(s[j] == c);
                }
            } else {
                assert(all[i] == pieces(rest, c)[i - 1]);
            }
        }
    } else {
        assert(all =~= seq![s]);
    }
}

/// One text comes before another where the two agree up to the end of the first,
/// or up to a character that is the smaller one in the first.
pub proof fn order_is_that_of_the_first_difference(a: Seq<char>, b: Seq<char>)
    ensures
        before(a, b) <==> exists|k: int|
            {
                &&& 0 <= k <= a.len()
                &&& k < b.len()
                &&& #[trigger] a.take(k) == b.take(k)
                &&& k == a.len() || a[k] < b[k]
            },
    decreases a.len(),
{
    if a.len() == 0 {
        if b.len() > 0 {
            assert(a.take(0) =~= b.take(0));
        }
    } else if b.len() > 0 {
        let x = a.drop_first();
        let y = b.drop_first();
        order_is_that_of_the_first_difference(x, y);
        assert(a.take(0) =~= b.take(0));
        if a[0] == b[0] {
            if before(a, b) {
                let k = choose|k: int|
                    {
                        &&& 0 <= k <= x.len()
                        &&& k < y.len()
                        &&& #[trigger] x.take(k) == y.take(k)
                        &&& k == x.len() || x[k] < y[k]
                    };
                assert(a.take(k + 1) =~= seq![a[0]] + x.take(k));
                assert(b.take(k + 1) =~= seq![b[0]] + y.take(k));
                assert(a.take(k + 1) == b.take(k + 1));
            }
            if exists|k: int|
                {
                    &&& 0 <= k <= a.len()
                    &&& k < b.len()
                    &&& #[trigger] a.take(k) == b.take(k)
                    &&& k == a.len() || a[k] < b[k]
                } {
                let k = choose|k: int|
                    {
                        &&& 0 <= k <= a.len()
                        &&& k < b.len()
                        &&& #[trigger] a.take(k) == b.take(k)
                        &&& k == a.len() || a[k] < b[k]
                    };
                assert(x.take(k - 1) =~= a.take(k).drop_first());
                assert(y.take(k - 1) =~= b.take(k).drop_first());
                assert(x.take(k - 1) == y.take(k - 1));
            }
        } else {
            assert forall|k: int|
                {
                    &&& 0 <= k <= a.len()
                    &&& k < b.len()
                    &&& #[trigger] a.take(k) == b.take(k)
                    &&& k == a.len() || a[k] < b[k]
                } implies k == 0 by {
                if k > 0 {
                    assert(a.take(k)[0] == b.take(k)[0]);
                }
            }
        }
    }
}

/// The decimal notation of a number has no leading zero, and that of another is
/// another.
pub proof fn decimal_is_canonical(n: nat, m: nat)
    ensures
        n > 0 ==> decimal(n)[0] != '0',
        decimal(n) == decimal(m) ==> n == m,
    decreases n,
{
    decimal_reads_back(n);
    decimal_reads_back(m);
    if n >= 10 {
        decimal_is_canonical(n / 10, m);
        decimal_reads_back(n / 10);
        assert(decimal(n)[0] == decimal(n / 10)[0]);
    }
}

/// A text that spells a number is made of digits, but for a `+` before them.
pub proof fn a_number_is_made_of_digits(s: Seq<char>)
    ensures
        number(s) is Some <==> {
            ||| s.len() > 0 && all_digits(s)
            ||| s.len() > 1 && s[0] == '+' && all_digits(s.drop_first())
        },
{
    if s.len() > 0 && s[0] == '+' {
        assert(!is_digit(s[0]));
    }
}

/// What stands between two texts occurs in the whole.
pub proof fn part_occurs(a: Seq<char>, b: Seq<char>, c: Seq<char>)
    ensures
        occurs(a + b + c, b),
{
    let i = a.len() as int;
    assert((a + b + c).subrange(i, i + b.len()) =~= b);
    assert(occurs_at(a + b + c, b, i));
}

// ---------------------------------------------------------------------------
// Executable counterparts

/// An owned copy of a text.
pub fn text(s: &str) -> (r: String)
    ensures
        r@ == s@,
{
    String::from_str(s)
}

/// Whether a character is Unicode whitespace.
pub fn is_whitespace(c: char) -> (r: bool)
    ensures
        r == is_space(c),
{
    let n: u32 = c as u32;
    (0x9 <= n && n <= 0xd) || n == 0x20 || n == 0x85 || n == 0xa0 || n == 0x1680 || (0x2000 <= n
        && n <= 0x200a) || n == 0x2028 || n == 0x2029 || n == 0x202f || n == 0x205f || n == 0x3000
}

/// The characters of a string.
pub fn chars_of(s: &str) -> (r: Vec<char>)
    ensures
        r@ == s@,
{
    let mut out: Vec<char> = Vec::new();
    for c in it: s.chars()
        invariant
            out@ == it.seq().take(it.index()),
            it.seq() == s@,
    {
        out.push(c);
    }
    assert(s@.take(s@.len() as int) == s@);
    out
}

/// A string made of the characters `lo..hi` of `cs`.
pub fn string_of(cs: &[char], lo: usize, hi: usize) -> (r: String)
    requires
        lo <= hi <= cs@.len(),
    ensures
        r@ == cs@.subrange(lo as int, hi as int),
{
    let mut out: String = String::new();
    let mut i: usize = lo;
    while i < hi
        invariant
            lo <= i <= hi <= cs@.len(),
            out@ == cs@.subrange(lo as int, i as int),
        decreases hi - i,
    {
        out.push(cs[i]);
        i = i + 1;
    }
    out
}

/// A copy of a list of strings.
pub fn copy_texts(v: &Vec<String>) -> (r: Vec<String>)
    ensures
        texts(r@) == texts(v@),
{
    let mut out: Vec<String> = Vec::new();
    let mut i: usize = 0;
    while i < v.len()
        invariant
            i <= v@.len(),
            texts(out@) == texts(v@).take(i as int),
        decreases v@.len() - i,
    {
        let ghost done: Seq<Seq<char>> = texts(out@);
        out.push(v[i].clone());
        proof {
            assert(texts(out@) =~= done.push(v@[i as int]@));
            assert(texts(v@).take(i as int + 1) =~= done.push(v@[i as int]@));
        }
        i = i + 1;
    }
    assert(texts(v@).take(v@.len() as int) =~= texts(v@));
    out
}

/// A copy of a list of name/value pairs.
pub fn copy_pairs(v: &Vec<(String, String)>) -> (r: Vec<(String, String)>)
    ensures
        pairs(r@) == pairs(v@),
{
    let mut out: Vec<(String, String)> = Vec::new();
    let mut i: usize = 0;
    while i < v.len()
        invariant
            i <= v@.len(),
            pairs(out@) == pairs(v@).take(i as int),
        decreases v@.len() - i,
    {
        let ghost done: Seq<(Seq<char>, Seq<char>)> = pairs(out@);
        out.push((v[i].0.clone(), v[i].1.clone()));
        proof {
            let copy = (v@[i as int].0@, v@[i as int].1@);
            assert(pairs(out@) =~= done.push(copy));
            assert(pairs(v@).take(i as int + 1) =~= done.push(copy));
        }
        i = i + 1;
    }
    assert(pairs(v@).take(v@.len() as int) =~= pairs(v@));
    out
}

/// `s` without whitespace at either end.
pub fn trim(s: &str) -> (r: String)
    ensures
        r@ == trimmed(s@),
{
    let cs: Vec<char> = chars_of(s);
    let n: usize = cs.len();
    let mut lo: usize = 0;
    while lo < n && is_whitespace(cs[lo])
        invariant
            n == cs@.len(),
            lo <= n,
            forall|i: int| 0 <= i < lo ==> is_space(cs@[i]),
        decreases n - lo,
    {
        lo = lo + 1;
    }
    proof {
        trimmed_start_skips(cs@, lo as int);
    }
    let mut hi: usize = n;
    while hi > lo && is_whitespace(cs[hi - 1])
        invariant
            n == cs@.len(),
            lo <= hi <= n,
            forall|i: int| hi <= i < n ==> is_space(cs@[i]),
        decreases hi,
    {
        hi = hi - 1;
    }
    proof {
        let t = cs@.skip(lo as int);
        assert forall|i: int| hi - lo <= i < t.len() implies is_space(t[i]) by {
            assert(t[i] == cs@[i + lo]);
        }
        if hi > lo {
            assert(t[hi - lo - 1] == cs@[hi - 1]);
        }
        trimmed_end_takes(t, hi - lo);
        assert(t.take(hi - lo) =~= cs@.subrange(lo as int, hi as int));
    }
    string_of(&cs, lo, hi)
}

/// The decimal notation of `n`.
pub fn decimal_text(n: u64) -> (r: String)
    ensures
        r@ == decimal(n as nat),
    decreases n,
{
    if n < 10 {
        let mut out: String = String::new();
        out.push((48u8 + n as u8) as char);
        out
    } else {
        let mut out: String = decimal_text(n / 10);
        out.push((48u8 + (n % 10) as u8) as char);
        out
    }
}

/// The decimal notation of a signed number.
pub fn signed_decimal_text(n: i32) -> (r: String)
    ensures
        r@ == signed_decimal(n as int),
{
    if n < 0 {
        let mut out: String = String::new();
        out.push('-');
        let magnitude: i64 = -(n as i64);
        out.append(decimal_text(magnitude as u64).as_str());
        out
    } else {
        decimal_text(n as u64)
    }
}

proof fn digits_value_grows(s: Seq<char>, n: int)
    requires
        0 <= n <= s.len(),
        all_digits(s),
    ensures
        digits_value(s.take(n)) <= digits_value(s),
    decreases s.len() - n,
{
    if n == s.len() {
        assert(s.take(n) =~= s);
    } else {
        digits_value_grows(s, n + 1);
        assert(s.take(n + 1).drop_last() =~= s.take(n));
    }
}

/// The number that `s` spells, or `None` if it spells none or one that does
/// not fit.
pub fn parse_number(s: &str) -> (r: Option<u64>)
    ensures
        match number(s@) {
            Some(n) if n <= u64::MAX => r == Some(n as u64),
            _ => r is None,
        },
{
    let cs: Vec<char> = chars_of(s);
    let len: usize = cs.len();
    let start: usize = if len > 0 && cs[0] == '+' {
        1
    } else {
        0
    };
    let ghost t: Seq<char> = cs@.skip(start as int);
    proof {
        if start == 0 {
            assert(t =~= cs@);
        } else {
            assert(t =~= cs@.drop_first());
        }
    }
    if start == len {
        return None;
    }
    let mut j: usize = start;
    while j < len
        invariant
            len == cs@.len(),
            start <= j <= len,
            start <= 1,
            t == cs@.skip(start as int),
            forall|i: int| 0 <= i < j - start ==> is_digit(#[trigger] t[i]),
            number(s@) == if t.len() > 0 && all_digits(t) {
                Some(digits_value(t))
            } else {
                None
            },
        decreases len - j,
    {
        let c: char = cs[j];
        assert(t[j - start] == c);
        if !('0' <= c && c <= '9') {
            return None;
        }
        j = j + 1;
    }
    let mut i: usize = start;
    let mut value: u64 = 0;
    while i < len
        invariant
            len == cs@.len(),
            start <= i <= len,
            start <= 1,
            t == cs@.skip(start as int),
            all_digits(t),
            number(s@) == Some(digits_value(t)),
            value == digits_value(t.take(i - start)),
        decreases len - i,
    {
        let c: char = cs[i];
        proof {
            assert(t[i - start] == c);
            assert(is_digit(t[i - start]));
        }
        let d: u64 = c as u64 - 48;
        proof {
            let next = t.take(i - start + 1);
            assert(next.drop_last() =~= t.take(i - start));
            assert(next.last() == c);
            assert(digits_value(next) == value * 10 + d);
            digits_value_grows(t, i - start + 1);
        }
        match value.checked_mul(10) {
            Some(tens) => match tens.checked_add(d) {
                Some(v) => {
                    value = v;
                },
                None => {
                    return None;
                },
            },
            None => {
                return None;
            },
        }
        i = i + 1;
    }
    assert(t.take(t.len() as int) =~= t);
    Some(value)
}

/// The index of the first `c` at or after `from`, or the length.
fn find_char(cs: &[char], from: usize, c: char) -> (r: usize)
    requires
        from <= cs@.len(),
    ensures
        from <= r <= cs@.len(),
        r - from == cut(cs@.skip(from as int), c),
        r < cs@.len() ==> cs@[r as int] == c,
        cs@.skip(from as int).contains(c) <==> r < cs@.len(),
{
    let mut i: usize = from;
    while i < cs.len() && cs[i] != c
        invariant
            from <= i <= cs@.len(),
            forall|k: int| from <= k < i ==> cs@[k] != c,
        decreases cs@.len() - i,
    {
        i = i + 1;
    }
    proof {
        let t = cs@.skip(from as int);
        assert forall|k: int| 0 <= k < i - from implies t[k] != c by {
            assert(t[k] == cs@[k + from]);
        }
        if i < cs@.len() {
            assert(t[i - from] == cs@[i as int]);
        }
        cut_unique(t, c, i - from);
        cut_is_first(t, c);
    }
    i
}

/// The text before and after the first `c`, or `None` if there is no `c`.
pub fn split_once(s: &str, c: char) -> (r: Option<(String, String)>)
    ensures
        match r {
            Some((a, b)) => {
                &&& s@.contains(c)
                &&& a@ == s@.take(cut(s@, c))
                &&& b@ == s@.skip(cut(s@, c) + 1)
            },
            None => !s@.contains(c),
        },
{
    let cs: Vec<char> = chars_of(s);
    assert(cs@.skip(0) =~= cs@);
    let n: usize = find_char(&cs, 0, c);
    if n == cs.len() {
        None
    } else {
        let a: String = string_of(&cs, 0, n);
        let b: String = string_of(&cs, n + 1, cs.len());
        assert(a@ =~= s@.take(n as int));
        assert(b@ =~= s@.skip(n + 1));
        Some((a, b))
    }
}

/// The lines of `s`.
pub fn lines(s: &str) -> (r: Vec<String>)
    ensures
        texts(r@) == line_seq(s@),
{
    let cs: Vec<char> = chars_of(s);
    let mut out: Vec<String> = Vec::new();
    let mut i: usize = 0;
    assert(cs@.skip(0) =~= cs@);
    assert(texts(out@) + line_seq(cs@) =~= line_seq(cs@));
    while i < cs.len()
        invariant
            i <= cs@.len(),
            cs@ == s@,
            texts(out@) + line_seq(cs@.skip(i as int)) == line_seq(s@),
        decreases cs@.len() - i,
    {
        let ghost t: Seq<char> = cs@.skip(i as int);
        let ghost done: Seq<Seq<char>> = texts(out@);
        let n: usize = find_char(&cs, i, '\n');
        let at_end: bool = n == cs.len();
        let hi: usize = if !at_end && n > i && cs[n - 1] == '\r' {
            n - 1
        } else {
            n
        };
        let line: String = string_of(&cs, i, hi);
        proof {
            if at_end {
                assert(line@ =~= t);
                assert(line_seq(t) =~= seq![line@] + line_seq(cs@.skip(cs@.len() as int)));
            } else {
                let whole = t.take(n - i);
                if n > i {
                    assert(whole.last() == cs@[n - 1]);
                }
                assert(line@ =~= without_cr(whole));
                assert(t.skip(n - i + 1) =~= cs@.skip(n + 1));
            }
            assert(done + line_seq(t) =~= done.push(line@) + line_seq(
                cs@.skip(if at_end {
                    cs@.len() as int
                } else {
                    n + 1
                }),
            ));
        }
        out.push(line);
        assert(texts(out@) =~= done.push(line@));
        i = if at_end {
            n
        } else {
            n + 1
        };
    }
    assert(cs@.skip(i as int) =~= Seq::<char>::empty());
    assert(texts(out@) =~= line_seq(s@));
    out
}

/// The pieces of `s` between the occurrences of `c`.
pub fn split(s: &str, c: char) -> (r: Vec<String>)
    ensures
        texts(r@) == pieces(s@, c),
{
    let cs: Vec<char> = chars_of(s);
    let mut out: Vec<String> = Vec::new();
    let mut i: usize = 0;
    assert(cs@.skip(0) =~= cs@);
    assert(texts(out@) + pieces(cs@, c) =~= pieces(cs@, c));
    loop
        invariant
            i <= cs@.len(),
            cs@ == s@,
            texts(out@) + pieces(cs@.skip(i as int), c) == pieces(s@, c),
        decreases cs@.len() - i,
    {
        let ghost t: Seq<char> = cs@.skip(i as int);
        let ghost done: Seq<Seq<char>> = texts(out@);
        let n: usize = find_char(&cs, i, c);
        let piece: String = string_of(&cs, i, n);
        assert(piece@ =~= t.take(n - i));
        out.push(piece);
        assert(texts(out@) =~= done.push(piece@));
        if n == cs.len() {
            assert(piece@ =~= t);
            assert(done + pieces(t, c) =~= done.push(piece@));
            return out;
        }
        proof {
            assert(t.skip(n - i + 1) =~= cs@.skip(n + 1));
            assert(done + pieces(t, c) =~= done.push(piece@) + pieces(cs@.skip(n + 1), c));
        }
        i = n + 1;
    }
}

/// `parts` with `sep` between each two.
pub fn join(parts: &[String], sep: &str) -> (r: String)
    ensures
        r@ == joined(texts(parts@), sep@),
{
    let mut out: String = String::new();
    let mut i: usize = 0;
    while i < parts.len()
        invariant
            i <= parts@.len(),
            out@ == joined(texts(parts@).take(i as int), sep@),
        decreases parts@.len() - i,
    {
        let ghost next: Seq<Seq<char>> = texts(parts@).take(i as int + 1);
        proof {
            assert(next.drop_last() =~= texts(parts@).take(i as int));
            assert(next.last() == parts@[i as int]@);
        }
        if i > 0 {
            out.append(sep);
        }
        out.append(parts[i].as_str());
        proof {
            if i == 0 {
                assert(out@ =~= parts@[0]@);
            }
        }
        i = i + 1;
    }
    assert(texts(parts@).take(i as int) =~= texts(parts@));
    out
}

/// The ASCII lower-case form of `s`.
pub fn lowercase(s: &str) -> (r: String)
    ensures
        r@ == s@.map_values(|c: char| lower(c)),
{
    let cs: Vec<char> = chars_of(s);
    let mut out: String = String::new();
    let mut i: usize = 0;
    while i < cs.len()
        invariant
            i <= cs@.len(),
            out@ == cs@.take(i as int).map_values(|c: char| lower(c)),
        decreases cs@.len() - i,
    {
        let c: char = cs[i];
        let low: char = if 'A' <= c && c <= 'Z' {
            (c as u8 + 32u8) as char
        } else {
            c
        };
        out.push(low);
        assert(out@ =~= cs@.take(i as int + 1).map_values(|c: char| lower(c)));
        i = i + 1;
    }
    assert(cs@.take(i as int) =~= s@);
    out
}

/// Whether `pat` stands in `cs` at index `at`.
fn matches_at(cs: &[char], pat: &[char], at: usize) -> (r: bool)
    requires
        at <= cs@.len(),
    ensures
        r == occurs_at(cs@, pat@, at as int),
{
    let end: usize = cs.len();
    if pat.len() > end - at {
        return false;
    }
    let mut k: usize = 0;
    while k < pat.len()
        invariant
            k <= pat@.len(),
            at + pat@.len() <= end,
            end == cs@.len(),
            forall|j: int| 0 <= j < k ==> #[trigger] pat@[j] == cs@[at + j],
        decreases pat@.len() - k,
    {
        if cs[at + k] != pat[k] {
            assert(cs@.subrange(at as int, at + pat@.len())[k as int] != pat@[k as int]);
            return false;
        }
        k = k + 1;
    }
    assert(cs@.subrange(at as int, at + pat@.len()) =~= pat@);
    true
}

/// `text` with each occurrence of `pat` turned into `with`.
pub fn replace(text: &str, pat: &str, with: &str) -> (r: String)
    ensures
        r@ == replaced(text@, pat@, with@),
{
    let cs: Vec<char> = chars_of(text);
    let ps: Vec<char> = chars_of(pat);
    let mut out: String = String::new();
    let mut i: usize = 0;
    assert(cs@.skip(0) =~= cs@);
    assert(out@ + replaced(cs@, pat@, with@) =~= replaced(cs@, pat@, with@));
    while i < cs.len()
        invariant
            i <= cs@.len(),
            cs@ == text@,
            ps@ == pat@,
            out@ + replaced(cs@.skip(i as int), pat@, with@) == replaced(text@, pat@, with@),
        decreases cs@.len() - i,
    {
        let ghost t: Seq<char> = cs@.skip(i as int);
        let ghost done: Seq<char> = out@;
        let hit: bool = ps.len() > 0 && matches_at(&cs, &ps, i);
        proof {
            if i + ps@.len() <= cs@.len() {
                assert(t.subrange(0, ps@.len() as int) =~= cs@.subrange(
                    i as int,
                    i + ps@.len(),
                ));
            }
            assert(hit == (pat@.len() > 0 && occurs_at(t, pat@, 0)));
        }
        if hit {
            out.append(with);
            proof {
                assert(t.skip(pat@.len() as int) =~= cs@.skip(i + pat@.len()));
                assert(done + replaced(t, pat@, with@) =~= done + with@ + replaced(
                    cs@.skip(i + pat@.len()),
                    pat@,
                    with@,
                ));
            }
            i = i + ps.len();
        } else {
            out.push(cs[i]);
            proof {
                assert(t.drop_first() =~= cs@.skip(i + 1));
                assert(done + replaced(t, pat@, with@) =~= done.push(cs@[i as int]) + replaced(
                    cs@.skip(i + 1),
                    pat@,
                    with@,
                ));
            }
            i = i + 1;
        }
    }
    assert(cs@.skip(i as int) =~= Seq::<char>::empty());
    assert(out@ =~= replaced(text@, pat@, with@));
    out
}

/// Whether `pre` stands at the start of `s`.
pub fn starts_with(s: &str, pre: &str) -> (r: bool)
    ensures
        r == occurs_at(s@, pre@, 0),
{
    let cs: Vec<char> = chars_of(s);
    let ps: Vec<char> = chars_of(pre);
    matches_at(&cs, &ps, 0)
}

/// Whether `a` comes before `b`.
pub fn is_before(a: &str, b: &str) -> (r: bool)
    ensures
        r == before(a@, b@),
{
    let x: Vec<char> = chars_of(a);
    let y: Vec<char> = chars_of(b);
    let mut i: usize = 0;
    assert(x@.skip(0) =~= x@ && y@.skip(0) =~= y@);
    loop
        invariant
            x@ == a@,
            y@ == b@,
            i <= x@.len(),
            i <= y@.len(),
            before(x@.skip(i as int), y@.skip(i as int)) == before(a@, b@),
        decreases x@.len() - i,
    {
        if i == y.len() {
            return false;
        }
        if i == x.len() {
            return true;
        }
        if x[i] != y[i] {
            return x[i] < y[i];
        }
        proof {
            assert(x@.skip(i as int).drop_first() =~= x@.skip(i + 1));
            assert(y@.skip(i as int).drop_first() =~= y@.skip(i + 1));
        }
        i = i + 1;
    }
}

/// Whether two strings hold the same text.
pub fn same(a: &str, b: &str) -> (r: bool)
    ensures
        r == (a@ == b@),
{
    let x: Vec<char> = chars_of(a);
    let y: Vec<char> = chars_of(b);
    if x.len() != y.len() {
        return false;
    }
    assert(x@.subrange(0, x@.len() as int) =~= x@);
    matches_at(&x, &y, 0)
}

} // verus!
