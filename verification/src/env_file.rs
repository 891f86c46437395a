//! Reading `.env` text.

use vstd::prelude::*;
use vstd::string::*;
use vstd::utf8::*;

use crate::proto::{Response, ResponseView};
use crate::text;
use crate::vars;
use crate::vars::{Listing, Vars};

verus! {

/// Why `.env` text could not be read.
#[derive(Debug)]
pub enum EnvError {
    /// A line that is not an assignment.
    Line { line: String, index: usize },
    /// The text could not be obtained.
    Io { text: String },
}

/// The contents of an [`EnvError`].
pub enum EnvErrorView {
    Line { line: Seq<char>, index: nat },
    Io { text: Seq<char> },
}

impl View for EnvError {
    type V = EnvErrorView;

    open spec fn view(&self) -> EnvErrorView {
        match *self {
            EnvError::Line { line, index } => EnvErrorView::Line {
                line: line@,
                index: index as nat,
            },
            EnvError::Io { text } => EnvErrorView::Io { text: text@ },
        }
    }
}

/// What reading `.env` text comes to: its assignments in order, or an error.
pub type Outcome = Result<Listing, EnvErrorView>;

/// The outcome with the assignments `s`.
pub open spec fn success(s: Listing) -> Outcome {
    Ok(s)
}

/// The contents of a list of assignments, or of an error.
pub open spec fn outcome_of(r: Result<Vec<(String, String)>, EnvError>) -> Outcome {
    match r {
        Ok(v) => Ok(text::pairs(v@)),
        Err(e) => Err(e@),
    }
}

/// The contents of named values, or of an error.
pub open spec fn vars_of(r: Result<Vars, EnvError>) -> Outcome {
    match r {
        Ok(v) => Ok(v@),
        Err(e) => Err(e@),
    }
}

/// The byte of `$`.
pub const DOLLAR: u8 = 36;

/// A name that `.env` text can assign to.
pub open spec fn is_env_name(name: Seq<char>) -> bool {
    &&& name.len() > 0
    &&& !text::is_digit(name[0])
    &&& name[0] != '.'
    &&& forall|i: int|
        0 <= i < name.len() ==> {
            let c = #[trigger] name[i];
            text::is_digit(c) || ('a' <= c <= 'z') || ('A' <= c <= 'Z') || c == '_' || c == '.'
        }
}

/// A value that stands for itself when written without quotes.
pub open spec fn is_plain_value(value: Seq<char>) -> bool {
    &&& forall|i: int|
        0 <= i < value.len() ==> {
            let c = #[trigger] value[i];
            c != '\n' && c != ' ' && c != '\t' && c != '\\' && c != '"' && c != '\'' && c != '$'
        }
    &&& value.len() > 0 ==> value[0] != '#' && !text::is_space(value[0]) && !text::is_space(
        value.last(),
    )
    &&& forall|i: int|
        0 < i < value.len() && #[trigger] value[i] == '#' ==> !text::is_space(value[i - 1])
}

/// Assignments to names that can be assigned to.
pub open spec fn are_named(s: Listing) -> bool {
    forall|i: int| 0 <= i < s.len() ==> is_env_name((#[trigger] s[i]).0)
}

/// A character as it is written between double quotes.
pub open spec fn escaped_char(c: char) -> Seq<char> {
    if c == '\\' || c == '"' || c == '$' {
        seq!['\\', c]
    } else if c == '\n' {
        seq!['\\', 'n']
    } else {
        seq![c]
    }
}

/// A text as it is written between double quotes.
pub open spec fn escaped(value: Seq<char>) -> Seq<char>
    decreases value.len(),
{
    if value.len() == 0 {
        Seq::empty()
    } else {
        escaped(value.drop_last()) + escaped_char(value.last())
    }
}

/// A value as it is written: as it is where it stands for itself, otherwise
/// between double quotes.
pub open spec fn written(value: Seq<char>) -> Seq<char> {
    if is_plain_value(value) {
        value
    } else {
        seq!['"'] + escaped(value) + seq!['"']
    }
}

/// Assignments as text: `NAME=VALUE`, one per line.
pub open spec fn rendered(s: Listing) -> Seq<char>
    decreases s.len(),
{
    if s.len() == 0 {
        Seq::empty()
    } else {
        rendered(s.drop_last()) + s.last().0 + "="@ + written(s.last().1) + "\n"@
    }
}

/// The variables of a process, as far as they are text.
pub type Environment = Map<Seq<char>, Seq<char>>;

/// An environment without variables.
pub open spec fn no_environment() -> Environment {
    Map::empty()
}

/// What `dotenvy` makes of bytes in a process with the variables `env`.
pub uninterp spec fn dotenv_outcome(bytes: Seq<u8>, env: Map<Seq<char>, Seq<char>>) -> Outcome;

/// Two outcomes that differ at most in the values: the same error, or the same
/// names in the same order.
pub open spec fn same_names(a: Outcome, b: Outcome) -> bool {
    match (a, b) {
        (Ok(s), Ok(t)) => vars::names_of(s) == vars::names_of(t),
        (Err(e), Err(f)) => e == f,
        _ => false,
    }
}

/// The names of an outcome can be assigned to.
pub open spec fn gives_names(o: Outcome) -> bool {
    o matches Ok(s) ==> are_named(s)
}

/// The outcome is that of `bytes` in some environment.
pub open spec fn comes_from(bytes: Seq<u8>, o: Outcome) -> bool {
    exists|env: Environment| o == #[trigger] dotenv_outcome(bytes, env)
}

/// What is known of the outcome of reading `bytes`: it is that of the bytes in
/// the environment of the process. A `$` refers to that environment, for the
/// values alone: the names and the errors depend on the bytes, and without a `$`
/// so do the values. Assignments read back as they were written.
pub open spec fn reads_as(bytes: Seq<u8>, o: Outcome) -> bool {
    &&& comes_from(bytes, o)
    &&& !bytes.contains(DOLLAR) ==> o == dotenv_outcome(bytes, no_environment())
    &&& same_names(o, dotenv_outcome(bytes, no_environment()))
    &&& gives_names(o)
    &&& forall|s: Listing|
        are_named(s) && bytes == encode_utf8(#[trigger] rendered(s)) ==> o == success(s)
}

/// `dotenvy::from_read_iter`: the assignments in `.env` text, up to the first
/// error, which is handed on as it is.
///
/// Claimed: the outcome is a function of the text and of the environment of the
/// process, from which a `$` is substituted. (The environment does not change
/// during the call: std asks that of a program that reads it.) The names, their
/// order and the error, if there is one, depend on the text alone, and for a
/// text without `$` so do the values. (Every value is also followed by that of
/// the variable with the empty name, which does not exist.) A name starts with
/// a letter or `_` and goes on with letters, digits, `_` and `.`. Lines of the
/// form `NAME=VALUE`, with such a name, give exactly those names and values in
/// order, where a value stands as it is if it holds no quotes, escapes, blanks,
/// `$` and comment, and otherwise between double quotes, with `\` before each
/// `\`, `"` and `$`, and a line break as `\n`. Which environment it was is not
/// said.
#[verifier::external_body]
pub(crate) fn dotenv_items(bytes: &[u8]) -> (r: Result<Vec<(String, String)>, EnvError>)
    ensures
        exists|env: Environment| outcome_of(r) == #[trigger] dotenv_outcome(bytes@, env),
        !bytes@.contains(DOLLAR) ==> outcome_of(r) == dotenv_outcome(bytes@, no_environment()),
        same_names(outcome_of(r), dotenv_outcome(bytes@, no_environment())),
        gives_names(outcome_of(r)),
        forall|s: Listing|
            are_named(s) && bytes@ == encode_utf8(#[trigger] rendered(s)) ==> outcome_of(r)
                == success(s),
{
    dotenvy::from_read_iter(bytes).collect::<Result<Vec<_>, _>>().map_err(
        |e|
            match e {
                dotenvy::Error::LineParse(line, index) => EnvError::Line { line, index },
                other => EnvError::Io { text: other.to_string() },
            },
    )
}

/// Whether a value stands for itself when written without quotes.
fn is_plain(cs: &[char]) -> (r: bool)
    ensures
        r == is_plain_value(cs@),
{
    let len: usize = cs.len();
    let mut i: usize = 0;
    while i < len
        invariant
            len == cs@.len(),
            i <= len,
            forall|k: int|
                0 <= k < i ==> {
                    let c = #[trigger] cs@[k];
                    c != '\n' && c != ' ' && c != '\t' && c != '\\' && c != '"' && c != '\'' && c
                        != '$'
                },
            forall|k: int|
                0 < k < i && #[trigger] cs@[k] == '#' ==> !text::is_space(cs@[k - 1]),
        decreases len - i,
    {
        let c: char = cs[i];
        if c == '\n' || c == ' ' || c == '\t' || c == '\\' || c == '"' || c == '\'' || c == '$' {
            return false;
        }
        if c == '#' && i > 0 && text::is_whitespace(cs[i - 1]) {
            assert(cs@[i as int] == '#');
            return false;
        }
        i = i + 1;
    }
    len == 0 || (cs[0] != '#' && !text::is_whitespace(cs[0]) && !text::is_whitespace(cs[len - 1]))
}

/// A value as it is written in `.env` text: one that does not stand for itself
/// goes between double quotes.
pub fn write_text(value: &str) -> (r: String)
    ensures
        r@ == written(value@),
{
    let cs: Vec<char> = text::chars_of(value);
    if is_plain(&cs) {
        return text::text(value);
    }
    let mut out: String = String::new();
    out.push('"');
    let ghost head: Seq<char> = seq!['"'];
    assert(out@ =~= head + escaped(cs@.take(0)));
    let mut i: usize = 0;
    while i < cs.len()
        invariant
            i <= cs@.len(),
            cs@ == value@,
            out@ == head + escaped(cs@.take(i as int)),
        decreases cs@.len() - i,
    {
        let c: char = cs[i];
        let ghost done: Seq<char> = out@;
        assert(cs@.take(i as int + 1).drop_last() =~= cs@.take(i as int));
        if c == '\n' {
            out.push('\\');
            out.push('n');
        } else {
            if c == '\\' || c == '"' || c == '$' {
                out.push('\\');
            }
            out.push(c);
        }
        assert(out@ =~= done + escaped_char(c));
        assert(out@ =~= head + escaped(cs@.take(i as int + 1)));
        i = i + 1;
    }
    assert(cs@.take(i as int) =~= cs@);
    let ghost done: Seq<char> = out@;
    out.push('"');
    assert(out@ =~= done + seq!['"']);
    out
}

/// The values that a list of assignments leaves, where a later one wins.
pub open spec fn tabled(o: Outcome) -> Outcome {
    match o {
        Ok(s) => Ok(vars::table(s)),
        Err(e) => Err(e),
    }
}

/// The values that a list of assignments leaves, where a later one wins.
pub fn env_table(items: Result<Vec<(String, String)>, EnvError>) -> (r: Result<Vars, EnvError>)
    ensures
        vars_of(r) == tabled(outcome_of(items)),
{
    match items {
        Ok(v) => Ok(Vars::from_pairs(&v)),
        Err(e) => Err(e),
    }
}

/// Parse `.env` text into named values.
pub fn parse_env(bytes: &[u8]) -> (r: Result<Vars, EnvError>)
    ensures
        exists|o: Outcome| #[trigger] reads_as(bytes@, o) && vars_of(r) == tabled(o),
{
    let items: Result<Vec<(String, String)>, EnvError> = dotenv_items(bytes);
    assert(reads_as(bytes@, outcome_of(items)));
    env_table(items)
}

/// An error as one sentence.
pub open spec fn error_text(e: EnvErrorView) -> Seq<char> {
    match e {
        EnvErrorView::Line { line, index } => "Error parsing line: '"@ + line
            + "', error at line index: "@ + text::decimal(index),
        EnvErrorView::Io { text } => text,
    }
}

/// An error with its cause: an input error is its own cause.
pub open spec fn error_chain_text(e: EnvErrorView) -> Seq<char> {
    match e {
        EnvErrorView::Line { .. } => error_text(e),
        EnvErrorView::Io { text } => text + ": "@ + text,
    }
}

impl EnvError {
    /// This error as one sentence.
    pub fn message(&self) -> (r: String)
        ensures
            r@ == error_text(self@),
    {
        match self {
            EnvError::Line { line, index } => text::text("Error parsing line: '").concat(
                line.as_str(),
            ).concat("', error at line index: ").concat(
                text::decimal_text(*index as u64).as_str(),
            ),
            EnvError::Io { text } => text.clone(),
        }
    }

    /// This error with its cause.
    pub fn chain_message(&self) -> (r: String)
        ensures
            r@ == error_chain_text(self@),
    {
        match self {
            EnvError::Line { .. } => self.message(),
            EnvError::Io { text } => text.clone().concat(": ").concat(text.as_str()),
        }
    }
}

/// The values of a source, or the reply that ends the request.
pub type Values = Result<Listing, ResponseView>;

/// The contents of named values, or of a reply.
pub open spec fn values_of(r: Result<Vars, Response>) -> Values {
    match r {
        Ok(v) => Ok(v@),
        Err(resp) => Err(resp@),
    }
}

/// The values of the `.env` source `key`, or the error reply.
pub open spec fn env_values_of(key: Seq<char>, parsed: Outcome) -> Values {
    match parsed {
        Ok(s) => Ok(s),
        Err(e) => Err(
            ResponseView::Error { message: "reading "@ + key + ": "@ + error_chain_text(e) },
        ),
    }
}

/// The values of the `.env` source `key`, or the error reply, for parsed text.
pub fn env_values(key: &str, parsed: Result<Vars, EnvError>) -> (r: Result<Vars, Response>)
    ensures
        values_of(r) == env_values_of(key@, vars_of(parsed)),
{
    match parsed {
        Ok(v) => Ok(v),
        Err(e) => Err(
            Response::Error {
                message: text::text("reading ").concat(key).concat(": ").concat(
                    e.chain_message().as_str(),
                ),
            },
        ),
    }
}

/// The values of the `.env` source `key`, or the error reply, for the contents
/// of its file or the text of the error that reading it gave.
pub fn read_env(key: &str, contents: Result<Vec<u8>, String>) -> (r: Result<Vars, Response>)
    ensures
        match contents {
            Ok(bytes) => exists|o: Outcome| #[trigger]
                reads_as(bytes@, o) && values_of(r) == env_values_of(key@, tabled(o)),
            Err(e) => values_of(r) == env_values_of(key@, Err(EnvErrorView::Io { text: e@ })),
        },
{
    match contents {
        Ok(bytes) => env_values(key, parse_env(bytes.as_slice())),
        Err(e) => env_values(key, Err(EnvError::Io { text: e })),
    }
}

// ---------------------------------------------------------------------------
// What holds of what is written and read

/// What a text between double quotes stands for: a `\` takes the next character
/// as it is, but for an `n`, which stands for a line break. A bare quote, `$` or
/// line break stands for no character.
pub open spec fn unescaped(s: Seq<char>) -> Option<Seq<char>>
    decreases s.len(),
{
    if s.len() == 0 {
        Some(Seq::empty())
    } else if s[0] == '\\' && s.len() > 1 {
        match unescaped(s.skip(2)) {
            Some(rest) => Some(
                seq![
                    if s[1] == 'n' {
                        '\n'
                    } else {
                        s[1]
                    },
                ] + rest,
            ),
            None => None,
        }
    } else if s[0] == '\\' || s[0] == '"' || s[0] == '$' || s[0] == '\n' {
        None
    } else {
        match unescaped(s.drop_first()) {
            Some(rest) => Some(seq![s[0]] + rest),
            None => None,
        }
    }
}

proof fn escaped_from_the_left(value: Seq<char>)
    requires
        value.len() > 0,
    ensures
        escaped(value) == escaped_char(value[0]) + escaped(value.drop_first()),
    decreases value.len(),
{
    let tail = value.drop_first();
    if tail.len() == 0 {
        let none: Seq<char> = Seq::empty();
        assert(value.drop_last() =~= none);
        assert(tail =~= none);
        assert(escaped(none) =~= none);
        assert(escaped(value) =~= escaped_char(value[0]) + escaped(tail));
    } else {
        let front = value.drop_last();
        escaped_from_the_left(front);
        assert(front.drop_first() =~= tail.drop_last());
        assert(tail.last() == value.last());
        assert(escaped(value) =~= escaped_char(value[0]) + escaped(tail));
    }
}

proof fn escapes_read_back(value: Seq<char>)
    ensures
        unescaped(escaped(value)) == Some(value),
    decreases value.len(),
{
    if value.len() == 0 {
        assert(escaped(value) =~= Seq::empty());
        assert(value =~= Seq::empty());
    } else {
        let tail = value.drop_first();
        escapes_read_back(tail);
        escaped_from_the_left(value);
        let e = escaped(value);
        let c = value[0];
        if escaped_char(c).len() == 2 {
            assert(e.skip(2) =~= escaped(tail));
        } else {
            assert(e.drop_first() =~= escaped(tail));
        }
        assert(seq![c] + tail =~= value);
    }
}

/// Nothing in a value has a meaning of its own when it stands without quotes: no
/// blank, line break, quote, escape or `$`, and no `#` that starts a comment.
pub open spec fn needs_no_quotes(value: Seq<char>) -> bool {
    &&& !value.contains('\n') && !value.contains(' ') && !value.contains('\t')
    &&& !value.contains('\\') && !value.contains('"') && !value.contains('\'')
    &&& !value.contains('$')
    &&& value.len() > 0 ==> value[0] != '#' && !text::is_space(value[0]) && !text::is_space(
        value.last(),
    )
}

/// A value is written as it is where it stands for itself, and otherwise between
/// double quotes, as a text that stands for it.
pub proof fn what_is_written_stands_for_the_value(value: Seq<char>)
    ensures
        written(value) == value || exists|inner: Seq<char>|
            written(value) == seq!['"'] + inner + seq!['"'] && #[trigger] unescaped(inner) == Some(value),
        written(value) == value ==> needs_no_quotes(value),
{
    escapes_read_back(value);
    if !is_plain_value(value) {
        assert(unescaped(escaped(value)) == Some(value));
        if written(value) == value {
            let inner = escaped(value);
            escaping_only_adds(value);
            assert(written(value).len() == inner.len() + 2);
        }
    }
}

proof fn escaping_only_adds(value: Seq<char>)
    ensures
        escaped(value).len() >= value.len(),
    decreases value.len(),
{
    if value.len() > 0 {
        escaping_only_adds(value.drop_last());
    }
}

/// A file gives each of its names the last value that it assigns, and no other
/// name one; a file of written assignments gives exactly those.
pub proof fn a_file_gives_its_values(key: Seq<char>, bytes: Seq<u8>, s: Listing, name: Seq<char>)
    ensures
        env_values_of(key, tabled(success(s))) matches Ok(values) && vars::is_sorted(values)
            && vars::lookup(values, name) == vars::lookup(s, name),
        are_named(s) && bytes == encode_utf8(rendered(s)) ==> forall|o: Outcome| #[trigger]
            reads_as(bytes, o) ==> o == success(s),
{
    vars::table_then_lookup(s, name);
    vars::table_is_sorted(s);
}

/// A file that cannot be read, or is no `.env` text, gives no values: the reply
/// names the file and the reason, and for a line that is no assignment that line
/// and where in it the error is.
pub proof fn a_bad_file_gives_no_values(
    key: Seq<char>,
    line: Seq<char>,
    index: nat,
    reason: Seq<char>,
)
    ensures
        env_values_of(key, tabled(Err(EnvErrorView::Line { line, index }))) == Err::<
            Listing,
            ResponseView,
        >(
            ResponseView::Error {
                message: "reading "@ + key + ": "@ + ("Error parsing line: '"@ + line
                    + "', error at line index: "@ + text::decimal(index)),
            },
        ),
        env_values_of(key, tabled(Err(EnvErrorView::Io { text: reason }))) == Err::<
            Listing,
            ResponseView,
        >(ResponseView::Error { message: "reading "@ + key + ": "@ + (reason + ": "@ + reason) }),
        error_text(EnvErrorView::Io { text: reason }) == reason,
        error_text(EnvErrorView::Line { line, index }) == "Error parsing line: '"@ + line
            + "', error at line index: "@ + text::decimal(index),
{
}

/// Assignments are written one after the other, each on a line of its own.
pub proof fn every_assignment_is_written(s: Listing, name: Seq<char>, value: Seq<char>)
    ensures
        rendered(Seq::empty()) == Seq::<char>::empty(),
        rendered(s.push((name, value))) == rendered(s) + name + "="@ + written(value) + "\n"@,
{
    assert(s.push((name, value)).drop_last() =~= s);
}

} // verus!
