//! Human-approval gates.
//!
//! The grant of a source and the use of it by a command both go through a gate.
//! The daemon runs where the user controls it, outside the agent's sandbox, so
//! a gate is a checkpoint that the agent cannot answer on the user's behalf.

use vstd::prelude::*;
use vstd::string::*;

use crate::text;

verus! {

/// Anything that can ask the user to approve an action.
pub trait ApprovalGate {
    /// Show `prompt` and return whether the user approved.
    fn approve(&self, prompt: &str) -> (r: bool);
}

/// Approve everything without prompting. For tests and `--no-gate` only.
#[derive(Debug, Clone, Copy)]
pub struct AllowAllGate;

impl ApprovalGate for AllowAllGate {
    fn approve(&self, _prompt: &str) -> (r: bool)
        ensures
            r,
    {
        true
    }
}

/// Approve by a yes/no answer on the daemon's own terminal.
#[derive(Debug, Clone, Copy)]
pub struct CliGate;

/// Lines with a bar before each.
pub open spec fn barred(lines: Seq<Seq<char>>) -> Seq<char>
    decreases lines.len(),
{
    if lines.len() == 0 {
        Seq::empty()
    } else {
        barred(lines.drop_last()) + "│ "@ + lines.last() + "\n"@
    }
}

/// A prompt as the terminal shows it.
pub open spec fn framed_prompt(prompt: Seq<char>) -> Seq<char> {
    "\n┌─ sx approval ─────────────────────────────\n"@ + barred(text::line_seq(prompt))
        + "└─ approve? [y/N] "@
}

/// Whether an answer line is a yes.
pub open spec fn is_yes(line: Seq<char>) -> bool {
    let word = text::trimmed(line).map_values(|c: char| text::lower(c));
    word == "y"@ || word == "yes"@
}

impl CliGate {
    /// A prompt as the terminal shows it.
    pub fn question(&self, prompt: &str) -> (r: String)
        ensures
            r@ == framed_prompt(prompt@),
    {
        let lines: Vec<String> = text::lines(prompt);
        let ghost all: Seq<Seq<char>> = text::line_seq(prompt@);
        let ghost head: Seq<char> = "\n┌─ sx approval ─────────────────────────────\n"@;
        let mut out: String = text::text("\n┌─ sx approval ─────────────────────────────\n");
        let mut i: usize = 0;
        assert(out@ =~= head + barred(all.take(0)));
        while i < lines.len()
            invariant
                i <= lines@.len(),
                all == text::texts(lines@),
                out@ == head + barred(all.take(i as int)),
            decreases lines@.len() - i,
        {
            let ghost done: Seq<char> = out@;
            proof {
                assert(all.take(i as int + 1).drop_last() =~= all.take(i as int));
            }
            out.append("│ ");
            out.append(lines[i].as_str());
            out.append("\n");
            assert(out@ =~= head + barred(all.take(i as int + 1)));
            i = i + 1;
        }
        assert(all.take(i as int) =~= all);
        out.concat("└─ approve? [y/N] ")
    }

    /// Whether the answer is a yes: the line that was read, or `None` if it
    /// could not be read.
    pub fn answer(&self, line: Option<String>) -> (r: bool)
        ensures
            r == (line matches Some(l) && is_yes(l@)),
    {
        match line {
            Some(l) => {
                let word: String = text::lowercase(text::trim(l.as_str()).as_str());
                text::same(word.as_str(), "y") || text::same(word.as_str(), "yes")
            },
            None => false,
        }
    }
}

/// Biometric gate: presents the system TouchID / passcode sheet. Falls back to
/// `fallback` only when the policy cannot be evaluated at all, never on a user
/// "cancel", which is a deliberate denial.
#[derive(Debug)]
pub struct TouchIdGate<G> {
    fallback: G,
}

/// A prompt on one line.
pub open spec fn flattened(prompt: Seq<char>) -> Seq<char> {
    text::joined(
        text::pieces(prompt, '\n').map_values(|p: Seq<char>| text::trimmed(p)),
        " — "@,
    )
}

impl<G> TouchIdGate<G> {
    /// What is asked when the sheet cannot be shown.
    pub closed spec fn fallback(&self) -> G {
        self.fallback
    }
}

impl<G: ApprovalGate> TouchIdGate<G> {
    /// A gate with this fallback.
    pub fn new(fallback: G) -> (r: TouchIdGate<G>)
        ensures
            r.fallback() == fallback,
    {
        TouchIdGate { fallback }
    }

    /// What the sheet shows: the prompt on one line. `None` for a prompt with a
    /// NUL, which the sheet cannot show: that is refused rather than guessed.
    pub fn reason(&self, prompt: &str) -> (r: Option<String>)
        ensures
            match r {
                Some(s) => s@ == flattened(prompt@) && !flattened(prompt@).contains('\0'),
                None => flattened(prompt@).contains('\0'),
            },
    {
        let pieces: Vec<String> = text::split(prompt, '\n');
        let ghost all: Seq<Seq<char>> = text::pieces(prompt@, '\n');
        let ghost goal: Seq<Seq<char>> = all.map_values(|p: Seq<char>| text::trimmed(p));
        let mut trimmed: Vec<String> = Vec::new();
        let mut i: usize = 0;
        while i < pieces.len()
            invariant
                i <= pieces@.len(),
                all == text::texts(pieces@),
                goal == all.map_values(|p: Seq<char>| text::trimmed(p)),
                text::texts(trimmed@) == goal.take(i as int),
            decreases pieces@.len() - i,
        {
            let ghost done: Seq<Seq<char>> = text::texts(trimmed@);
            let t: String = text::trim(pieces[i].as_str());
            trimmed.push(t);
            proof {
                assert(text::texts(trimmed@) =~= done.push(t@));
                assert(goal.take(i as int + 1) =~= done.push(t@));
            }
            i = i + 1;
        }
        assert(goal.take(i as int) =~= goal);
        let line: String = text::join(trimmed.as_slice(), " — ");
        match text::split_once(line.as_str(), '\0') {
            Some(_) => None,
            None => Some(line),
        }
    }

    /// The decision, for the outcome of the sheet: 1 is a yes, 0 is a no, and
    /// anything else leaves it to the fallback.
    pub fn decide(&self, outcome: i32, prompt: &str) -> (r: bool)
        ensures
            outcome == 1 ==> r,
            outcome == 0 ==> !r,
            outcome != 0 && outcome != 1 ==> call_ensures(G::approve, (&self.fallback(), prompt), r),
    {
        if outcome == 1 {
            true
        } else if outcome == 0 {
            false
        } else {
            self.fallback.approve(prompt)
        }
    }
}

// ---------------------------------------------------------------------------
// What holds of every prompt and every answer

/// Only `y` and `yes`, in capitals or not and with any whitespace around, are a
/// yes.
pub proof fn only_yes_is_a_yes(line: Seq<char>)
    ensures
        is_yes(line) <==> {
            let t = text::trimmed(line);
            ||| t.len() == 1 && (t[0] == 'y' || t[0] == 'Y')
            ||| t.len() == 3 && (t[0] == 'y' || t[0] == 'Y') && (t[1] == 'e' || t[1] == 'E') && (t[2]
                == 's' || t[2] == 'S')
        },
{
    let t = text::trimmed(line);
    let word = t.map_values(|c: char| text::lower(c));
    reveal_strlit("y");
    reveal_strlit("yes");
    assert forall|c: char| #[trigger] text::lower(c) == 'y' <==> c == 'y' || c == 'Y' by {}
    assert forall|c: char| #[trigger] text::lower(c) == 'e' <==> c == 'e' || c == 'E' by {}
    assert forall|c: char| #[trigger] text::lower(c) == 's' <==> c == 's' || c == 'S' by {}
    assert(is_yes(line) == (word == "y"@ || word == "yes"@));
    assert(word.len() == t.len());
    if t.len() == 1 {
        assert(word[0] == text::lower(t[0]));
        assert(word == "y"@ <==> word[0] == 'y') by {
            if word[0] == 'y' {
                assert(word =~= "y"@);
            }
        }
    } else if t.len() == 3 {
        assert(word[0] == text::lower(t[0]));
        assert(word[1] == text::lower(t[1]));
        assert(word[2] == text::lower(t[2]));
        assert("yes"@[0] == 'y' && "yes"@[1] == 'e' && "yes"@[2] == 's');
        if word[0] == 'y' && word[1] == 'e' && word[2] == 's' {
            assert(word =~= "yes"@);
        }
    }
}

proof fn barred_from_the_left(first: Seq<char>, rest: Seq<Seq<char>>)
    ensures
        barred(seq![first] + rest) == "│ "@ + first + "\n"@ + barred(rest),
    decreases rest.len(),
{
    let all = seq![first] + rest;
    if rest.len() == 0 {
        assert(all.drop_last() =~= Seq::empty());
        reveal_with_fuel(barred, 2);
        assert(barred(all) =~= "│ "@ + first + "\n"@ + barred(rest));
    } else {
        assert(all.drop_last() =~= seq![first] + rest.drop_last());
        barred_from_the_left(first, rest.drop_last());
        assert(barred(all) =~= "│ "@ + first + "\n"@ + barred(rest));
    }
}

/// The terminal shows the whole prompt between its head and its question: every
/// line behind a bar, one below the other.
pub proof fn every_line_is_shown(body: Seq<char>, line: Seq<char>, rest: Seq<char>)
    requires
        !line.contains('\n'),
        line.len() > 0 ==> line.last() != '\r',
    ensures
        ({
            let head = "\n┌─ sx approval ─────────────────────────────\n"@;
            let foot = "└─ approve? [y/N] "@;
            &&& framed_prompt(Seq::empty()) == head + foot
            &&& line.len() > 0 ==> framed_prompt(line) == head + "│ "@ + line + "\n"@ + foot
            &&& framed_prompt(rest) == head + body + foot ==> framed_prompt(
                line.push('\n') + rest,
            ) == head + ("│ "@ + line + "\n"@ + body) + foot
        }),
{
    let head = "\n┌─ sx approval ─────────────────────────────\n"@;
    let foot = "└─ approve? [y/N] "@;
    let none: Seq<char> = Seq::empty();
    let no_lines: Seq<Seq<char>> = Seq::empty();
    assert(text::line_seq(none) =~= no_lines);
    assert(framed_prompt(none) =~= head + foot);
    text::a_text_without_breaks_is_one_line(line, none);
    barred_from_the_left(line, no_lines);
    assert(seq![line] + no_lines =~= seq![line]);
    if line.len() > 0 {
        assert(framed_prompt(line) =~= head + "│ "@ + line + "\n"@ + foot);
    }
    text::lines_of_both(line, rest);
    if line.len() > 0 {
        assert(line.contains(line.last()));
    } else {
        assert(line =~= none);
    }
    assert(text::line_seq(line.push('\n') + rest) =~= seq![line] + text::line_seq(rest));
    barred_from_the_left(line, text::line_seq(rest));
    if framed_prompt(rest) == head + body + foot {
        let shown = barred(text::line_seq(rest));
        assert(framed_prompt(rest) == head + shown + foot);
        assert(shown.len() == body.len());
        assert forall|i: int| 0 <= i < body.len() implies shown[i] == body[i] by {
            assert((head + shown + foot)[head.len() + i] == shown[i]);
            assert((head + body + foot)[head.len() + i] == body[i]);
        }
        assert(shown =~= body);
    }
}

/// The sheet shows the whole prompt on one line: each line trimmed, with a dash
/// between each two.
pub proof fn a_prompt_is_shown_on_one_line(line: Seq<char>, rest: Seq<char>)
    requires
        !line.contains('\n'),
    ensures
        flattened(line) == text::trimmed(line),
        flattened(line.push('\n') + rest) == text::trimmed(line) + " — "@ + flattened(rest),
{
    let trim = |p: Seq<char>| text::trimmed(p);
    let whole = line.push('\n') + rest;
    let k = line.len() as int;
    assert(text::pieces(line, '\n') =~= seq![line]);
    assert(seq![line].map_values(trim) =~= seq![text::trimmed(line)]);
    assert forall|i: int| 0 <= i < k implies whole[i] != '\n' by {
        assert(line.contains(line[i]));
    }
    assert(whole[k] == '\n');
    assert(whole.contains('\n'));
    text::cut_unique(whole, '\n', k);
    assert(whole.take(k) =~= line);
    assert(whole.skip(k + 1) =~= rest);
    let tail = text::pieces(rest, '\n');
    text::pieces_make_up_the_text(rest, '\n');
    assert(text::pieces(whole, '\n') =~= seq![line] + tail);
    assert((seq![line] + tail).map_values(trim) =~= seq![text::trimmed(line)] + tail.map_values(
        trim,
    ));
    text::joined_from_the_left(text::trimmed(line), tail.map_values(trim), " — "@);
}

} // verus!
