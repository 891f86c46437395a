//! Producing the values of a source: reading its `.env` file, or minting
//! temporary AWS credentials with the `aws` CLI.
//!
//! The CLI is spawned by the absolute path in `$SX_AWS_PATH` or in the config
//! file, never by a search of `$PATH`. What it prints on failure goes into a
//! refusal and never into a grant.

use vstd::prelude::*;
use vstd::string::*;
use vstd::utf8::*;

use crate::config;
use crate::env_file;
use crate::env_file::{EnvError, Outcome, Values};
use crate::paths::FilePath;
use crate::proto::{Response, ResponseView};
use crate::source::{Source, SourceView};
use crate::text;
use crate::vars;
use crate::vars::{Listing, Vars};

verus! {

/// Environment override for the configured `aws` CLI path, taking precedence
/// over `~/.sx/config`.
pub const AWS_PATH_ENV: &'static str = "SX_AWS_PATH";

/// What is still to be done for the values of a source.
#[derive(Debug)]
pub enum Fetch {
    /// Read this file.
    ReadFile { path: FilePath, key: String },
    /// Read the config file.
    ReadConfig { profile: String },
    /// Find out whether this path is an executable file.
    Probe { path: FilePath, profile: String },
    /// Run this program with these arguments and collect what it prints.
    Spawn { path: FilePath, args: Vec<String>, profile: String },
    /// Nothing: these are the values, or the reply that ends the request.
    Ready { values: Result<Vars, Response> },
}

/// The contents of a [`Fetch`].
pub enum FetchView {
    ReadFile { path: Seq<u8>, key: Seq<char> },
    ReadConfig { profile: Seq<char> },
    Probe { path: Seq<u8>, profile: Seq<char> },
    Spawn { path: Seq<u8>, args: Seq<Seq<char>>, profile: Seq<char> },
    Ready { values: Values },
}

impl View for Fetch {
    type V = FetchView;

    open spec fn view(&self) -> FetchView {
        match *self {
            Fetch::ReadFile { path, key } => FetchView::ReadFile { path: path@, key: key@ },
            Fetch::ReadConfig { profile } => FetchView::ReadConfig { profile: profile@ },
            Fetch::Probe { path, profile } => FetchView::Probe {
                path: path@,
                profile: profile@,
            },
            Fetch::Spawn { path, args, profile } => FetchView::Spawn {
                path: path@,
                args: text::texts(args@),
                profile: profile@,
            },
            Fetch::Ready { values } => FetchView::Ready { values: env_file::values_of(values) },
        }
    }
}

/// What a finished program left behind.
#[derive(Debug)]
pub struct Output {
    pub success: bool,
    pub stdout: Vec<u8>,
    pub stderr: Vec<u8>,
}

/// The first thing to do for the values of a source.
pub open spec fn fetch_of(s: SourceView, aws_path: Option<Seq<u8>>) -> FetchView {
    match s {
        SourceView::Env { key, path } => FetchView::ReadFile { path, key },
        SourceView::Aws { profile, .. } => match aws_path {
            Some(p) if p.len() > 0 => FetchView::Probe { path: p, profile },
            _ => FetchView::ReadConfig { profile },
        },
    }
}

/// The reply when no `aws` CLI path is configured.
pub open spec fn unconfigured() -> ResponseView {
    ResponseView::Error {
        message:
            "AWS CLI path is not configured; run `sxd setup` (or `sxd install`) to record it in ~/.sx/config."@,
    }
}

/// What follows the reading of the configured `aws` CLI path.
pub open spec fn configured_of(
    value: Result<Option<Seq<char>>, Seq<char>>,
    profile: Seq<char>,
) -> FetchView {
    match value {
        Ok(Some(p)) => FetchView::Probe { path: encode_utf8(p), profile },
        Ok(None) => FetchView::Ready { values: Err(unconfigured()) },
        Err(e) => FetchView::Ready {
            values: Err(
                ResponseView::Error {
                    message: "cannot read ~/.sx/config: "@ + e + "; run `sxd setup`."@,
                },
            ),
        },
    }
}

/// The arguments that export the credentials of a profile.
pub open spec fn export_args(profile: Seq<char>) -> Seq<Seq<char>> {
    seq![
        "configure"@,
        "export-credentials"@,
        "--profile"@,
        profile,
        "--format"@,
        "env-no-export"@,
    ]
}

/// What follows the probe of the `aws` CLI path.
pub open spec fn probed_of(path: Seq<u8>, executable: bool, profile: Seq<char>) -> FetchView {
    if executable {
        FetchView::Spawn { path, args: export_args(profile), profile }
    } else {
        FetchView::Ready {
            values: Err(
                ResponseView::Error {
                    message: "configured aws CLI path "@ + text::lossy(path)
                        + " does not exist or isn't executable; re-run `sxd setup` (the CLI may have moved)."@,
                },
            ),
        }
    }
}

/// The `NAME=VALUE` pair on a line, if there is one: the value is all that
/// follows the first `=`.
pub open spec fn export_pair(line: Seq<char>) -> Option<(Seq<char>, Seq<char>)> {
    let k = text::cut(line, '=');
    if line.contains('=') {
        Some((text::trimmed(line.take(k)), line.skip(k + 1)))
    } else {
        None
    }
}

/// The `NAME=VALUE` pairs on lines, in order.
pub open spec fn export_pairs(lines: Seq<Seq<char>>) -> Listing
    decreases lines.len(),
{
    if lines.len() == 0 {
        Seq::empty()
    } else {
        match export_pair(lines.last()) {
            Some(p) => export_pairs(lines.drop_last()).push(p),
            None => export_pairs(lines.drop_last()),
        }
    }
}

/// The values that the printed lines of an export give.
pub open spec fn exported(printed: Seq<char>) -> Listing {
    vars::table(export_pairs(text::line_seq(printed)))
}

/// What the end of the `aws` CLI comes to.
pub open spec fn minted_of(
    path: Seq<u8>,
    profile: Seq<char>,
    outcome: Result<Output, String>,
) -> Values {
    match outcome {
        Ok(o) => if o.success {
            Ok(exported(text::lossy(o.stdout@)))
        } else {
            Err(
                ResponseView::Denied {
                    reason: "aws could not export credentials for profile "@ + profile + ": "@
                        + text::trimmed(text::lossy(o.stderr@)),
                },
            )
        },
        Err(e) => Err(
            ResponseView::Error {
                message: "cannot run `"@ + text::lossy(path)
                    + "` to mint credentials for profile "@ + profile + ": "@ + e@
                    + " (re-run `sxd setup` — the AWS CLI may have moved)"@,
            },
        ),
    }
}

impl Source {
    /// The first thing to do for the values of this source, for a given
    /// `$SX_AWS_PATH`.
    pub fn values(&self, aws_path: Option<FilePath>) -> (r: Fetch)
        ensures
            r@ == fetch_of(self@, config::opt_path(aws_path)),
    {
        match self {
            Source::Env { key, path } => Fetch::ReadFile { path: path.copy(), key: key.clone() },
            Source::Aws { profile, .. } => resolve_aws_cli(aws_path, profile.as_str()),
        }
    }
}

/// The first thing to do for the absolute path of the `aws` CLI: probe the one
/// in `$SX_AWS_PATH` if that is set, otherwise read the config file.
pub fn resolve_aws_cli(aws_path: Option<FilePath>, profile: &str) -> (r: Fetch)
    ensures
        r@ == match config::opt_path(aws_path) {
            Some(p) if p.len() > 0 => FetchView::Probe { path: p, profile: profile@ },
            _ => FetchView::ReadConfig { profile: profile@ },
        },
{
    match aws_path {
        Some(p) => if p.as_bytes().len() > 0 {
            Fetch::Probe { path: p, profile: text::text(profile) }
        } else {
            Fetch::ReadConfig { profile: text::text(profile) }
        },
        None => Fetch::ReadConfig { profile: text::text(profile) },
    }
}

/// The contents of a configured value, or of the text of an error.
pub open spec fn setting_of(value: Result<Option<String>, String>) -> Result<
    Option<Seq<char>>,
    Seq<char>,
> {
    match value {
        Ok(Some(p)) => Ok(Some(p@)),
        Ok(None) => Ok(None),
        Err(e) => Err(e@),
    }
}

/// What follows the reading of the configured `aws` CLI path.
pub fn aws_cli_configured(value: Result<Option<String>, String>, profile: &str) -> (r: Fetch)
    ensures
        r@ == configured_of(setting_of(value), profile@),
{
    match value {
        Ok(Some(p)) => Fetch::Probe {
            path: FilePath::from_text(p.as_str()),
            profile: text::text(profile),
        },
        Ok(None) => Fetch::Ready {
            values: Err(
                Response::Error {
                    message: text::text(
                        "AWS CLI path is not configured; run `sxd setup` (or `sxd install`) to record it in ~/.sx/config.",
                    ),
                },
            ),
        },
        Err(e) => Fetch::Ready {
            values: Err(
                Response::Error {
                    message: text::text("cannot read ~/.sx/config: ").concat(e.as_str()).concat(
                        "; run `sxd setup`.",
                    ),
                },
            ),
        },
    }
}

/// The setting that a config file holds for the `aws` CLI path, when reading
/// the file came to `o`.
pub open spec fn setting_in(o: Outcome) -> Result<Option<Seq<char>>, Seq<char>> {
    match config::value_in(env_file::tabled(o), config::AWS_CLI_PATH@) {
        Ok(v) => Ok(v),
        Err(e) => Err(env_file::error_text(e)),
    }
}

/// What follows the reading of the config file: `Ok(None)` for a file that does
/// not exist, `Err` with the text of an error.
pub fn config_read(file: Result<Option<Vec<u8>>, String>, profile: &str) -> (r: Fetch)
    ensures
        match file {
            Ok(Some(bytes)) => exists|o: Outcome| #[trigger]
                env_file::reads_as(bytes@, o) && r@ == configured_of(setting_in(o), profile@),
            Ok(None) => r@ == (FetchView::Ready { values: Err(unconfigured()) }),
            Err(e) => r@ == configured_of(Err(e@), profile@),
        },
{
    match file {
        Ok(contents) => {
            let got: Result<Option<String>, EnvError> = match &contents {
                Some(bytes) => config::get(Some(bytes.as_slice()), config::AWS_CLI_PATH),
                None => config::get(None, config::AWS_CLI_PATH),
            };
            proof {
                if contents is None {
                    assert(vars::table(Seq::empty()) =~= Seq::empty());
                } else {
                    let bytes = contents->0@;
                    let o = choose|o: Outcome| #[trigger]
                        config::file_reads_as(Some(bytes), o) && config::value_of(got)
                            == config::value_in(env_file::tabled(o), config::AWS_CLI_PATH@);
                    assert(env_file::reads_as(bytes, o));
                }
            }
            match got {
                Ok(v) => aws_cli_configured(Ok(v), profile),
                Err(e) => aws_cli_configured(Err(e.message()), profile),
            }
        },
        Err(e) => aws_cli_configured(Err(e), profile),
    }
}

/// What follows the probe of the `aws` CLI path.
pub fn aws_cli_probed(path: FilePath, executable: bool, profile: &str) -> (r: Fetch)
    ensures
        r@ == probed_of(path@, executable, profile@),
{
    if executable {
        let mut args: Vec<String> = Vec::new();
        args.push(text::text("configure"));
        args.push(text::text("export-credentials"));
        args.push(text::text("--profile"));
        args.push(text::text(profile));
        args.push(text::text("--format"));
        args.push(text::text("env-no-export"));
        assert(text::texts(args@) =~= export_args(profile@));
        Fetch::Spawn { path, args, profile: text::text(profile) }
    } else {
        Fetch::Ready {
            values: Err(
                Response::Error {
                    message: text::text("configured aws CLI path ").concat(
                        path.display().as_str(),
                    ).concat(
                        " does not exist or isn't executable; re-run `sxd setup` (the CLI may have moved).",
                    ),
                },
            ),
        }
    }
}

/// The credentials that the end of the `aws` CLI gives, or the reply: what it
/// printed on failure is part of a refusal, never of the values.
pub fn mint_aws(path: &FilePath, profile: &str, outcome: Result<Output, String>) -> (r: Result<
    Vars,
    Response,
>)
    ensures
        env_file::values_of(r) == minted_of(path@, profile@, outcome),
        (outcome matches Ok(o) && o.success && valid_utf8(o.stdout@)) ==> env_file::values_of(r)
            == Ok::<Listing, ResponseView>(exported(decode_utf8(outcome->Ok_0.stdout@))),
{
    match outcome {
        Ok(o) => if o.success {
            Ok(parse_env_no_export(text::lossy_text(o.stdout.as_slice()).as_str()))
        } else {
            let stderr: String = text::lossy_text(o.stderr.as_slice());
            Err(
                Response::Denied {
                    reason: text::text("aws could not export credentials for profile ").concat(
                        profile,
                    ).concat(": ").concat(text::trim(stderr.as_str()).as_str()),
                },
            )
        },
        Err(e) => Err(
            Response::Error {
                message: text::text("cannot run `").concat(path.display().as_str()).concat(
                    "` to mint credentials for profile ",
                ).concat(profile).concat(": ").concat(e.as_str()).concat(
                    " (re-run `sxd setup` — the AWS CLI may have moved)",
                ),
            },
        ),
    }
}

/// Parse the `KEY=VALUE` lines printed by
/// `aws configure export-credentials --format env-no-export`.
///
/// Values are taken verbatim: everything after the first `=` up to the end of
/// the line. A line without `=` is skipped.
pub fn parse_env_no_export(printed: &str) -> (r: Vars)
    ensures
        r@ == exported(printed@),
{
    let lines: Vec<String> = text::lines(printed);
    let ghost all: Seq<Seq<char>> = text::line_seq(printed@);
    let mut found: Vec<(String, String)> = Vec::new();
    let mut i: usize = 0;
    assert(text::pairs(found@) =~= export_pairs(all.take(0)));
    while i < lines.len()
        invariant
            i <= lines@.len(),
            all == text::texts(lines@),
            text::pairs(found@) == export_pairs(all.take(i as int)),
        decreases lines@.len() - i,
    {
        let ghost done: Listing = text::pairs(found@);
        proof {
            assert(all.take(i as int + 1).drop_last() =~= all.take(i as int));
            assert(all.take(i as int + 1).last() == lines@[i as int]@);
        }
        match text::split_once(lines[i].as_str(), '=') {
            Some((k, v)) => {
                let name: String = text::trim(k.as_str());
                found.push((name, v));
                assert(text::pairs(found@) =~= done.push((name@, v@)));
            },
            None => {},
        }
        i = i + 1;
    }
    assert(all.take(i as int) =~= all);
    Vars::from_pairs(&found)
}

proof fn pairs_of_both(a: Seq<Seq<char>>, b: Seq<Seq<char>>)
    ensures
        export_pairs(a + b) == export_pairs(a) + export_pairs(b),
    decreases b.len(),
{
    if b.len() == 0 {
        assert(a + b =~= a);
        assert(export_pairs(a) + export_pairs(b) =~= export_pairs(a));
    } else {
        assert((a + b).drop_last() =~= a + b.drop_last());
        pairs_of_both(a, b.drop_last());
        assert(export_pairs(a + b) =~= export_pairs(a) + export_pairs(b));
    }
}

/// An empty line gives nothing.
proof fn a_gap_gives_nothing(x: Seq<Seq<char>>, gap: Seq<Seq<char>>, y: Seq<Seq<char>>)
    requires
        gap.len() == 0 || gap == seq![Seq::<char>::empty()],
    ensures
        vars::table(export_pairs(x + gap + y)) == vars::overridden(
            vars::table(export_pairs(x)),
            vars::table(export_pairs(y)),
        ),
{
    let none: Seq<Seq<char>> = Seq::empty();
    assert(export_pairs(gap) =~= Seq::empty()) by {
        if gap.len() > 0 {
            assert(gap.drop_last() =~= none);
            assert(text::cut(gap.last(), '=') == 0);
            assert(!gap.last().contains('='));
            assert(export_pairs(none) =~= Seq::empty());
        }
    }
    pairs_of_both(x + gap, y);
    pairs_of_both(x, gap);
    assert(export_pairs(x) + export_pairs(gap) =~= export_pairs(x));
    vars::table_of_both(export_pairs(x), export_pairs(y));
}

/// Lines count one by one: two texts with a line break between them give the
/// values of the first overridden by those of the second. (A first text that
/// ends in a bare carriage return would lose it to the line break.) A line break
/// may have a carriage return before it.
pub proof fn later_lines_override(a: Seq<char>, b: Seq<char>)
    ensures
        (a.len() > 0 ==> a.last() != '\r') ==> exported(a + "\n"@ + b) == vars::overridden(
            exported(a),
            exported(b),
        ),
        exported(a + "\r\n"@ + b) == vars::overridden(exported(a), exported(b)),
{
    reveal_strlit("\n");
    reveal_strlit("\r\n");
    assert(a + "\n"@ + b =~= a.push('\n') + b);
    assert("\r\n"@ =~= seq!['\r', '\n']);
    let x = text::line_seq(a);
    let y = text::line_seq(b);
    let none: Seq<Seq<char>> = Seq::empty();
    let gap = if a.len() == 0 || a.last() == '\n' {
        seq![Seq::<char>::empty()]
    } else {
        none
    };
    if a.len() > 0 ==> a.last() != '\r' {
        text::lines_of_both(a, b);
    }
    text::lines_end_in_a_carriage_return_or_not(a, b);
    a_gap_gives_nothing(x, gap, y);
}

/// A name and a value that an export prints as they are, on one line.
pub open spec fn is_exportable(p: (Seq<char>, Seq<char>)) -> bool {
    &&& text::trimmed(p.0) == p.0
    &&& !p.0.contains('=')
    &&& !p.0.contains('\n')
    &&& !p.1.contains('\n')
    &&& p.1.len() > 0 ==> p.1.last() != '\r'
}

/// Assignments as an export prints them: each on a line of its own.
pub open spec fn export_text(s: Listing) -> Seq<char>
    decreases s.len(),
{
    if s.len() == 0 {
        Seq::empty()
    } else {
        export_text(s.drop_last()) + s.last().0 + "="@ + s.last().1 + "\n"@
    }
}

/// An assignment on a line is read back.
proof fn a_line_reads_back(name: Seq<char>, value: Seq<char>)
    requires
        !name.contains('='),
    ensures
        export_pair(name + "="@ + value) == Some((text::trimmed(name), value)),
{
    let line = name + "="@ + value;
    let k = name.len() as int;
    reveal_strlit("=");
    assert(line[k] == '=');
    assert forall|i: int| 0 <= i < k implies line[i] != '=' by {
        assert(name.contains(name[i]));
    }
    text::cut_unique(line, '=', k);
    assert(line.take(k) =~= name);
    assert(line.skip(k + 1) =~= value);
}

/// A text without a line break is one line, if it is not empty.
proof fn one_line(line: Seq<char>)
    requires
        line.len() > 0,
        !line.contains('\n'),
    ensures
        text::line_seq(line) == seq![line],
{
}

proof fn exports_read_back(s: Listing)
    requires
        forall|i: int| 0 <= i < s.len() ==> is_exportable(#[trigger] s[i]),
    ensures
        export_pairs(text::line_seq(export_text(s))) == s,
        s.len() > 0 ==> export_text(s).len() > 1 && export_text(s).last() == '\n',
        s.len() > 0 ==> export_text(s)[export_text(s).len() - 2] != '\r',
        s.len() > 0 ==> export_text(s)[export_text(s).len() - 2] != '\n',
    decreases s.len(),
{
    let none: Seq<char> = Seq::empty();
    reveal_strlit("\n");
    reveal_strlit("=");
    if s.len() == 0 {
        assert(text::line_seq(export_text(s)) =~= Seq::empty());
        assert(export_pairs(text::line_seq(export_text(s))) =~= s);
    } else {
        let t = s.drop_last();
        let p = s[s.len() - 1];
        assert forall|i: int| 0 <= i < t.len() implies is_exportable(#[trigger] t[i]) by {
            assert(s[i] == t[i]);
        }
        exports_read_back(t);
        assert(is_exportable(p));
        let head = export_text(t);
        let line = p.0 + "="@ + p.1;
        let all = export_text(s);
        assert(all =~= head + line.push('\n'));
        assert(line.len() > 0 && line.last() != '\r' && line.last() != '\n') by {
            if p.1.len() > 0 {
                assert(line.last() == p.1.last());
                assert(p.1.contains(p.1.last()));
            } else {
                assert(line.last() == '=');
            }
        }
        assert(all[all.len() - 2] == line.last());
        assert forall|i: int| 0 <= i < line.len() implies line[i] != '\n' by {
            if i < p.0.len() {
                assert(p.0.contains(p.0[i]));
            } else if i > p.0.len() {
                assert(p.1.contains(p.1[i - p.0.len() - 1]));
            }
        }
        a_line_reads_back(p.0, p.1);
        one_line(line);
        text::lines_of_both(line, none);
        assert(line.push('\n') + none =~= line.push('\n'));
        assert(text::line_seq(line.push('\n')) =~= seq![line]);
        if t.len() > 0 {
            let a = head.drop_last();
            assert(a.last() == head[head.len() - 2]);
            text::lines_of_both(a, line.push('\n'));
            text::lines_of_both(a, none);
            assert(a.push('\n') + none =~= head);
            assert(a.push('\n') + line.push('\n') =~= all);
            assert(text::line_seq(head) =~= text::line_seq(a));
            assert(text::line_seq(all) =~= text::line_seq(head).push(line));
        } else {
            assert(all =~= line.push('\n'));
            assert(text::line_seq(head) =~= Seq::empty());
            assert(text::line_seq(all) =~= text::line_seq(head).push(line));
        }
        assert(text::line_seq(all).drop_last() =~= text::line_seq(head));
        assert(s =~= t.push(p));
    }
}

/// A CLI that succeeded gives all that it printed: for the lines of a list of
/// assignments, each name has the last value that it was given, and no other
/// name has one.
pub proof fn success_gives_all_that_was_printed(
    path: Seq<u8>,
    profile: Seq<char>,
    o: Output,
    s: Listing,
    name: Seq<char>,
)
    requires
        o.success,
        forall|i: int| 0 <= i < s.len() ==> is_exportable(#[trigger] s[i]),
        text::lossy(o.stdout@) == export_text(s),
    ensures
        minted_of(path, profile, Ok(o)) matches Ok(values) && vars::is_sorted(values)
            && vars::lookup(values, name) == vars::lookup(s, name),
{
    exports_read_back(s);
    vars::table_is_sorted(s);
    vars::table_then_lookup(s, name);
}

/// What one line gives: all before its first `=`, trimmed, has the value that is
/// all behind it, to the end of the line; a line without `=` gives nothing.
pub proof fn a_line_gives_one_value(
    path: Seq<u8>,
    profile: Seq<char>,
    o: Output,
    name: Seq<char>,
    value: Seq<char>,
)
    requires
        o.success,
        !name.contains('='),
        !name.contains('\n'),
        !value.contains('\n'),
    ensures
        text::lossy(o.stdout@) == name + "="@ + value ==> minted_of(path, profile, Ok(o)) == Ok::<
            Listing,
            ResponseView,
        >(seq![(text::trimmed(name), value)]),
        text::lossy(o.stdout@) == name ==> minted_of(path, profile, Ok(o)) == Ok::<
            Listing,
            ResponseView,
        >(Seq::empty()),
{
    let line = name + "="@ + value;
    let one = seq![line];
    let none: Listing = Seq::empty();
    let pair = (text::trimmed(name), value);
    reveal_strlit("=");
    assert forall|i: int| 0 <= i < line.len() implies line[i] != '\n' by {
        if i < name.len() {
            assert(name.contains(name[i]));
        } else if i > name.len() {
            assert(value.contains(value[i - name.len() - 1]));
        }
    }
    one_line(line);
    a_line_reads_back(name, value);
    reveal_with_fuel(export_pairs, 2);
    assert(one.drop_last() =~= Seq::empty());
    assert(export_pairs(one) =~= seq![pair]);
    assert(vars::is_sorted(seq![pair]));
    vars::table_of_ordered(seq![pair]);
    assert(vars::table(none) =~= none);
    if name.len() > 0 {
        one_line(name);
        assert(seq![name].drop_last() =~= Seq::empty());
        assert(export_pairs(seq![name]) =~= none);
    } else {
        assert(text::line_seq(name) =~= Seq::empty());
        assert(export_pairs(text::line_seq(name)) =~= none);
    }
}

/// Lines count one by one: what is printed before and after a line break, with a
/// carriage return or not, gives the values of the one overridden by those of the
/// other. (A first text that ends in a bare carriage return would lose it to a
/// bare line break.)
pub proof fn lines_are_minted_one_by_one(
    path: Seq<u8>,
    profile: Seq<char>,
    whole: Output,
    first: Output,
    second: Output,
)
    requires
        whole.success && first.success && second.success,
        ({
            let a = text::lossy(first.stdout@);
            let b = text::lossy(second.stdout@);
            ||| text::lossy(whole.stdout@) == a + "\n"@ + b && (a.len() > 0 ==> a.last() != '\r')
            ||| text::lossy(whole.stdout@) == a + "\r\n"@ + b
        }),
    ensures
        minted_of(path, profile, Ok(whole)) == Ok::<Listing, ResponseView>(
            vars::overridden(
                minted_of(path, profile, Ok(first))->Ok_0,
                minted_of(path, profile, Ok(second))->Ok_0,
            ),
        ),
{
    later_lines_override(text::lossy(first.stdout@), text::lossy(second.stdout@));
}

/// A CLI that failed, or did not run, gives a reply that says so: what it printed
/// on failure, trimmed, or why it did not run.
pub proof fn failure_says_why(path: Seq<u8>, profile: Seq<char>, o: Output, error: String)
    requires
        !o.success,
    ensures
        minted_of(path, profile, Ok(o)) == Err::<Listing, ResponseView>(
            ResponseView::Denied {
                reason: "aws could not export credentials for profile "@ + profile + ": "@
                    + text::trimmed(text::lossy(o.stderr@)),
            },
        ),
        minted_of(path, profile, Err(error)) == Err::<Listing, ResponseView>(
            ResponseView::Error {
                message: "cannot run `"@ + text::lossy(path)
                    + "` to mint credentials for profile "@ + profile + ": "@ + error@
                    + " (re-run `sxd setup` — the AWS CLI may have moved)"@,
            },
        ),
{
}

/// The way to the values of a source: a file is read; for a profile the path of
/// the CLI is that of `$SX_AWS_PATH`, and the config file is read where that is
/// unset or empty; the path is probed, and run with the profile if it is an
/// executable file.
pub proof fn values_come_from_their_source(
    key: Seq<char>,
    path: Seq<u8>,
    profile: Seq<char>,
    aws_path: Option<Seq<u8>>,
    setting: Seq<char>,
    reason: Seq<char>,
)
    ensures
        fetch_of(SourceView::Env { key, path }, aws_path) == (FetchView::ReadFile { path, key }),
        (aws_path matches Some(p) && p.len() > 0) ==> fetch_of(
            SourceView::Aws { key, profile },
            aws_path,
        ) == (FetchView::Probe { path: aws_path->0, profile }),
        !(aws_path matches Some(p) && p.len() > 0) ==> fetch_of(
            SourceView::Aws { key, profile },
            aws_path,
        ) == (FetchView::ReadConfig { profile }),
        configured_of(Ok(Some(setting)), profile) == (FetchView::Probe {
            path: encode_utf8(setting),
            profile,
        }),
        configured_of(Ok(None), profile) == (FetchView::Ready {
            values: Err(
                ResponseView::Error {
                    message:
                        "AWS CLI path is not configured; run `sxd setup` (or `sxd install`) to record it in ~/.sx/config."@,
                },
            ),
        }),
        configured_of(Err(reason), profile) == (FetchView::Ready {
            values: Err(
                ResponseView::Error {
                    message: "cannot read ~/.sx/config: "@ + reason + "; run `sxd setup`."@,
                },
            ),
        }),
        probed_of(path, true, profile) == (FetchView::Spawn {
            path,
            args: seq![
                "configure"@,
                "export-credentials"@,
                "--profile"@,
                profile,
                "--format"@,
                "env-no-export"@,
            ],
            profile,
        }),
        probed_of(path, false, profile) == (FetchView::Ready {
            values: Err(
                ResponseView::Error {
                    message: "configured aws CLI path "@ + text::lossy(path)
                        + " does not exist or isn't executable; re-run `sxd setup` (the CLI may have moved)."@,
                },
            ),
        }),
{
}

/// The path of the CLI is the last that the config file sets; a config file that
/// cannot be read gives the reason.
pub proof fn the_config_sets_the_path(s: Listing, e: env_file::EnvErrorView)
    ensures
        setting_in(env_file::success(s)) == Ok::<Option<Seq<char>>, Seq<char>>(
            vars::lookup(s, "aws_cli_path"@),
        ),
        setting_in(Err(e)) == Err::<Option<Seq<char>>, Seq<char>>(env_file::error_text(e)),
{
    vars::table_then_lookup(s, "aws_cli_path"@);
}

/// The `aws` CLI is spawned only by the path that was configured, after it was
/// found to be an executable file, and only for the profile that was asked for.
pub proof fn spawns_only_the_probed_path(path: Seq<u8>, executable: bool, profile: Seq<char>)
    ensures
        probed_of(path, executable, profile) is Spawn <==> executable,
        probed_of(path, executable, profile) matches FetchView::Spawn { path: p, args, .. } ==> p
            == path && args == export_args(profile),
{
}

/// `$SX_AWS_PATH`, where it is set, is the path that is probed, whatever the
/// config file holds.
pub proof fn override_comes_first(s: SourceView, aws_path: Seq<u8>)
    requires
        s is Aws,
        aws_path.len() > 0,
    ensures
        fetch_of(s, Some(aws_path)) == (FetchView::Probe {
            path: aws_path,
            profile: s->profile,
        }),
{
}

/// A CLI that failed gives no values, whatever it printed.
pub proof fn failure_gives_no_values(
    path: Seq<u8>,
    profile: Seq<char>,
    outcome: Result<Output, String>,
)
    ensures
        minted_of(path, profile, outcome) is Ok <==> (outcome matches Ok(o) && o.success),
{
}

/// Whatever goes wrong on the way to the values of a source ends in a refusal
/// or an error, never in a reply that carries values.
pub proof fn failures_are_refusals(
    key: Seq<char>,
    parsed: Outcome,
    value: Result<Option<Seq<char>>, Seq<char>>,
    path: Seq<u8>,
    executable: bool,
    profile: Seq<char>,
    outcome: Result<Output, String>,
)
    ensures
        env_file::env_values_of(key, parsed) matches Err(r) ==> r is Error,
        configured_of(value, profile) matches FetchView::Ready { values } ==> (values matches Err(r)
            && r is Error),
        probed_of(path, executable, profile) matches FetchView::Ready { values } ==> (
        values matches Err(r) && r is Error),
        minted_of(path, profile, outcome) matches Err(r) ==> r is Error || r is Denied,
{
}

} // verus!
