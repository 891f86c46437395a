//! Persistent `sxd` configuration in `$HOME/.sx/config`.
//!
//! A tiny `KEY=VALUE` file. It exists so that values which must be resolved in
//! the user's shell environment can be captured once, at setup, and read back
//! by the daemon, which runs under a minimal environment. Every other key is
//! preserved, whatever its value: one that needs quotes is written with them.

use vstd::prelude::*;
use vstd::string::*;
use vstd::utf8::*;

use crate::env_file;
use crate::env_file::{EnvError, Outcome};
use crate::paths;
use crate::paths::FilePath;
use crate::text;
use crate::vars;
use crate::vars::{Listing, Vars};

verus! {

/// Config key holding the absolute path to the `aws` CLI executable.
pub const AWS_CLI_PATH: &'static str = "aws_cli_path";

/// The contents of an optional path.
pub open spec fn opt_path(o: Option<FilePath>) -> Option<Seq<u8>> {
    match o {
        Some(p) => Some(p@),
        None => None,
    }
}

/// The contents of a path, or of the reason that there is none.
pub open spec fn path_or_reason(r: Result<FilePath, String>) -> Result<Seq<u8>, Seq<char>> {
    match r {
        Ok(p) => Ok(p@),
        Err(e) => Err(e@),
    }
}

/// The `.sx` directory in the home directory, if that is known.
pub open spec fn sx_dir_of(home: Option<Seq<u8>>) -> Result<Seq<u8>, Seq<char>> {
    match home {
        Some(h) => Ok(paths::under_text(h, ".sx"@)),
        None => Err("$HOME is not set"@),
    }
}

/// The `~/.sx` directory (socket, log and config live here), for a given
/// `$HOME`.
pub fn sx_dir(home: Option<FilePath>) -> (r: Result<FilePath, String>)
    ensures
        path_or_reason(r) == sx_dir_of(opt_path(home)),
{
    match home {
        Some(h) => Ok(h.join(".sx")),
        None => Err(text::text("$HOME is not set")),
    }
}

/// Path to the config file (`~/.sx/config`), for a given `$HOME`.
pub fn config_path(home: Option<FilePath>) -> (r: Result<FilePath, String>)
    ensures
        path_or_reason(r) == match sx_dir_of(opt_path(home)) {
            Ok(dir) => Ok(paths::under_text(dir, "config"@)),
            Err(e) => Err(e),
        },
{
    match sx_dir(home) {
        Ok(dir) => Ok(dir.join("config")),
        Err(e) => Err(e),
    }
}

/// What is known of the outcome of reading a config file: a missing one has no
/// values.
pub open spec fn file_reads_as(file: Option<Seq<u8>>, o: Outcome) -> bool {
    match file {
        Some(bytes) => env_file::reads_as(bytes, o),
        None => o == env_file::success(Seq::empty()),
    }
}

/// The contents of an optional file.
pub open spec fn opt_bytes(file: Option<&[u8]>) -> Option<Seq<u8>> {
    match file {
        Some(b) => Some(b@),
        None => None,
    }
}

/// Read every `KEY=VALUE` pair of a config file. A missing file has none.
pub fn read_all(file: Option<&[u8]>) -> (r: Result<Vars, EnvError>)
    ensures
        exists|o: Outcome| #[trigger]
            file_reads_as(opt_bytes(file), o) && env_file::vars_of(r) == env_file::tabled(o),
{
    match file {
        Some(bytes) => {
            let r: Result<Vars, EnvError> = env_file::parse_env(bytes);
            proof {
                let o = choose|o: Outcome| #[trigger]
                    env_file::reads_as(bytes@, o) && env_file::vars_of(r) == env_file::tabled(o);
                assert(file_reads_as(opt_bytes(file), o));
            }
            r
        },
        None => {
            proof {
                let none: Listing = Seq::empty();
                assert(file_reads_as(opt_bytes(file), env_file::success(none)));
                assert(vars::table(none) =~= none);
            }
            Ok(Vars::new())
        },
    }
}

/// The value of `key` in what was read, or the error.
pub open spec fn value_in(
    o: Outcome,
    key: Seq<char>,
) -> Result<Option<Seq<char>>, env_file::EnvErrorView> {
    match o {
        Ok(s) => Ok(vars::lookup(s, key)),
        Err(e) => Err(e),
    }
}

/// The contents of an optional value, or of an error.
pub open spec fn value_of(r: Result<Option<String>, EnvError>) -> Result<
    Option<Seq<char>>,
    env_file::EnvErrorView,
> {
    match r {
        Ok(Some(v)) => Ok(Some(v@)),
        Ok(None) => Ok(None),
        Err(e) => Err(e@),
    }
}

/// The value of `key` in what was read.
pub fn read_value(all: Result<Vars, EnvError>, key: &str) -> (r: Result<Option<String>, EnvError>)
    ensures
        value_of(r) == value_in(env_file::vars_of(all), key@),
{
    match all {
        Ok(v) => Ok(v.get(key)),
        Err(e) => Err(e),
    }
}

/// Read a single config key. A missing file or an unset key is `Ok(None)`.
pub fn get(file: Option<&[u8]>, key: &str) -> (r: Result<Option<String>, EnvError>)
    ensures
        exists|o: Outcome| #[trigger]
            file_reads_as(opt_bytes(file), o) && value_of(r) == value_in(env_file::tabled(o), key@),
{
    read_value(read_all(file), key)
}

/// The contents of a text, or of an error.
pub open spec fn text_of(r: Result<String, EnvError>) -> Result<
    Seq<char>,
    env_file::EnvErrorView,
> {
    match r {
        Ok(s) => Ok(s@),
        Err(e) => Err(e@),
    }
}

/// The new contents of a config file that held `o`, after `key` is set.
pub open spec fn rewritten(o: Outcome, key: Seq<char>, value: Seq<char>) -> Result<
    Seq<char>,
    env_file::EnvErrorView,
> {
    match o {
        Ok(s) => Ok(env_file::rendered(vars::put(s, key, value))),
        Err(e) => Err(e),
    }
}

/// The text of a list of values: `KEY=VALUE`, one per line, in order.
fn render(v: &Vars) -> (r: String)
    ensures
        r@ == env_file::rendered(v@),
{
    let entries: Vec<(String, String)> = v.entries();
    let mut out: String = String::new();
    let mut i: usize = 0;
    while i < entries.len()
        invariant
            i <= entries@.len(),
            text::pairs(entries@) == v@,
            out@ == env_file::rendered(v@.take(i as int)),
        decreases entries@.len() - i,
    {
        proof {
            assert(v@.take(i as int + 1).drop_last() =~= v@.take(i as int));
        }
        out.append(entries[i].0.as_str());
        out.append("=");
        out.append(env_file::write_text(entries[i].1.as_str()).as_str());
        out.append("\n");
        i = i + 1;
    }
    assert(v@.take(i as int) =~= v@);
    out
}

/// The new contents of a config file that held `all`, after `key` is set.
pub fn write_value(all: Result<Vars, EnvError>, key: &str, value: &str) -> (r: Result<
    String,
    EnvError,
>)
    ensures
        text_of(r) == rewritten(env_file::vars_of(all), key@, value@),
{
    match all {
        Ok(v) => {
            let mut v: Vars = v;
            v.insert(text::text(key), text::text(value));
            Ok(render(&v))
        },
        Err(e) => Err(e),
    }
}

/// Set a single config key: the new contents of the file, with every other key
/// preserved.
pub fn set(file: Option<&[u8]>, key: &str, value: &str) -> (r: Result<String, EnvError>)
    ensures
        exists|o: Outcome| #[trigger]
            file_reads_as(opt_bytes(file), o) && text_of(r) == rewritten(
                env_file::tabled(o),
                key@,
                value@,
            ),
{
    write_value(read_all(file), key, value)
}

/// Record the path of the `aws` CLI: the new contents of the config file, with
/// every other key preserved.
pub fn store_aws_cli_path(file: Option<&[u8]>, path: &FilePath) -> (r: Result<String, EnvError>)
    ensures
        exists|o: Outcome| #[trigger]
            file_reads_as(opt_bytes(file), o) && text_of(r) == rewritten(
                env_file::tabled(o),
                AWS_CLI_PATH@,
                text::lossy(path@),
            ),
{
    set(file, AWS_CLI_PATH, path.display().as_str())
}

proof fn put_keeps_names(s: Listing, key: Seq<char>, value: Seq<char>)
    requires
        env_file::are_named(s),
        env_file::is_env_name(key),
    ensures
        env_file::are_named(vars::put(s, key, value)),
{
    let p = vars::put(s, key, value);
    vars::put_adds_one(s, key, value);
    assert forall|i: int| 0 <= i < p.len() implies env_file::is_env_name((#[trigger] p[i]).0) by {
        if p[i] != (key, value) {
            assert(s.contains(p[i]));
            let k = choose|k: int| 0 <= k < s.len() && s[k] == p[i];
            assert(env_file::is_env_name(s[k].0));
        }
    }
}

proof fn table_keeps_names(s: Listing)
    requires
        env_file::are_named(s),
    ensures
        env_file::are_named(vars::table(s)),
    decreases s.len(),
{
    if s.len() > 0 {
        let t = s.drop_last();
        assert forall|i: int| 0 <= i < t.len() implies env_file::is_env_name(
            (#[trigger] t[i]).0,
        ) by {
            assert(s[i] == t[i]);
        }
        table_keeps_names(t);
        assert(env_file::is_env_name(s[s.len() - 1].0));
        put_keeps_names(vars::table(t), s.last().0, s.last().1);
    }
}

/// What is set is read back, whatever the value, and every other key keeps its
/// value: for a file that read as the assignments `s`, and that reads as `again`
/// after it is rewritten.
pub proof fn set_then_get(
    file: Option<Seq<u8>>,
    s: Listing,
    key: Seq<char>,
    value: Seq<char>,
    other: Seq<char>,
    again: Outcome,
)
    requires
        file_reads_as(file, env_file::success(s)),
        env_file::is_env_name(key),
        file_reads_as(
            Some(
                encode_utf8(
                    rewritten(env_file::tabled(env_file::success(s)), key, value)->Ok_0,
                ),
            ),
            again,
        ),
    ensures
        value_in(env_file::tabled(again), other) == Ok::<
            Option<Seq<char>>,
            env_file::EnvErrorView,
        >(
            if other == key {
                Some(value)
            } else {
                vars::lookup(s, other)
            },
        ),
{
    let entries = vars::put(vars::table(s), key, value);
    table_keeps_names(s);
    put_keeps_names(vars::table(s), key, value);
    vars::table_is_sorted(s);
    vars::put_keeps_order(vars::table(s), key, value);
    vars::table_of_ordered(entries);
    vars::put_then_lookup(vars::table(s), key, value, other);
    vars::table_then_lookup(s, other);
    assert(env_file::rendered(entries) == rewritten(
        env_file::tabled(env_file::success(s)),
        key,
        value,
    )->Ok_0);
}

// ---------------------------------------------------------------------------
// Locating the `aws` executable

/// A place to look for an executable.
#[derive(Debug)]
pub struct Candidate {
    pub path: FilePath,
    /// Whether the path is to be canonicalized when found.
    pub canonicalize: bool,
}

/// The contents of a [`Candidate`].
pub struct CandidateView {
    pub path: Seq<u8>,
    pub canonicalize: bool,
}

impl View for Candidate {
    type V = CandidateView;

    open spec fn view(&self) -> CandidateView {
        CandidateView { path: self.path@, canonicalize: self.canonicalize }
    }
}

/// The contents of a list of candidates.
pub open spec fn candidates_of(v: Seq<Candidate>) -> Seq<CandidateView> {
    v.map_values(|c: Candidate| c@)
}

/// The byte of `:`.
pub const COLON: u8 = 58;

/// The index of the first `:`, or the length.
pub open spec fn colon(s: Seq<u8>) -> int
    decreases s.len(),
{
    if s.len() == 0 || s[0] == COLON {
        0
    } else {
        1 + colon(s.drop_first())
    }
}

/// The entries of a `:`-separated list; always at least one.
pub open spec fn path_entries(s: Seq<u8>) -> Seq<Seq<u8>>
    decreases s.len(),
{
    if 0 <= colon(s) < s.len() {
        seq![s.take(colon(s))] + path_entries(s.skip(colon(s) + 1))
    } else {
        seq![s]
    }
}

/// Where `name` may be found on a `$PATH`, in order.
pub open spec fn on_path(path_var: Seq<u8>, name: Seq<char>) -> Seq<CandidateView> {
    path_entries(path_var).map_values(
        |dir: Seq<u8>| CandidateView { path: paths::under_text(dir, name), canonicalize: true },
    )
}

/// Where the `aws` executable may be found: the entries of `$PATH` in order,
/// then two well-known locations.
pub open spec fn aws_candidates(path_var: Option<Seq<u8>>) -> Seq<CandidateView> {
    (match path_var {
        Some(p) => on_path(p, "aws"@),
        None => Seq::empty(),
    }) + seq![
        CandidateView { path: encode_utf8("/usr/local/bin/aws"@), canonicalize: false },
        CandidateView { path: encode_utf8("/opt/homebrew/bin/aws"@), canonicalize: false },
    ]
}

proof fn colon_unique(s: Seq<u8>, n: int)
    requires
        0 <= n <= s.len(),
        forall|i: int| 0 <= i < n ==> s[i] != COLON,
        n < s.len() ==> s[n] == COLON,
    ensures
        colon(s) == n,
    decreases s.len(),
{
    if n > 0 {
        assert(s[0] != COLON);
        assert forall|i: int| 0 <= i < n - 1 implies s.drop_first()[i] != COLON by {
            assert(s.drop_first()[i] == s[i + 1]);
        }
        colon_unique(s.drop_first(), n - 1);
    }
}

/// Where `name` may be found on a `$PATH`-style `:`-separated list, in order.
fn path_candidates(path_var: &[u8], name: &str) -> (r: Vec<Candidate>)
    ensures
        candidates_of(r@) == on_path(path_var@, name@),
{
    let ghost make = |dir: Seq<u8>|
        CandidateView { path: paths::under_text(dir, name@), canonicalize: true };
    let mut out: Vec<Candidate> = Vec::new();
    let mut start: usize = 0;
    let len: usize = path_var.len();
    assert(path_var@.skip(0) =~= path_var@);
    assert(candidates_of(out@) + on_path(path_var@, name@) =~= on_path(path_var@, name@));
    loop
        invariant
            len == path_var@.len(),
            start <= len,
            make == (|dir: Seq<u8>|
                CandidateView { path: paths::under_text(dir, name@), canonicalize: true }),
            candidates_of(out@) + on_path(path_var@.skip(start as int), name@) == on_path(
                path_var@,
                name@,
            ),
        decreases len - start,
    {
        let ghost t: Seq<u8> = path_var@.skip(start as int);
        let ghost done: Seq<CandidateView> = candidates_of(out@);
        let mut dir: Vec<u8> = Vec::new();
        let mut i: usize = start;
        while i < len && path_var[i] != COLON
            invariant
                len == path_var@.len(),
                start <= i <= len,
                dir@ == path_var@.subrange(start as int, i as int),
                forall|k: int| start <= k < i ==> path_var@[k] != COLON,
            decreases len - i,
        {
            dir.push(path_var[i]);
            i = i + 1;
        }
        proof {
            assert forall|k: int| 0 <= k < i - start implies t[k] != COLON by {
                assert(t[k] == path_var@[k + start]);
            }
            if i < len {
                assert(t[i - start] == path_var@[i as int]);
            }
            colon_unique(t, i - start);
            assert(dir@ =~= t.take(i - start));
        }
        let c = Candidate { path: FilePath::from_bytes(dir).join(name), canonicalize: true };
        assert(c@ == make(dir@));
        out.push(c);
        assert(candidates_of(out@) =~= done.push(c@));
        if i == len {
            proof {
                assert(dir@ =~= t);
                assert(path_entries(t) =~= seq![t]);
                assert(on_path(t, name@) =~= seq![make(t)]);
                assert(done + on_path(t, name@) =~= done.push(c@));
            }
            return out;
        }
        proof {
            assert(t.skip(i - start + 1) =~= path_var@.skip(i + 1));
            assert(on_path(t, name@) =~= seq![c@] + on_path(path_var@.skip(i + 1), name@));
            assert(done + on_path(t, name@) =~= done.push(c@) + on_path(
                path_var@.skip(i + 1),
                name@,
            ));
        }
        start = i + 1;
    }
}

/// A search through candidates: the first one that is an executable file is
/// the result.
#[derive(Debug)]
pub struct Hunt {
    candidates: Vec<Candidate>,
    at: usize,
}

/// The contents of a [`Hunt`].
pub struct HuntView {
    pub candidates: Seq<CandidateView>,
    /// The index of the candidate to probe next.
    pub at: nat,
}

impl View for Hunt {
    type V = HuntView;

    closed spec fn view(&self) -> HuntView {
        HuntView { candidates: candidates_of(self.candidates@), at: self.at as nat }
    }
}

/// Where a search stands.
#[derive(Debug)]
pub enum Search {
    /// Find out whether this candidate is an executable file.
    Probe { candidate: Candidate, hunt: Hunt },
    /// This candidate is it.
    Found { candidate: Candidate },
    /// There is none.
    Missing,
}

/// The contents of a [`Search`].
pub enum SearchView {
    Probe { candidate: CandidateView, hunt: HuntView },
    Found { candidate: CandidateView },
    Missing,
}

impl View for Search {
    type V = SearchView;

    open spec fn view(&self) -> SearchView {
        match *self {
            Search::Probe { candidate, hunt } => SearchView::Probe {
                candidate: candidate@,
                hunt: hunt@,
            },
            Search::Found { candidate } => SearchView::Found { candidate: candidate@ },
            Search::Missing => SearchView::Missing,
        }
    }
}

/// The search at the candidate with index `h.at`.
pub open spec fn search_at(h: HuntView) -> SearchView {
    if h.at < h.candidates.len() {
        SearchView::Probe { candidate: h.candidates[h.at as int], hunt: h }
    } else {
        SearchView::Missing
    }
}

/// The search after the probe of `candidate`.
pub open spec fn search_after(
    candidate: CandidateView,
    h: HuntView,
    executable: bool,
) -> SearchView {
    if executable {
        SearchView::Found { candidate }
    } else {
        search_at(HuntView { at: h.at + 1, ..h })
    }
}

/// The end of the search that starts at `h`, when `executable` says of each
/// candidate whether it is an executable file.
pub open spec fn search_result(
    h: HuntView,
    executable: spec_fn(CandidateView) -> bool,
) -> SearchView
    decreases h.candidates.len() - h.at,
{
    match search_at(h) {
        SearchView::Probe { candidate, hunt } => match search_after(
            candidate,
            hunt,
            executable(candidate),
        ) {
            SearchView::Probe { hunt: next, .. } => search_result(next, executable),
            end => end,
        },
        end => end,
    }
}

/// The first candidate that is an executable file is found, and none only where
/// there is none.
pub proof fn search_finds_the_first(h: HuntView, executable: spec_fn(CandidateView) -> bool)
    ensures
        match search_result(h, executable) {
            SearchView::Found { candidate } => exists|i: int|
                {
                    &&& h.at <= i < h.candidates.len()
                    &&& #[trigger] h.candidates[i] == candidate
                    &&& executable(candidate)
                    &&& forall|j: int| h.at <= j < i ==> !executable(#[trigger] h.candidates[j])
                },
            SearchView::Missing => forall|j: int|
                h.at <= j < h.candidates.len() ==> !executable(#[trigger] h.candidates[j]),
            SearchView::Probe { .. } => false,
        },
    decreases h.candidates.len() - h.at,
{
    if h.at < h.candidates.len() {
        let c = h.candidates[h.at as int];
        let next = HuntView { at: h.at + 1, ..h };
        if executable(c) {
            assert(h.candidates[h.at as int] == c);
        } else {
            search_finds_the_first(next, executable);
            if let SearchView::Found { candidate } = search_result(h, executable) {
                let i = choose|i: int|
                    {
                        &&& next.at <= i < next.candidates.len()
                        &&& #[trigger] next.candidates[i] == candidate
                        &&& executable(candidate)
                        &&& forall|j: int|
                            next.at <= j < i ==> !executable(#[trigger] next.candidates[j])
                    };
                assert(h.candidates[i] == candidate);
            }
        }
    }
}

impl Candidate {
    /// A copy of this candidate.
    pub fn copy(&self) -> (r: Candidate)
        ensures
            r@ == self@,
    {
        Candidate { path: self.path.copy(), canonicalize: self.canonicalize }
    }
}

impl Hunt {
    /// The next probe.
    fn next(self) -> (r: Search)
        ensures
            r@ == search_at(self@),
    {
        if self.at < self.candidates.len() {
            let candidate: Candidate = self.candidates[self.at].copy();
            Search::Probe { candidate, hunt: self }
        } else {
            Search::Missing
        }
    }

    /// The search after the probe of `candidate`.
    pub fn probed(self, candidate: Candidate, executable: bool) -> (r: Search)
        ensures
            r@ == search_after(candidate@, self@, executable),
    {
        if executable {
            Search::Found { candidate }
        } else if self.at < self.candidates.len() {
            Hunt { candidates: self.candidates, at: self.at + 1 }.next()
        } else {
            Search::Missing
        }
    }
}

/// Start the search for an executable file `name` on a `$PATH`-style
/// `:`-separated list: the first one is the result.
pub fn find_on_path(path_var: &[u8], name: &str) -> (r: Search)
    ensures
        r@ == search_at(HuntView { candidates: on_path(path_var@, name@), at: 0 }),
{
    Hunt { candidates: path_candidates(path_var, name), at: 0 }.next()
}

/// Start the search for the `aws` executable, for a given `$PATH`.
///
/// This runs in the user's shell environment, not inside the daemon, which
/// reads the resolved path from the config file.
pub fn discover_aws_cli(path_var: Option<&[u8]>) -> (r: Search)
    ensures
        r@ == search_at(HuntView { candidates: aws_candidates(opt_bytes(path_var)), at: 0 }),
{
    let mut out: Vec<Candidate> = match path_var {
        Some(p) => path_candidates(p, "aws"),
        None => Vec::new(),
    };
    let ghost first: Seq<CandidateView> = candidates_of(out@);
    proof {
        if path_var is None {
            assert(first =~= Seq::empty());
        }
    }
    let local = Candidate {
        path: FilePath::from_text("/usr/local/bin/aws"),
        canonicalize: false,
    };
    let brew = Candidate {
        path: FilePath::from_text("/opt/homebrew/bin/aws"),
        canonicalize: false,
    };
    out.push(local);
    out.push(brew);
    assert(candidates_of(out@) =~= first + seq![local@, brew@]);
    Hunt { candidates: out, at: 0 }.next()
}

/// True for an existing regular file with at least one execute bit set, given
/// its kind and its permission bits.
pub fn is_executable_file(is_file: bool, mode: u32) -> (r: bool)
    ensures
        r == (is_file && mode & 0o111 != 0),
{
    is_file && mode & 0o111 != 0
}

/// What came of recording the path of the `aws` CLI.
#[derive(Debug)]
pub enum Recorded {
    /// It was found here, and recorded.
    Path { path: FilePath },
    /// It was not found.
    Missing,
    /// It was found, but could not be recorded.
    Failed,
}

/// What came of [`Recorded`], as `sxd install` reports it: on which stream, and
/// in which words. The installation goes on in any case.
pub open spec fn recorded_text(r: Recorded) -> (bool, Seq<char>) {
    match r {
        Recorded::Path { path } => (
            true,
            "Resolved aws CLI: "@ + text::lossy(path@) + "\n"@,
        ),
        Recorded::Missing => (
            false,
            "warning: could not find the `aws` CLI on PATH; AWS minting will not work until you install it and run `sxd setup`.\n"@,
        ),
        Recorded::Failed => (
            false,
            "warning: failed to record the aws CLI path (writing ~/.sx/config); run `sxd setup`.\n"@,
        ),
    }
}

/// What came of recording the path of the `aws` CLI, as `sxd install` reports
/// it: whether it goes to stdout (to stderr otherwise), and the words.
pub fn report_recorded(r: &Recorded) -> (out: (bool, String))
    ensures
        (out.0, out.1@) == recorded_text(*r),
{
    match r {
        Recorded::Path { path } => (
            true,
            text::text("Resolved aws CLI: ").concat(path.display().as_str()).concat("\n"),
        ),
        Recorded::Missing => (
            false,
            text::text(
                "warning: could not find the `aws` CLI on PATH; AWS minting will not work until you install it and run `sxd setup`.\n",
            ),
        ),
        Recorded::Failed => (
            false,
            text::text(
                "warning: failed to record the aws CLI path (writing ~/.sx/config); run `sxd setup`.\n",
            ),
        ),
    }
}

/// What `sxd setup` does.
#[derive(Debug)]
pub enum Setup {
    /// Print this and change nothing.
    Print { text: String },
    /// Record `path` with [`store_aws_cli_path`], which stores `value` under
    /// [`AWS_CLI_PATH`], then print this.
    Save { path: FilePath, value: String, text: String },
    /// Fail with this message.
    Fail { message: String },
}

/// The contents of a [`Setup`].
pub enum SetupView {
    Print { text: Seq<char> },
    Save { path: Seq<u8>, value: Seq<char>, text: Seq<char> },
    Fail { message: Seq<char> },
}

impl View for Setup {
    type V = SetupView;

    open spec fn view(&self) -> SetupView {
        match *self {
            Setup::Print { text } => SetupView::Print { text: text@ },
            Setup::Save { path, value, text } => SetupView::Save {
                path: path@,
                value: value@,
                text: text@,
            },
            Setup::Fail { message } => SetupView::Fail { message: message@ },
        }
    }
}

/// What `sxd setup` does for a given outcome of the search.
pub open spec fn setup_of(found: Option<Seq<u8>>, cfg: Seq<u8>, dry_run: bool) -> SetupView {
    match found {
        Some(path) => if dry_run {
            SetupView::Print {
                text: "# would write "@ + AWS_CLI_PATH@ + "="@ + text::lossy(path) + " to "@
                    + text::lossy(cfg) + "\n"@,
            }
        } else {
            SetupView::Save {
                path,
                value: text::lossy(path),
                text: "Found aws CLI: "@ + text::lossy(path) + "\nSaved "@ + AWS_CLI_PATH@ + "="@
                    + text::lossy(path) + " to "@ + text::lossy(cfg) + "\n"@,
            }
        },
        None => SetupView::Fail {
            message:
                "could not find the `aws` CLI on your PATH. Install the AWS CLI (https://aws.amazon.com/cli/), or set `"@
                + AWS_CLI_PATH@ + "=<absolute path>` manually in "@ + text::lossy(cfg) + "."@,
        },
    }
}

/// `sxd setup` leaves a config whose `aws_cli_path` is the path that was found,
/// with every other key as it was; it writes nothing in a dry run, and fails,
/// dry or not, where there is no `aws`.
pub proof fn setup_records_the_path(
    path: Seq<u8>,
    cfg: Seq<u8>,
    file: Option<Seq<u8>>,
    s: Listing,
    other: Seq<char>,
    again: Outcome,
)
    requires
        file_reads_as(file, env_file::success(s)),
        file_reads_as(
            Some(
                encode_utf8(
                    rewritten(
                        env_file::tabled(env_file::success(s)),
                        AWS_CLI_PATH@,
                        text::lossy(path),
                    )->Ok_0,
                ),
            ),
            again,
        ),
    ensures
        setup_of(Some(path), cfg, false) matches SetupView::Save { path: p, value, .. } && p == path
            && value_in(env_file::tabled(again), AWS_CLI_PATH@) == Ok::<Option<Seq<char>>, env_file::EnvErrorView>(Some(value)),
        other != AWS_CLI_PATH@ ==> value_in(env_file::tabled(again), other) == Ok::<
            Option<Seq<char>>,
            env_file::EnvErrorView,
        >(vars::lookup(s, other)),
        setup_of(Some(path), cfg, true) is Print,
        setup_of(None, cfg, false) is Fail,
        setup_of(None, cfg, true) is Fail,
{
    reveal_strlit("aws_cli_path");
    assert(env_file::is_env_name(AWS_CLI_PATH@));
    set_then_get(file, s, AWS_CLI_PATH@, text::lossy(path), AWS_CLI_PATH@, again);
    set_then_get(file, s, AWS_CLI_PATH@, text::lossy(path), other, again);
}

/// What `sxd setup` does: resolve the `aws` CLI in the user's shell environment
/// and store it, so that the daemon can spawn it by absolute path. A missing
/// `aws` is an error here; a dry run reports what would be written.
pub fn cmd_setup(found: Option<FilePath>, cfg: &FilePath, dry_run: bool) -> (r: Setup)
    ensures
        r@ == setup_of(opt_path(found), cfg@, dry_run),
        r matches Setup::Save { value, .. } ==> (found matches Some(p) && (valid_utf8(p@)
            ==> value@ == decode_utf8(p@))),
{
    match found {
        Some(path) => {
            let value: String = path.display();
            if dry_run {
                Setup::Print {
                    text: text::text("# would write ").concat(AWS_CLI_PATH).concat("=").concat(
                        value.as_str(),
                    ).concat(" to ").concat(cfg.display().as_str()).concat("\n"),
                }
            } else {
                let shown: String = text::text("Found aws CLI: ").concat(value.as_str()).concat(
                    "\nSaved ",
                ).concat(AWS_CLI_PATH).concat("=").concat(value.as_str()).concat(" to ").concat(
                    cfg.display().as_str(),
                ).concat("\n");
                Setup::Save { path, value, text: shown }
            }
        },
        None => Setup::Fail {
            message: text::text(
                "could not find the `aws` CLI on your PATH. Install the AWS CLI (https://aws.amazon.com/cli/), or set `",
            ).concat(AWS_CLI_PATH).concat("=<absolute path>` manually in ").concat(
                cfg.display().as_str(),
            ).concat("."),
        },
    }
}

// ---------------------------------------------------------------------------
// What holds of every search and every report

/// The files live in `.sx` in the home directory; without one there is a reason
/// instead.
pub proof fn files_live_in_the_home_directory(home: Seq<u8>)
    ensures
        sx_dir_of(Some(home)) == Ok::<Seq<u8>, Seq<char>>(paths::under_text(home, ".sx"@)),
        sx_dir_of(None) == Err::<Seq<u8>, Seq<char>>("$HOME is not set"@),
{
}

/// A config file that cannot be read is neither read from nor rewritten: the
/// error is handed on. One that can be read gives each key its last value.
pub proof fn an_unreadable_config_stays(
    s: Listing,
    e: env_file::EnvErrorView,
    key: Seq<char>,
    value: Seq<char>,
)
    ensures
        value_in(Err(e), key) == Err::<Option<Seq<char>>, env_file::EnvErrorView>(e),
        rewritten(Err(e), key, value) == Err::<Seq<char>, env_file::EnvErrorView>(e),
        rewritten(Ok(s), key, value) is Ok,
        value_in(env_file::tabled(env_file::success(s)), key) == Ok::<
            Option<Seq<char>>,
            env_file::EnvErrorView,
        >(vars::lookup(s, key)),
{
    vars::table_then_lookup(s, key);
}

proof fn entries_of_both(a: Seq<u8>, b: Seq<u8>)
    ensures
        path_entries(a + seq![58u8] + b) == path_entries(a) + path_entries(b),
    decreases a.len(),
{
    let whole = a + seq![58u8] + b;
    colon_is_first(a);
    let k = colon(a);
    assert forall|i: int| 0 <= i < k implies whole[i] != COLON by {
        assert(whole[i] == a[i]);
    }
    if k < a.len() {
        let rest = a.skip(k + 1);
        assert(whole[k] == a[k]);
        colon_unique(whole, k);
        assert(whole.take(k) =~= a.take(k));
        assert(whole.skip(k + 1) =~= rest + seq![58u8] + b);
        entries_of_both(rest, b);
        assert(path_entries(whole) =~= path_entries(a) + path_entries(b));
    } else {
        assert(whole[k] == COLON);
        colon_unique(whole, k);
        assert(whole.take(k) =~= a);
        assert(whole.skip(k + 1) =~= b);
        assert(path_entries(whole) =~= path_entries(a) + path_entries(b));
    }
}

proof fn colon_is_first(s: Seq<u8>)
    ensures
        0 <= colon(s) <= s.len(),
        forall|i: int| 0 <= i < colon(s) ==> s[i] != COLON,
        colon(s) < s.len() ==> s[colon(s)] == COLON,
    decreases s.len(),
{
    if s.len() > 0 && s[0] != COLON {
        let t = s.drop_first();
        colon_is_first(t);
        assert forall|i: int| 0 <= i < colon(s) implies s[i] != COLON by {
            if i > 0 {
                assert(s[i] == t[i - 1]);
            }
        }
        if colon(s) < s.len() {
            assert(s[colon(s)] == t[colon(s) - 1]);
        }
    }
}

/// On a `$PATH` the executable is looked for in every directory, in order:
/// those before a `:` come before those behind it, and a directory alone is
/// looked into itself.
pub proof fn every_directory_is_looked_into(a: Seq<u8>, b: Seq<u8>, name: Seq<char>)
    ensures
        on_path(a + seq![58u8] + b, name) == on_path(a, name) + on_path(b, name),
        !a.contains(58u8) ==> on_path(a, name) == seq![
            CandidateView { path: paths::under_text(a, name), canonicalize: true },
        ],
{
    entries_of_both(a, b);
    assert(on_path(a + seq![58u8] + b, name) =~= on_path(a, name) + on_path(b, name));
    if !a.contains(58u8) {
        colon_is_first(a);
        if colon(a) < a.len() {
            assert(a.contains(a[colon(a)]));
        }
        assert(path_entries(a) =~= seq![a]);
        assert(on_path(a, name) =~= seq![
            CandidateView { path: paths::under_text(a, name), canonicalize: true },
        ]);
    }
}

/// The `aws` executable is looked for on the `$PATH` first, and then in two
/// well-known places, which are taken as they are.
pub proof fn the_path_comes_before_the_known_places(path_var: Seq<u8>)
    ensures
        aws_candidates(Some(path_var)) == on_path(path_var, "aws"@) + aws_candidates(None),
        aws_candidates(None) == seq![
            CandidateView { path: encode_utf8("/usr/local/bin/aws"@), canonicalize: false },
            CandidateView { path: encode_utf8("/opt/homebrew/bin/aws"@), canonicalize: false },
        ],
{
    assert(aws_candidates(None) =~= seq![
        CandidateView { path: encode_utf8("/usr/local/bin/aws"@), canonicalize: false },
        CandidateView { path: encode_utf8("/opt/homebrew/bin/aws"@), canonicalize: false },
    ]);
}

/// What `sxd setup` and `sxd install` say of the `aws` CLI.
pub proof fn the_search_is_reported(path: FilePath, found: Seq<u8>, cfg: Seq<u8>)
    ensures
        recorded_text(Recorded::Path { path }) == (
            true,
            "Resolved aws CLI: "@ + text::lossy(path@) + "\n"@,
        ),
        !recorded_text(Recorded::Missing).0,
        !recorded_text(Recorded::Failed).0,
        setup_of(Some(found), cfg, true) == (SetupView::Print {
            text: "# would write "@ + "aws_cli_path"@ + "="@ + text::lossy(found) + " to "@
                + text::lossy(cfg) + "\n"@,
        }),
        setup_of(Some(found), cfg, false) == (SetupView::Save {
            path: found,
            value: text::lossy(found),
            text: "Found aws CLI: "@ + text::lossy(found) + "\nSaved "@ + "aws_cli_path"@ + "="@
                + text::lossy(found) + " to "@ + text::lossy(cfg) + "\n"@,
        }),
{
}

} // verus!
