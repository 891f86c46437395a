//! Secret sources, and what the human is asked about them.

use vstd::prelude::*;
use vstd::string::*;
use vstd::utf8::*;

use crate::duration;
use crate::paths;
use crate::paths::FilePath;
use crate::text;

verus! {

/// Synthetic source-key prefix for AWS-profile grants (`aws:<profile>`). These
/// keys are never filesystem paths.
pub const AWS_SOURCE_PREFIX: &'static str = "aws:";

/// A resolved secret source: a canonical `.env` file path, or a named AWS
/// profile.
#[derive(Debug)]
pub enum Source {
    /// A `.env` file: `key` is its canonical path as text.
    Env { key: String, path: FilePath },
    /// An AWS profile: `key` is `aws:<profile>`, `profile` the bare name.
    Aws { key: String, profile: String },
}

/// The contents of a [`Source`].
pub enum SourceView {
    Env { key: Seq<char>, path: Seq<u8> },
    Aws { key: Seq<char>, profile: Seq<char> },
}

impl View for Source {
    type V = SourceView;

    open spec fn view(&self) -> SourceView {
        match *self {
            Source::Env { key, path } => SourceView::Env { key: key@, path: path@ },
            Source::Aws { key, profile } => SourceView::Aws { key: key@, profile: profile@ },
        }
    }
}

/// The contents of a list of sources.
pub open spec fn sources_of(v: Seq<Source>) -> Seq<SourceView> {
    v.map_values(|s: Source| s@)
}

/// The key that a source is granted under.
pub open spec fn key_of(s: SourceView) -> Seq<char> {
    match s {
        SourceView::Env { key, .. } => key,
        SourceView::Aws { key, .. } => key,
    }
}

/// Whether `key` is the key of an AWS-profile grant.
pub open spec fn is_aws_key(key: Seq<char>) -> bool {
    text::occurs_at(key, AWS_SOURCE_PREFIX@, 0)
}

/// The source that a canonical `.env` path stands for.
pub open spec fn env_source_of(path: Seq<u8>) -> SourceView {
    SourceView::Env { key: text::lossy(path), path }
}

/// The source that an AWS profile stands for.
pub open spec fn aws_source_of(profile: Seq<char>) -> SourceView {
    SourceView::Aws { key: AWS_SOURCE_PREFIX@ + profile, profile }
}

/// The sources of a request: the files in the order given, then the profiles
/// in the order given.
pub open spec fn source_list(files: Seq<Seq<u8>>, profiles: Seq<Seq<char>>) -> Seq<SourceView> {
    files.map_values(|p: Seq<u8>| env_source_of(p)) + profiles.map_values(
        |p: Seq<char>| aws_source_of(p),
    )
}

/// What a source gives access to, in the grant prompts.
pub open spec fn subject_text(s: SourceView) -> Seq<char> {
    match s {
        SourceView::Env { path, .. } => "secrets in:\n  "@ + text::lossy(path),
        SourceView::Aws { profile, .. } => "AWS credentials for profile:\n  "@ + profile,
    }
}

/// What a command is run with, in the per-command prompt.
pub open spec fn subject_from_text(s: SourceView) -> Seq<char> {
    match s {
        SourceView::Env { path, .. } => "secrets from:\n  "@ + text::lossy(path),
        SourceView::Aws { profile, .. } => "AWS credentials for profile:\n  "@ + profile,
    }
}

/// A command line as one text.
pub open spec fn command_text(argv: Seq<Seq<char>>) -> Seq<char> {
    text::joined(argv, " "@)
}

/// The question of the first use of a source.
pub open spec fn first_run_text(
    s: SourceView,
    argv: Option<Seq<Seq<char>>>,
    ttl_secs: u64,
) -> Seq<char> {
    let grant = "Grant access to "@ + subject_text(s) + "\nfor "@ + duration::humanized(
        ttl_secs as nat,
    ) + "."@;
    match argv {
        Some(argv) => grant + "\nThis command will run:\n  "@ + command_text(argv),
        None => grant,
    }
}

/// The question before each command.
pub open spec fn per_command_text(s: SourceView, argv: Seq<Seq<char>>) -> Seq<char> {
    "Run command:\n  "@ + command_text(argv) + "\nwith "@ + subject_from_text(s)
}

/// The question before a source goes allow-all.
pub open spec fn allow_all_text(s: SourceView, ttl_secs: u64) -> Seq<char> {
    "Allow ALL commands to use "@ + subject_text(s) + "\nfor "@ + duration::humanized(
        ttl_secs as nat,
    ) + ", without confirming each one."@
}

impl Source {
    /// The source that a canonical `.env` path stands for.
    pub fn env(path: FilePath) -> (r: Source)
        ensures
            r@ == env_source_of(path@),
            valid_utf8(path@) ==> key_of(r@) == decode_utf8(path@),
            paths::is_rooted(path@) ==> !is_aws_key(key_of(r@)) && forall|profile: Seq<char>|
                key_of(r@) != key_of(#[trigger] aws_source_of(profile)),
    {
        let key: String = path.display();
        proof {
            if paths::is_rooted(path@) {
                rooted_keys_are_no_profiles(key@);
            }
        }
        Source::Env { key, path }
    }

    /// The source that an AWS profile stands for.
    pub fn aws(profile: &str) -> (r: Source)
        ensures
            r@ == aws_source_of(profile@),
    {
        Source::Aws {
            key: text::text(AWS_SOURCE_PREFIX).concat(profile),
            profile: text::text(profile),
        }
    }

    /// A copy of this source.
    pub fn copy(&self) -> (r: Source)
        ensures
            r@ == self@,
    {
        match self {
            Source::Env { key, path } => Source::Env { key: key.clone(), path: path.copy() },
            Source::Aws { key, profile } => Source::Aws {
                key: key.clone(),
                profile: profile.clone(),
            },
        }
    }

    /// The key this source is granted under (also shown by `status`).
    pub fn key(&self) -> (r: &str)
        ensures
            r@ == key_of(self@),
    {
        match self {
            Source::Env { key, .. } => key.as_str(),
            Source::Aws { key, .. } => key.as_str(),
        }
    }

    /// Subject phrase for the grant / allow-all prompts ("...access to X").
    pub fn subject(&self) -> (r: String)
        ensures
            r@ == subject_text(self@),
    {
        match self {
            Source::Env { path, .. } => text::text("secrets in:\n  ").concat(
                path.display().as_str(),
            ),
            Source::Aws { profile, .. } => text::text("AWS credentials for profile:\n  ").concat(
                profile.as_str(),
            ),
        }
    }

    /// Subject phrase for the per-command prompt ("...with X").
    pub fn subject_from(&self) -> (r: String)
        ensures
            r@ == subject_from_text(self@),
    {
        match self {
            Source::Env { path, .. } => text::text("secrets from:\n  ").concat(
                path.display().as_str(),
            ),
            Source::Aws { profile, .. } => text::text("AWS credentials for profile:\n  ").concat(
                profile.as_str(),
            ),
        }
    }
}

/// The question of the first use of a source.
pub fn first_run_prompt(src: &Source, argv: Option<&[String]>, ttl_secs: u64) -> (r: String)
    ensures
        r@ == first_run_text(
            src@,
            match argv {
                Some(a) => Some(text::texts(a@)),
                None => None,
            },
            ttl_secs,
        ),
{
    let p: String = text::text("Grant access to ").concat(src.subject().as_str()).concat(
        "\nfor ",
    ).concat(duration::humanize_secs(ttl_secs).as_str()).concat(".");
    match argv {
        Some(argv) => p.concat("\nThis command will run:\n  ").concat(
            text::join(argv, " ").as_str(),
        ),
        None => p,
    }
}

/// The question before each command.
pub fn per_command_prompt(src: &Source, argv: &[String]) -> (r: String)
    ensures
        r@ == per_command_text(src@, text::texts(argv@)),
{
    text::text("Run command:\n  ").concat(text::join(argv, " ").as_str()).concat("\nwith ").concat(
        src.subject_from().as_str(),
    )
}

/// The question before a source goes allow-all.
pub fn allow_all_prompt(src: &Source, ttl_secs: u64) -> (r: String)
    ensures
        r@ == allow_all_text(src@, ttl_secs),
{
    text::text("Allow ALL commands to use ").concat(src.subject().as_str()).concat("\nfor ").concat(
        duration::humanize_secs(ttl_secs).as_str(),
    ).concat(", without confirming each one.")
}

/// Turn resolved `.env` paths and AWS profile names into sources, files first.
pub fn build_sources(files: &Vec<FilePath>, aws_profiles: &Vec<String>) -> (r: Vec<Source>)
    ensures
        sources_of(r@) == source_list(
            files@.map_values(|p: FilePath| p@),
            text::texts(aws_profiles@),
        ),
{
    let ghost all: Seq<SourceView> = source_list(
        files@.map_values(|p: FilePath| p@),
        text::texts(aws_profiles@),
    );
    let mut out: Vec<Source> = Vec::new();
    let mut i: usize = 0;
    while i < files.len()
        invariant
            i <= files@.len(),
            all == source_list(
                files@.map_values(|p: FilePath| p@),
                text::texts(aws_profiles@),
            ),
            sources_of(out@) == all.take(i as int),
        decreases files@.len() - i,
    {
        let ghost done: Seq<SourceView> = sources_of(out@);
        let src: Source = Source::env(files[i].copy());
        out.push(src);
        proof {
            assert(sources_of(out@) =~= done.push(src@));
            assert(all[i as int] == src@);
            assert(all.take(i as int + 1) =~= done.push(src@));
        }
        i = i + 1;
    }
    let mut j: usize = 0;
    while j < aws_profiles.len()
        invariant
            j <= aws_profiles@.len(),
            all == source_list(
                files@.map_values(|p: FilePath| p@),
                text::texts(aws_profiles@),
            ),
            sources_of(out@) == all.take(files@.len() + j),
        decreases aws_profiles@.len() - j,
    {
        let ghost done: Seq<SourceView> = sources_of(out@);
        let src: Source = Source::aws(aws_profiles[j].as_str());
        out.push(src);
        proof {
            assert(sources_of(out@) =~= done.push(src@));
            assert(all[files@.len() + j] == src@);
            assert(all.take(files@.len() + j + 1) =~= done.push(src@));
        }
        j = j + 1;
    }
    assert(all.take(all.len() as int) =~= all);
    out
}

/// Every prompt shows what it is about: the source, and the command or, where
/// there is none to show, the lease.
pub proof fn prompts_show_what_they_are_about(
    s: SourceView,
    argv: Seq<Seq<char>>,
    ttl_secs: u64,
)
    ensures
        text::occurs(first_run_text(s, Some(argv), ttl_secs), subject_text(s)),
        text::occurs(first_run_text(s, Some(argv), ttl_secs), command_text(argv)),
        text::occurs(first_run_text(s, None, ttl_secs), subject_text(s)),
        text::occurs(first_run_text(s, None, ttl_secs), duration::humanized(ttl_secs as nat)),
        text::occurs(per_command_text(s, argv), subject_from_text(s)),
        text::occurs(per_command_text(s, argv), command_text(argv)),
        text::occurs(allow_all_text(s, ttl_secs), subject_text(s)),
        text::occurs(allow_all_text(s, ttl_secs), duration::humanized(ttl_secs as nat)),
{
    let h = duration::humanized(ttl_secs as nat);
    let subject = subject_text(s);
    let command = command_text(argv);
    let none: Seq<char> = Seq::empty();
    let grant = "Grant access to "@;
    let lead = "\nThis command will run:\n  "@;
    let first = first_run_text(s, None, ttl_secs);
    let with_command = first_run_text(s, Some(argv), ttl_secs);
    text::part_occurs(grant, subject, "\nfor "@ + h + "."@);
    assert(first =~= grant + subject + ("\nfor "@ + h + "."@));
    text::part_occurs(grant + subject + "\nfor "@, h, "."@);
    text::part_occurs(grant, subject, "\nfor "@ + h + "."@ + lead + command);
    assert(with_command =~= grant + subject + ("\nfor "@ + h + "."@ + lead + command));
    text::part_occurs(first + lead, command, none);
    assert(with_command =~= first + lead + command + none);
    let from = subject_from_text(s);
    let each = per_command_text(s, argv);
    text::part_occurs("Run command:\n  "@, command, "\nwith "@ + from);
    assert(each =~= "Run command:\n  "@ + command + ("\nwith "@ + from));
    text::part_occurs("Run command:\n  "@ + command + "\nwith "@, from, none);
    assert(each =~= "Run command:\n  "@ + command + "\nwith "@ + from + none);
    let allow = "Allow ALL commands to use "@;
    let end = ", without confirming each one."@;
    text::part_occurs(allow, subject, "\nfor "@ + h + end);
    assert(allow_all_text(s, ttl_secs) =~= allow + subject + ("\nfor "@ + h + end));
    text::part_occurs(allow + subject + "\nfor "@, h, end);
}

/// The key of a profile is recognised as one, and no key that starts as an
/// absolute path does is that of a profile.
pub proof fn rooted_keys_are_no_profiles(key: Seq<char>)
    requires
        key.len() > 0,
        key[0] == '/',
    ensures
        !is_aws_key(key),
        forall|profile: Seq<char>| is_aws_key(key_of(#[trigger] aws_source_of(profile))),
        forall|profile: Seq<char>| key != key_of(#[trigger] aws_source_of(profile)),
{
    let p = AWS_SOURCE_PREFIX@;
    reveal_strlit("aws:");
    if is_aws_key(key) {
        assert(key.subrange(0, p.len() as int)[0] == p[0]);
    }
    assert forall|profile: Seq<char>| is_aws_key(key_of(#[trigger] aws_source_of(profile))) by {
        assert((p + profile).subrange(0, p.len() as int) =~= p);
    }
}

/// Different profiles have different keys.
pub proof fn keys_tell_profiles_apart(a: Seq<char>, b: Seq<char>)
    requires
        key_of(aws_source_of(a)) == key_of(aws_source_of(b)),
    ensures
        a == b,
{
    let p = AWS_SOURCE_PREFIX@;
    assert(a =~= (p + a).skip(p.len() as int));
    assert(b =~= (p + b).skip(p.len() as int));
}

/// What the three questions say, word for word: which file or profile, for how
/// long, and which command, with all its arguments.
pub proof fn the_words_of_the_prompts(
    key: Seq<char>,
    path: Seq<u8>,
    profile: Seq<char>,
    argv: Seq<Seq<char>>,
    ttl_secs: u64,
)
    ensures
        ({
            let file = SourceView::Env { key, path };
            let aws = SourceView::Aws { key, profile };
            let lease = duration::humanized(ttl_secs as nat);
            let command = text::joined(argv, " "@);
            &&& first_run_text(file, Some(argv), ttl_secs) == "Grant access to "@
                + ("secrets in:\n  "@ + text::lossy(path)) + "\nfor "@ + lease + "."@
                + "\nThis command will run:\n  "@ + command
            &&& first_run_text(aws, Some(argv), ttl_secs) == "Grant access to "@
                + ("AWS credentials for profile:\n  "@ + profile) + "\nfor "@ + lease + "."@
                + "\nThis command will run:\n  "@ + command
            &&& first_run_text(file, None, ttl_secs) == "Grant access to "@ + ("secrets in:\n  "@
                + text::lossy(path)) + "\nfor "@ + lease + "."@
            &&& first_run_text(aws, None, ttl_secs) == "Grant access to "@
                + ("AWS credentials for profile:\n  "@ + profile) + "\nfor "@ + lease + "."@
            &&& per_command_text(file, argv) == "Run command:\n  "@ + command + "\nwith "@
                + ("secrets from:\n  "@ + text::lossy(path))
            &&& per_command_text(aws, argv) == "Run command:\n  "@ + command + "\nwith "@
                + ("AWS credentials for profile:\n  "@ + profile)
            &&& allow_all_text(file, ttl_secs) == "Allow ALL commands to use "@
                + ("secrets in:\n  "@ + text::lossy(path)) + "\nfor "@ + lease
                + ", without confirming each one."@
            &&& allow_all_text(aws, ttl_secs) == "Allow ALL commands to use "@
                + ("AWS credentials for profile:\n  "@ + profile) + "\nfor "@ + lease
                + ", without confirming each one."@
        }),
{
}

/// Every argument of a command is shown before the command may run.
pub proof fn prompts_show_every_argument(
    s: SourceView,
    argv: Seq<Seq<char>>,
    ttl_secs: u64,
    i: int,
)
    requires
        0 <= i < argv.len(),
    ensures
        text::occurs(first_run_text(s, Some(argv), ttl_secs), argv[i]),
        text::occurs(per_command_text(s, argv), argv[i]),
{
    let command = command_text(argv);
    joined_holds_each(argv, i);
    let (a, b) = choose|a: Seq<char>, b: Seq<char>| command == #[trigger] (a + argv[i] + b);
    let lead = first_run_text(s, None, ttl_secs) + "\nThis command will run:\n  "@;
    text::part_occurs(lead + a, argv[i], b);
    assert(first_run_text(s, Some(argv), ttl_secs) =~= lead + a + argv[i] + b);
    let tail = "\nwith "@ + subject_from_text(s);
    text::part_occurs("Run command:\n  "@ + a, argv[i], b + tail);
    assert(per_command_text(s, argv) =~= "Run command:\n  "@ + a + argv[i] + (b + tail));
}

proof fn joined_holds_each(argv: Seq<Seq<char>>, i: int)
    requires
        0 <= i < argv.len(),
    ensures
        exists|a: Seq<char>, b: Seq<char>| command_text(argv) == #[trigger] (a + argv[i] + b),
    decreases argv.len(),
{
    let none: Seq<char> = Seq::empty();
    let all = command_text(argv);
    if argv.len() == 1 {
        assert(all =~= none + argv[i] + none);
    } else {
        let before = argv.drop_last();
        let head = text::joined(before, " "@) + " "@;
        if i == argv.len() - 1 {
            assert(all =~= head + argv[i] + none);
        } else {
            joined_holds_each(before, i);
            let (a, b) = choose|a: Seq<char>, b: Seq<char>|
                command_text(before) == #[trigger] (a + before[i] + b);
            let c = b + " "@ + argv.last();
            assert(all =~= a + argv[i] + c);
        }
    }
}

/// These are the sources for files and profiles: each file under its path as
/// text, each profile under its name after `aws:`, in the order given.
pub open spec fn are_sources_of(
    sources: Seq<SourceView>,
    files: Seq<Seq<u8>>,
    profiles: Seq<Seq<char>>,
) -> bool {
    &&& sources.len() == files.len() + profiles.len()
    &&& forall|i: int|
        0 <= i < files.len() ==> #[trigger] sources[i] == (SourceView::Env {
            key: text::lossy(files[i]),
            path: files[i],
        })
    &&& forall|i: int|
        files.len() <= i < sources.len() ==> #[trigger] sources[i] == (SourceView::Aws {
            key: "aws:"@ + profiles[i - files.len()],
            profile: profiles[i - files.len()],
        })
}

/// Every file and every profile that is named is a source, files first, each in
/// the order given, under a key of its own kind.
pub proof fn what_is_named_is_a_source(
    files: Seq<Seq<u8>>,
    profiles: Seq<Seq<char>>,
    path: Seq<u8>,
    profile: Seq<char>,
)
    ensures
        are_sources_of(source_list(files, profiles), files, profiles),
        key_of(env_source_of(path)) == text::lossy(path),
        key_of(aws_source_of(profile)) == "aws:"@ + profile,
{
}

} // verus!
