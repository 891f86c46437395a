//! The messages between the `sx` client and the `sxd` daemon.
//!
//! Transport is newline-delimited JSON over a unix domain socket: the client
//! writes exactly one [`Request`] followed by `\n`, the daemon replies with
//! exactly one [`Response`] followed by `\n`.
//!
//! The client is the *in-sandbox* half: it only ever passes paths, names, and
//! argv. The daemon is the *out-of-sandbox* half that touches secrets.

use vstd::prelude::*;
use vstd::string::*;
use vstd::utf8::*;

use crate::paths;
use crate::paths::FilePath;
use crate::text;
use crate::vars;

verus! {

/// Environment variable that overrides the default socket path.
pub const SOCKET_ENV: &'static str = "SX_SOCKET";

/// A request from the client to the daemon.
#[derive(Debug, Clone)]
pub enum Request {
    /// Drop granted sources: a single source (an `.env` path or an
    /// `aws:<profile>` key), or all of them when `path` is `None`.
    Clear { path: Option<String> },
    /// Report active grants and the secret names they expose (never values).
    Status,
    /// Pre-authorize sources in *allow-all* mode: grant each for its lease and
    /// suppress the per-command prompt for that window. Runs no command.
    GrantAll {
        env: Vec<String>,
        /// AWS profile names to mint temporary credentials from.
        aws_profiles: Vec<String>,
        /// Lease in seconds; `None` means the default lease.
        lease_secs: Option<u64>,
    },
    /// Request the secrets from one or more sources in order to run `argv`,
    /// which the daemon shows at the prompt and does not execute.
    Run {
        env: Vec<String>,
        /// AWS profile names to mint temporary credentials from.
        aws_profiles: Vec<String>,
        argv: Vec<String>,
        /// Upgrade the sources used here to allow-all.
        grant_all: bool,
    },
}

/// A response from the daemon to the client.
#[derive(Debug, Clone)]
pub enum Response {
    /// Generic success with a human-readable message.
    Done { message: String },
    /// Current daemon state.
    Status { captures: Vec<CaptureInfo> },
    /// The gates approved: the values for the client to inject into the child.
    /// The only message that carries plaintext.
    Granted { secrets: Vec<(String, String)> },
    /// A gate refused, or a precondition failed.
    Denied { reason: String },
    /// The daemon hit an error handling the request.
    Error { message: String },
}

/// Summary of one active grant, safe to show the agent.
#[derive(Debug, Clone)]
pub struct CaptureInfo {
    /// Source identity: a canonical `.env` path, or `aws:<profile>`.
    pub source: String,
    pub names: Vec<String>,
    pub expires_in_secs: u64,
    /// True when this source is in allow-all mode (no per-command prompt).
    pub allow_all: bool,
}

/// The contents of a [`Request`].
pub enum RequestView {
    Clear { path: Option<Seq<char>> },
    Status,
    GrantAll { env: Seq<Seq<char>>, aws_profiles: Seq<Seq<char>>, lease_secs: Option<u64> },
    Run { env: Seq<Seq<char>>, aws_profiles: Seq<Seq<char>>, argv: Seq<Seq<char>>, grant_all: bool },
}

/// The contents of a [`CaptureInfo`].
pub struct CaptureView {
    pub source: Seq<char>,
    pub names: Seq<Seq<char>>,
    pub expires_in_secs: u64,
    pub allow_all: bool,
}

/// The contents of a [`Response`].
pub enum ResponseView {
    Done { message: Seq<char> },
    Status { captures: Seq<CaptureView> },
    Granted { secrets: vars::Listing },
    Denied { reason: Seq<char> },
    Error { message: Seq<char> },
}

/// The contents of an optional string.
pub open spec fn opt_text(o: Option<String>) -> Option<Seq<char>> {
    match o {
        Some(s) => Some(s@),
        None => None,
    }
}

impl View for Request {
    type V = RequestView;

    open spec fn view(&self) -> RequestView {
        match *self {
            Request::Clear { path } => RequestView::Clear { path: opt_text(path) },
            Request::Status => RequestView::Status,
            Request::GrantAll { env, aws_profiles, lease_secs } => RequestView::GrantAll {
                env: text::texts(env@),
                aws_profiles: text::texts(aws_profiles@),
                lease_secs,
            },
            Request::Run { env, aws_profiles, argv, grant_all } => RequestView::Run {
                env: text::texts(env@),
                aws_profiles: text::texts(aws_profiles@),
                argv: text::texts(argv@),
                grant_all,
            },
        }
    }
}

impl View for CaptureInfo {
    type V = CaptureView;

    open spec fn view(&self) -> CaptureView {
        CaptureView {
            source: self.source@,
            names: text::texts(self.names@),
            expires_in_secs: self.expires_in_secs,
            allow_all: self.allow_all,
        }
    }
}

/// The contents of a list of captures.
pub open spec fn captures_of(v: Seq<CaptureInfo>) -> Seq<CaptureView> {
    v.map_values(|c: CaptureInfo| c@)
}

impl View for Response {
    type V = ResponseView;

    open spec fn view(&self) -> ResponseView {
        match *self {
            Response::Done { message } => ResponseView::Done { message: message@ },
            Response::Status { captures } => ResponseView::Status {
                captures: captures_of(captures@),
            },
            Response::Granted { secrets } => ResponseView::Granted {
                secrets: text::pairs(secrets@),
            },
            Response::Denied { reason } => ResponseView::Denied { reason: reason@ },
            Response::Error { message } => ResponseView::Error { message: message@ },
        }
    }
}

/// The socket path for given values of `$SX_SOCKET` and `$HOME`.
pub open spec fn socket_location(socket: Option<Seq<char>>, home: Option<Seq<char>>) -> Seq<u8> {
    match socket {
        Some(p) => encode_utf8(p),
        None => {
            let base = match home {
                Some(h) => h,
                None => "/tmp"@,
            };
            paths::under_text(paths::under_text(encode_utf8(base), ".sx"@), "sxd.sock"@)
        },
    }
}

/// Resolve the unix socket path both halves agree on, from the values of
/// `$SX_SOCKET` and `$HOME` (`None` where a variable is unset or not text).
///
/// Honors `$SX_SOCKET`, otherwise falls back to `$HOME/.sx/sxd.sock`.
pub fn socket_path(socket: Option<String>, home: Option<String>) -> (r: FilePath)
    ensures
        r@ == socket_location(opt_text(socket), opt_text(home)),
{
    match socket {
        Some(p) => FilePath::from_text(p.as_str()),
        None => {
            let base: FilePath = match home {
                Some(h) => FilePath::from_text(h.as_str()),
                None => FilePath::from_text("/tmp"),
            };
            base.join(".sx").join("sxd.sock")
        },
    }
}

/// The byte that ends a message.
pub const NEWLINE: u8 = 10;

/// A message as it goes over the socket: its JSON and a newline.
pub fn frame(json: Vec<u8>) -> (r: Vec<u8>)
    ensures
        r@ == json@.push(NEWLINE),
        r@ == json@.push(10u8),
{
    let mut out: Vec<u8> = json;
    out.push(NEWLINE);
    out
}

/// A message without a newline in its JSON is one line: the first newline is
/// the one that ends it.
pub proof fn a_message_is_one_line(json: Seq<u8>)
    requires
        !json.contains(NEWLINE),
    ensures
        forall|i: int|
            0 <= i < json.push(NEWLINE).len() ==> (#[trigger] json.push(NEWLINE)[i] == NEWLINE
                <==> i == json.len()),
{
    assert forall|i: int| 0 <= i < json.push(NEWLINE).len() implies (
    #[trigger] json.push(NEWLINE)[i] == NEWLINE <==> i == json.len()) by {
        if i < json.len() {
            assert(json.contains(json[i]));
        }
    }
}

/// The socket is the one that `$SX_SOCKET` names; where it names none, it is
/// `.sx/sxd.sock` in the home directory, or in `/tmp` without one.
pub proof fn both_halves_agree_on_the_socket(
    socket: Seq<char>,
    home: Option<Seq<char>>,
    base: Seq<char>,
)
    ensures
        socket_location(Some(socket), home) == encode_utf8(socket),
        socket_location(None, Some(base)) == paths::under_text(
            paths::under_text(encode_utf8(base), ".sx"@),
            "sxd.sock"@,
        ),
        socket_location(None, None) == socket_location(None, Some("/tmp"@)),
        SOCKET_ENV@ == "SX_SOCKET"@,
{
}

} // verus!
