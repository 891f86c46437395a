//! Who is on the other end of the socket.
//!
//! Nothing the client *says* about who it is or where it runs is trusted: its
//! uid and pid come from the kernel, via the socket, and its working directory
//! is derived from that pid.

use vstd::prelude::*;
use vstd::string::*;
use vstd::utf8::*;

use crate::paths::FilePath;
use crate::text;

verus! {

/// Authenticated identity of the process on the other end of the socket.
#[derive(Debug, Clone, Copy)]
pub struct Peer {
    pub uid: u32,
    pub pid: i32,
}

/// How a platform tells the working directory of a process.
#[derive(Debug, Clone, Copy, PartialEq, Eq, Structural)]
pub enum Platform {
    Linux,
    MacOs,
    Other,
}

/// Where the working directory of a process is to be looked up.
#[derive(Debug)]
pub enum Lookup {
    /// It is the target of this symbolic link.
    Link { path: FilePath },
    /// The kernel tells it for this pid.
    Process { pid: i32 },
    /// It cannot be looked up.
    Unsupported { message: String },
}

/// The contents of a [`Lookup`].
pub enum LookupView {
    Link { path: Seq<u8> },
    Process { pid: i32 },
    Unsupported { message: Seq<char> },
}

impl View for Lookup {
    type V = LookupView;

    open spec fn view(&self) -> LookupView {
        match *self {
            Lookup::Link { path } => LookupView::Link { path: path@ },
            Lookup::Process { pid } => LookupView::Process { pid },
            Lookup::Unsupported { message } => LookupView::Unsupported { message: message@ },
        }
    }
}

/// Where the working directory of the process `pid` is to be looked up.
pub open spec fn lookup_of(pid: i32, platform: Platform) -> LookupView {
    match platform {
        Platform::Linux => LookupView::Link {
            path: encode_utf8("/proc/"@ + text::signed_decimal(pid as int) + "/cwd"@),
        },
        Platform::MacOs => LookupView::Process { pid },
        Platform::Other => LookupView::Unsupported {
            message: "peer cwd derivation not supported on this platform"@,
        },
    }
}

impl Peer {
    /// The peer with the credentials that the kernel gave for the socket: the
    /// uid, then the pid.
    pub fn from_stream(uid: Result<u32, String>, pid: Result<i32, String>) -> (r: Result<
        Peer,
        String,
    >)
        ensures
            match (uid, pid) {
                (Ok(u), Ok(p)) => r == Ok::<Peer, String>(Peer { uid: u, pid: p }),
                (Ok(_), Err(e)) => r == Err::<Peer, String>(e),
                (Err(e), _) => r == Err::<Peer, String>(e),
            },
    {
        match uid {
            Ok(uid) => match pid {
                Ok(pid) => Ok(Peer { uid, pid }),
                Err(e) => Err(e),
            },
            Err(e) => Err(e),
        }
    }

    /// Where the working directory of the peer process is to be looked up: by
    /// its pid alone.
    pub fn cwd(&self, platform: Platform) -> (r: Lookup)
        ensures
            r@ == lookup_of(self.pid, platform),
    {
        pid_cwd(self.pid, platform)
    }
}

/// Where the working directory of the process `pid` is to be looked up.
pub fn pid_cwd(pid: i32, platform: Platform) -> (r: Lookup)
    ensures
        r@ == lookup_of(pid, platform),
{
    match platform {
        Platform::Linux => Lookup::Link {
            path: FilePath::from_text(
                text::text("/proc/").concat(text::signed_decimal_text(pid).as_str()).concat(
                    "/cwd",
                ).as_str(),
            ),
        },
        Platform::MacOs => Lookup::Process { pid },
        Platform::Other => Lookup::Unsupported {
            message: text::text("peer cwd derivation not supported on this platform"),
        },
    }
}

/// The index of the first NUL, or the length.
pub open spec fn nul(s: Seq<u8>) -> int
    decreases s.len(),
{
    if s.len() == 0 || s[0] == 0 {
        0
    } else {
        1 + nul(s.drop_first())
    }
}

/// The path in a fixed-size buffer, which ends at the first NUL.
pub fn path_in_buffer(buffer: &[u8]) -> (r: FilePath)
    ensures
        0 <= nul(buffer@) <= buffer@.len(),
        r@ == buffer@.take(nul(buffer@)),
        r@.len() <= buffer@.len(),
        r@ == buffer@.take(r@.len() as int),
        !r@.contains(0u8),
        r@.len() < buffer@.len() ==> buffer@[r@.len() as int] == 0,
{
    let mut out: Vec<u8> = Vec::new();
    let mut i: usize = 0;
    assert(buffer@.skip(0) =~= buffer@);
    while i < buffer.len() && buffer[i] != 0
        invariant
            i <= buffer@.len(),
            out@ == buffer@.take(i as int),
            forall|k: int| 0 <= k < i ==> buffer@[k] != 0,
            nul(buffer@) == i + nul(buffer@.skip(i as int)),
        decreases buffer@.len() - i,
    {
        assert(buffer@.skip(i as int).drop_first() =~= buffer@.skip(i + 1));
        out.push(buffer[i]);
        i = i + 1;
    }
    FilePath::from_bytes(out)
}

/// The working directory of a process is looked up by its pid, in the way of the
/// platform.
pub proof fn a_process_is_looked_up_by_its_pid(pid: i32)
    ensures
        lookup_of(pid, Platform::Linux) == (LookupView::Link {
            path: encode_utf8("/proc/"@ + text::signed_decimal(pid as int) + "/cwd"@),
        }),
        lookup_of(pid, Platform::MacOs) == (LookupView::Process { pid }),
        lookup_of(pid, Platform::Other) == (LookupView::Unsupported {
            message: "peer cwd derivation not supported on this platform"@,
        }),
        pid >= 0 ==> text::signed_decimal(pid as int) == text::decimal(pid as nat),
        pid < 0 ==> text::signed_decimal(pid as int) == seq!['-'] + text::decimal((-pid) as nat),
{
}

} // verus!
