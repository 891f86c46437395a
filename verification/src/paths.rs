//! File paths as the kernel has them: byte strings.

use vstd::prelude::*;
use vstd::string::*;
use vstd::utf8::*;

use crate::text;

verus! {

/// A Unix path. Its contents need not be UTF-8.
#[derive(Debug)]
pub struct FilePath {
    bytes: Vec<u8>,
}

impl View for FilePath {
    type V = Seq<u8>;

    closed spec fn view(&self) -> Seq<u8> {
        self.bytes@
    }
}

/// The byte of `/`.
pub const SLASH: u8 = 47;

/// Whether a path is absolute.
pub open spec fn is_rooted(path: Seq<u8>) -> bool {
    path.len() > 0 && path[0] == SLASH
}

/// `rel` as seen from `base`: an absolute `rel` stands for itself, any other is
/// appended, after a separator where `base` needs one.
pub open spec fn under(base: Seq<u8>, rel: Seq<u8>) -> Seq<u8> {
    if is_rooted(rel) {
        rel
    } else if base.len() == 0 || base.last() == SLASH {
        base + rel
    } else {
        base.push(SLASH) + rel
    }
}

/// `rel` as seen from `base`, for a `rel` that is text.
pub open spec fn under_text(base: Seq<u8>, rel: Seq<char>) -> Seq<u8> {
    under(base, encode_utf8(rel))
}

fn copy_bytes(bytes: &[u8]) -> (r: Vec<u8>)
    ensures
        r@ == bytes@,
{
    let mut out: Vec<u8> = Vec::new();
    let mut i: usize = 0;
    while i < bytes.len()
        invariant
            i <= bytes@.len(),
            out@ == bytes@.take(i as int),
        decreases bytes@.len() - i,
    {
        out.push(bytes[i]);
        i = i + 1;
    }
    assert(bytes@.take(i as int) =~= bytes@);
    out
}

impl FilePath {
    /// The path with these bytes.
    pub fn from_bytes(bytes: Vec<u8>) -> (r: FilePath)
        ensures
            r@ == bytes@,
    {
        FilePath { bytes }
    }

    /// The path that a text spells.
    pub fn from_text(s: &str) -> (r: FilePath)
        ensures
            r@ == encode_utf8(s@),
    {
        FilePath { bytes: copy_bytes(s.as_bytes()) }
    }

    /// The bytes of this path.
    pub fn as_bytes(&self) -> (r: &[u8])
        ensures
            r@ == self@,
    {
        self.bytes.as_slice()
    }

    /// A copy of this path.
    pub fn copy(&self) -> (r: FilePath)
        ensures
            r@ == self@,
    {
        FilePath { bytes: copy_bytes(self.bytes.as_slice()) }
    }

    /// This path as text, for showing it: what is not UTF-8 is replaced.
    pub fn display(&self) -> (r: String)
        ensures
            r@ == text::lossy(self@),
            valid_utf8(self@) ==> r@ == decode_utf8(self@),
            is_rooted(self@) ==> r@.len() > 0 && r@[0] == '/',
    {
        text::lossy_text(self.bytes.as_slice())
    }

    /// `rel` as seen from this path.
    pub fn join(&self, rel: &str) -> (r: FilePath)
        ensures
            r@ == under_text(self@, rel@),
    {
        let tail: Vec<u8> = copy_bytes(rel.as_bytes());
        if tail.len() > 0 && tail[0] == SLASH {
            return FilePath { bytes: tail };
        }
        let mut out: Vec<u8> = copy_bytes(self.bytes.as_slice());
        if out.len() > 0 && out[out.len() - 1] != SLASH {
            out.push(SLASH);
        }
        let mut rest: Vec<u8> = tail;
        out.append(&mut rest);
        FilePath { bytes: out }
    }
}

/// A path that is text is shown as that text.
pub proof fn text_path_shows_as_itself(s: Seq<char>)
    ensures
        valid_utf8(encode_utf8(s)),
        decode_utf8(encode_utf8(s)) == s,
{
    encode_utf8_valid_utf8(s);
    encode_utf8_decode_utf8(s);
}

/// A relative path goes behind the base, with one `/` between them where the
/// base does not end in one; an absolute path stands for itself.
pub proof fn a_relative_path_goes_behind_the_base(base: Seq<u8>, rel: Seq<char>)
    ensures
        ({
            let tail = encode_utf8(rel);
            let rooted = tail.len() > 0 && tail[0] == 47;
            &&& rooted ==> under_text(base, rel) == tail
            &&& !rooted && base.len() == 0 ==> under_text(base, rel) == tail
            &&& !rooted && base.len() > 0 && base.last() == 47 ==> under_text(base, rel) == base
                + tail
            &&& !rooted && base.len() > 0 && base.last() != 47 ==> under_text(base, rel) == base
                + seq![47u8] + tail
        }),
{
    let tail = encode_utf8(rel);
    assert(base.push(47) + tail =~= base + seq![47u8] + tail);
    if base.len() == 0 {
        assert(base + tail =~= tail);
    }
}

} // verus!
