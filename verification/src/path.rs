//! Filesystem paths as the picker and the scanner see them: a sequence of
//! bytes that may or may not be displayable text.

use vstd::prelude::*;
use vstd::string::*;
use vstd::utf8::*;

verus! {

/// The byte `/`, which separates the components of a path.
pub const SEPARATOR: u8 = 47;

/// A filesystem path, byte for byte.
#[derive(Debug, PartialEq, Eq, Hash)]
pub struct ProjectPath {
    bytes: Vec<u8>,
}

impl View for ProjectPath {
    type V = Seq<u8>;

    closed spec fn view(&self) -> Seq<u8> {
        self.bytes@
    }
}

/// The text that a sequence of bytes displays as: its decoding where the
/// bytes are valid UTF-8, and no text at all otherwise.
pub open spec fn text_of(bytes: Seq<u8>) -> Option<Seq<char>> {
    if valid_utf8(bytes) {
        Some(decode_utf8(bytes))
    } else {
        None
    }
}

/// `base` extended by `name`: `name` alone where it starts at the root,
/// otherwise `base`, a separator unless `base` is empty or ends in one, and
/// `name`.
pub open spec fn join_bytes(base: Seq<u8>, name: Seq<u8>) -> Seq<u8> {
    if name.len() > 0 && name[0] == SEPARATOR {
        name
    } else if base.len() == 0 || base.last() == SEPARATOR {
        base + name
    } else {
        base + seq![SEPARATOR] + name
    }
}

/// The path `bytes` starts at the root.
pub open spec fn absolute_bytes(bytes: Seq<u8>) -> bool {
    bytes.len() > 0 && bytes[0] == SEPARATOR
}

/// The views of a sequence of paths, in order.
pub open spec fn views(paths: Seq<ProjectPath>) -> Seq<Seq<u8>> {
    paths.map_values(|p: ProjectPath| p@)
}

/// The views of a sequence with one path more.
pub proof fn lemma_views_push(paths: Seq<ProjectPath>, path: ProjectPath)
    ensures
        views(paths.push(path)) == views(paths).push(path@),
{
}

/// The views of the first `n + 1` paths are those of the first `n` and that of
/// the next.
pub proof fn lemma_views_take(paths: Seq<ProjectPath>, n: int)
    requires
        0 <= n < paths.len(),
    ensures
        views(paths.take(n + 1)) == views(paths.take(n)).push(paths[n]@),
        views(paths.take(n + 1)).drop_last() == views(paths.take(n)),
        views(paths.take(n + 1)).last() == paths[n]@,
{
    lemma_views_push(paths.take(n), paths[n]);
}

/// Every text has a path, and that path displays as the text.
pub proof fn lemma_text_of_encoding(text: Seq<char>)
    ensures
        text_of(encode_utf8(text)) == Some(text),
{
    broadcast use {encode_utf8_valid_utf8, encode_utf8_decode_utf8};

}

/// `core::str::from_utf8`, with its error forgotten. Trusted: the call succeeds
/// exactly on valid UTF-8, and the string it then returns consists of the very
/// bytes it was given.
#[verifier::external_body]
fn utf8_text(bytes: &[u8]) -> (r: Option<&str>)
    ensures
        r is Some <==> valid_utf8(bytes@),
        r matches Some(s) ==> s.spec_bytes() == bytes@,
{
    match core::str::from_utf8(bytes) {
        Ok(text) => Some(text),
        Err(_) => None,
    }
}

impl ProjectPath {
    /// The text that the path displays as, if it has one.
    pub open spec fn text(&self) -> Option<Seq<char>> {
        text_of(self@)
    }

    /// The path made of `bytes`.
    pub fn from_bytes(bytes: Vec<u8>) -> (p: ProjectPath)
        ensures
            p@ == bytes@,
    {
        ProjectPath { bytes }
    }

    /// The path that displays as `text`.
    pub fn from_text(text: &str) -> (p: ProjectPath)
        ensures
            p@ == encode_utf8(text@),
            p.text() == Some(text@),
    {
        proof {
            lemma_text_of_encoding(text@);
        }
        ProjectPath { bytes: text.as_bytes_vec() }
    }

    /// The bytes of the path.
    pub fn as_bytes(&self) -> (bytes: &[u8])
        ensures
            bytes@ == self@,
    {
        self.bytes.as_slice()
    }

    /// The text of the path, or `None` where its bytes are not valid UTF-8.
    pub fn to_str(&self) -> (r: Option<&str>)
        ensures
            r is Some <==> self.text() is Some,
            r matches Some(s) ==> self.text() == Some(s@),
    {
        broadcast use encode_utf8_decode_utf8;

        utf8_text(self.bytes.as_slice())
    }

    /// Whether the path starts at the root.
    pub open spec fn absolute(&self) -> bool {
        absolute_bytes(self@)
    }

    /// Whether the path starts at the root.
    pub fn is_absolute(&self) -> (b: bool)
        ensures
            b == self.absolute(),
    {
        self.bytes.len() > 0 && self.bytes[0] == SEPARATOR
    }

    /// Whether the two paths are the same bytes.
    pub fn same_as(&self, other: &ProjectPath) -> (b: bool)
        ensures
            b == (self@ == other@),
    {
        if self.bytes.len() != other.bytes.len() {
            return false;
        }
        let mut i: usize = 0;
        while i < self.bytes.len()
            invariant
                i <= self.bytes.len(),
                self.bytes.len() == other.bytes.len(),
                forall|j: int| 0 <= j < i ==> self.bytes@[j] == other.bytes@[j],
            decreases self.bytes.len() - i,
        {
            if self.bytes[i] != other.bytes[i] {
                return false;
            }
            i = i + 1;
        }
        assert(self.bytes@ =~= other.bytes@);
        true
    }

    /// The path extended by `name`, as a directory is by the name of an entry.
    pub fn join(&self, name: &str) -> (p: ProjectPath)
        ensures
            p@ == join_bytes(self@, encode_utf8(name@)),
    {
        let tail = name.as_bytes_vec();
        let mut bytes: Vec<u8> = Vec::new();
        if tail.len() > 0 && tail[0] == SEPARATOR {
            // a name that starts at the root replaces the base
        } else {
            extend(&mut bytes, &self.bytes);
            let n: usize = self.bytes.len();
            if n > 0 && self.bytes[n - 1] != SEPARATOR {
                bytes.push(SEPARATOR);
            }
        }
        extend(&mut bytes, &tail);
        ProjectPath { bytes }
    }
}

impl Clone for ProjectPath {
    fn clone(&self) -> (p: ProjectPath)
        ensures
            p@ == self@,
    {
        let mut bytes: Vec<u8> = Vec::new();
        extend(&mut bytes, &self.bytes);
        ProjectPath { bytes }
    }
}

/// Appends the bytes of `tail` to `out`.
fn extend(out: &mut Vec<u8>, tail: &Vec<u8>)
    ensures
        final(out)@ == old(out)@ + tail@,
{
    let mut i: usize = 0;
    while i < tail.len()
        invariant
            i <= tail.len(),
            out@ == old(out)@ + tail@.take(i as int),
        decreases tail.len() - i,
    {
        out.push(tail[i]);
        i = i + 1;
    }
}

} // verus!
