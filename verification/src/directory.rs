use vstd::prelude::*;

use crate::{Key, Slice};

verus! {

/// What the URL-safe, unpadded rendering of a byte string is. The codec
/// itself is outside code; the library relies on the rendering being a
/// function of the bytes alone.
pub uninterp spec fn b64u_of(b: Seq<u8>) -> Seq<char>;

/// Which bytes a string decodes back to, where it is such a rendering.
pub uninterp spec fn b64u_decoded(s: Seq<char>) -> Option<Seq<u8>>;

/// Relies on base64_url::encode: the URL-safe unpadded rendering
/// depends on the bytes alone, and decoding it gives the bytes back.
#[verifier::external_body]
fn b64u_encode(b: &[u8]) -> (r: String)
    ensures
        r@ == b64u_of(b@),
        b64u_decoded(r@) == Some(b@),
{
    base64_url::encode(b)
}

/// Relies on base64_url::decode: it succeeds exactly on the canonical
/// unpadded rendering of some byte string, and hands those bytes back.
#[verifier::external_body]
fn b64u_decode(s: &str) -> (r: Option<Vec<u8>>)
    ensures
        r matches Some(v) ==> b64u_decoded(s@) == Some(v@) && s@ == b64u_of(v@),
        r is None ==> b64u_decoded(s@) is None,
{
    base64_url::decode(s).ok()
}

/// The directory-of-files backend's pure core: the directory as a path
/// of segments, and the codec between keys and file names. Reading and
/// writing the files themselves is the caller's, outside this library.
#[derive(Clone, Debug)]
pub struct DirectoryKeyValueStore {
    pub segments: Vec<String>,
}

impl View for DirectoryKeyValueStore {
    type V = Seq<Seq<char>>;

    open spec fn view(&self) -> Seq<Seq<char>> {
        self.segments@.map_values(|s: String| s@)
    }
}

impl DirectoryKeyValueStore {
    /// A store rooted at the given base directory.
    pub fn new(base: String) -> (r: Self)
        ensures
            r@ == seq![base@],
    {
        let mut segments: Vec<String> = Vec::new();
        segments.push(base);
        let r = DirectoryKeyValueStore { segments };
        proof {
            assert(r@ =~~= seq![r.segments@[0]@]);
        }
        r
    }

    /// A sub-store rooted one directory further down: hierarchical
    /// partitioning, such as one sub-store per namespace.
    pub fn join(&self, p: String) -> (r: Self)
        ensures
            r@ == self@.push(p@),
    {
        let mut segments: Vec<String> = Vec::new();
        let mut i: usize = 0;
        while i < self.segments.len()
            invariant
                0 <= i <= self.segments@.len(),
                segments@.len() == i,
                forall|j: int| 0 <= j < i ==> (#[trigger] segments@[j])@ == self.segments@[j]@,
            decreases self.segments@.len() - i,
        {
            segments.push(self.segments[i].clone());
            i += 1;
        }
        segments.push(p);
        let r = DirectoryKeyValueStore { segments };
        proof {
            assert(r@ =~~= self@.push(p@));
        }
        r
    }

    /// The file name one key is stored under.
    pub fn file_name(&self, key: &[u8]) -> (r: String)
        ensures
            r@ == b64u_of(key@),
            b64u_decoded(r@) == Some(key@),
    {
        b64u_encode(key)
    }
}

/// The keys a directory listing stands for: each file name that
/// decodes, decoded, in order, kept where its key starts with the
/// prefix. A name that is no rendering of a key is skipped silently,
/// like any other foreign directory entry.
pub open spec fn decode_filter(names: Seq<String>, prefix: Seq<u8>) -> Seq<Seq<u8>>
    decreases names.len(),
{
    if names.len() == 0 {
        Seq::empty()
    } else {
        let rest = decode_filter(names.drop_last(), prefix);
        match b64u_decoded(names.last()@) {
            Some(k) => if prefix.is_prefix_of(k) {
                rest.push(k)
            } else {
                rest
            },
            None => rest,
        }
    }
}

/// Decode a directory's file names back to keys and keep those that
/// start with the prefix.
pub fn keys_from_file_names(names: &Vec<String>, prefix: &[u8]) -> (r: Vec<Key>)
    ensures
        r@.map_values(|s: Slice| s@) == decode_filter(names@, prefix@),
{
    let mut out: Vec<Key> = Vec::new();
    let mut i: usize = 0;
    while i < names.len()
        invariant
            0 <= i <= names@.len(),
            out@.map_values(|s: Slice| s@) == decode_filter(names@.take(i as int), prefix@),
        decreases names@.len() - i,
    {
        let ghost done = names@.take(i as int);
        match b64u_decode(names[i].as_str()) {
            Some(k) => {
                if crate::starts_with_bytes(k.as_slice(), prefix) {
                    out.push(Slice { bytes: k });
                }
            },
            None => (),
        }
        proof {
            assert(names@.take(i as int + 1).drop_last() =~= done);
            assert(names@.take(i as int + 1).last() == names@[i as int]);
            assert(out@.map_values(|s: Slice| s@) =~= decode_filter(
                names@.take(i as int + 1),
                prefix@,
            ));
        }
        i += 1;
    }
    proof {
        assert(names@.take(names@.len() as int) =~= names@);
    }
    out
}

} // verus!
