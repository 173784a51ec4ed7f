use vstd::prelude::*;

use crate::engine::Precondition;
use crate::fingerprint::{hex_decode, hex_decoded, is_hex_str};
use crate::KvsError;

verus! {

/// ASCII whitespace, as it pads header tokens.
pub open spec fn is_ascii_space(b: u8) -> bool {
    b == 0x20 || b == 0x09 || b == 0x0a || b == 0x0d
}

/// A byte string with its leading ASCII whitespace dropped.
pub open spec fn trim_front(s: Seq<u8>) -> Seq<u8>
    decreases s.len(),
{
    if s.len() > 0 && is_ascii_space(s[0]) {
        trim_front(s.skip(1))
    } else {
        s
    }
}

/// A byte string with its trailing ASCII whitespace dropped.
pub open spec fn trim_back(s: Seq<u8>) -> Seq<u8>
    decreases s.len(),
{
    if s.len() > 0 && is_ascii_space(s.last()) {
        trim_back(s.drop_last())
    } else {
        s
    }
}

/// A header token with its surrounding ASCII whitespace dropped.
pub open spec fn trimmed(s: Seq<u8>) -> Seq<u8> {
    trim_back(trim_front(s))
}

/// The one-byte wildcard token.
pub open spec fn star() -> Seq<u8> {
    seq![0x2au8]
}

proof fn lemma_trim_front_at(s: Seq<u8>, k: int)
    requires
        0 <= k <= s.len(),
        forall|j: int| 0 <= j < k ==> is_ascii_space(#[trigger] s[j]),
        k == s.len() || !is_ascii_space(s[k]),
    ensures
        trim_front(s) == s.skip(k),
    decreases k,
{
    if k == 0 {
        assert(s.skip(0) =~= s);
    } else {
        assert(is_ascii_space(s[0]));
        lemma_trim_front_at(s.skip(1), k - 1);
        assert(s.skip(1).skip(k - 1) =~= s.skip(k));
    }
}

proof fn lemma_trim_back_at(s: Seq<u8>, k: int)
    requires
        0 <= k <= s.len(),
        forall|j: int| k <= j < s.len() ==> is_ascii_space(#[trigger] s[j]),
        k == 0 || !is_ascii_space(s[k - 1]),
    ensures
        trim_back(s) == s.take(k),
    decreases s.len() - k,
{
    if k == s.len() {
        if s.len() > 0 {
            assert(!is_ascii_space(s.last()));
        }
        assert(s.take(k) =~= s);
    } else {
        assert(is_ascii_space(s.last()));
        lemma_trim_back_at(s.drop_last(), k);
        assert(s.drop_last().take(k) =~= s.take(k));
    }
}

fn byte_is_space(b: u8) -> (r: bool)
    ensures
        r == is_ascii_space(b),
{
    b == 0x20 || b == 0x09 || b == 0x0a || b == 0x0d
}

/// A header token with its surrounding ASCII whitespace dropped.
pub fn trim_ascii(s: &[u8]) -> (r: Vec<u8>)
    ensures
        r@ == trimmed(s@),
{
    let mut lo: usize = 0;
    while lo < s.len() && byte_is_space(s[lo])
        invariant
            0 <= lo <= s@.len(),
            forall|j: int| 0 <= j < lo ==> is_ascii_space(#[trigger] s@[j]),
        decreases s@.len() - lo,
    {
        lo += 1;
    }
    let mut hi: usize = s.len();
    while hi > lo && byte_is_space(s[hi - 1])
        invariant
            lo <= hi <= s@.len(),
            forall|j: int| hi <= j < s@.len() ==> is_ascii_space(#[trigger] s@[j]),
        decreases hi,
    {
        hi -= 1;
    }
    proof {
        lemma_trim_front_at(s@, lo as int);
        assert forall|j: int| hi - lo <= j < s@.skip(lo as int).len() implies is_ascii_space(
            #[trigger] s@.skip(lo as int)[j],
        ) by {
            assert(s@.skip(lo as int)[j] == s@[j + lo]);
        }
        if hi > lo {
            assert(s@.skip(lo as int)[hi - lo - 1] == s@[hi - 1]);
        }
        lemma_trim_back_at(s@.skip(lo as int), hi - lo);
        assert(s@.skip(lo as int).take(hi - lo) =~= s@.subrange(lo as int, hi as int));
    }
    vstd::slice::slice_to_vec(vstd::slice::slice_subrange(s, lo, hi))
}

/// Read the boundary's conditional tokens into the engine's
/// precondition. An if-none-match token must be the wildcard, and wins
/// over any if-match token beside it; an if-match token is the wildcard
/// or a hex-encoded fingerprint; no token at all is the unconditional
/// write. Anything else is the caller's error, refused before it
/// reaches any engine.
pub fn parse_preconditions(if_match: Option<&Vec<u8>>, if_none_match: Option<&Vec<u8>>) -> (r:
    Result<Precondition, KvsError>)
    ensures
        ({
            let im = match if_match {
                Some(v) => Some(v@),
                None => None::<Seq<u8>>,
            };
            let inm = match if_none_match {
                Some(v) => Some(v@),
                None => None::<Seq<u8>>,
            };
            match r {
                Ok(p) => match p {
                    Precondition::IfNoneMatchAny => inm matches Some(s) && trimmed(s) == star(),
                    Precondition::IfMatchAny => inm is None && (im matches Some(s) && trimmed(s)
                        == star()),
                    Precondition::IfMatchFingerprint(fp) => inm is None && (im matches Some(s)
                        && trimmed(s) != star() && is_hex_str(trimmed(s)) && fp@ == hex_decoded(
                        trimmed(s),
                    )),
                    Precondition::Unconditional => inm is None && im is None,
                },
                Err(e) => e == KvsError::BadRequest && ((inm matches Some(s) && trimmed(s)
                    != star()) || (inm is None && (im matches Some(s) && trimmed(s) != star()
                    && !is_hex_str(trimmed(s))))),
            }
        }),
{
    if let Some(tok) = if_none_match {
        let t = trim_ascii(tok.as_slice());
        if t.len() == 1 && t[0] == 0x2a {
            proof {
                assert(t@ =~= star());
            }
            Ok(Precondition::IfNoneMatchAny)
        } else {
            proof {
                if t@ == star() {
                    assert(t@.len() == 1 && t@[0] == 0x2a);
                }
            }
            Err(KvsError::BadRequest)
        }
    } else if let Some(tok) = if_match {
        let t = trim_ascii(tok.as_slice());
        if t.len() == 1 && t[0] == 0x2a {
            proof {
                assert(t@ =~= star());
            }
            Ok(Precondition::IfMatchAny)
        } else {
            proof {
                if t@ == star() {
                    assert(t@.len() == 1 && t@[0] == 0x2a);
                }
            }
            match hex_decode(t.as_slice()) {
                Some(fp) => Ok(Precondition::IfMatchFingerprint(fp)),
                None => Err(KvsError::BadRequest),
            }
        }
    } else {
        Ok(Precondition::Unconditional)
    }
}

/// One byte of a literal pattern: the matcher's two wildcards and the
/// escape itself are hidden behind the escape, every other byte stands
/// as itself.
pub open spec fn like_escape_byte(b: u8) -> Seq<u8> {
    if b == 0x25 || b == 0x5f || b == 0x5c {
        seq![0x5cu8, b]
    } else {
        seq![b]
    }
}

/// A byte string with every pattern metacharacter escaped, so a
/// pattern matcher reads it as literal bytes.
pub open spec fn like_escaped(p: Seq<u8>) -> Seq<u8>
    decreases p.len(),
{
    if p.len() == 0 {
        Seq::empty()
    } else {
        like_escaped(p.drop_last()) + like_escape_byte(p.last())
    }
}

/// The pattern for a single-statement prefix listing: the prefix
/// escaped to match literally, then the any-suffix wildcard. An
/// unescaped prefix would let its own wildcard bytes match keys outside
/// the prefix.
pub fn like_pattern(prefix: &[u8]) -> (r: Vec<u8>)
    ensures
        r@ == like_escaped(prefix@) + seq![0x25u8],
{
    let mut out: Vec<u8> = Vec::new();
    let mut i: usize = 0;
    while i < prefix.len()
        invariant
            0 <= i <= prefix@.len(),
            out@ == like_escaped(prefix@.take(i as int)),
        decreases prefix@.len() - i,
    {
        let b = prefix[i];
        if b == 0x25 || b == 0x5f || b == 0x5c {
            out.push(0x5c);
            out.push(b);
        } else {
            out.push(b);
        }
        proof {
            assert(prefix@.take(i as int + 1).drop_last() =~= prefix@.take(i as int));
            assert(prefix@.take(i as int + 1).last() == prefix@[i as int]);
            assert(out@ =~= like_escaped(prefix@.take(i as int + 1)));
        }
        i += 1;
    }
    proof {
        assert(prefix@.take(prefix@.len() as int) =~= prefix@);
    }
    out.push(0x25);
    proof {
        assert(out@ =~= like_escaped(prefix@) + seq![0x25u8]);
    }
    out
}

/// What a listing request may carry: an optional literal key prefix.
pub struct ListInfo {
    pub prefix: Option<String>,
}

/// The listing reply: the scope asked about, and the keys with their
/// count.
pub struct ListResponse {
    pub workspace: String,
    pub namespace: String,
    pub count: usize,
    pub keys: Vec<String>,
}

/// Assemble a listing reply; the count is the number of keys.
pub fn list_response(workspace: String, namespace: String, keys: Vec<String>) -> (r: ListResponse)
    ensures
        r.count == keys@.len(),
        r.keys == keys,
        r.workspace == workspace,
        r.namespace == namespace,
{
    let count = keys.len();
    ListResponse { workspace, namespace, count, keys }
}

} // verus!
