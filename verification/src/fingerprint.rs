use vstd::prelude::*;

verus! {

/// What the digest of a byte string is. The digest itself is computed by
/// outside code; the library relies only on its being a function of the
/// value bytes alone, sixteen bytes long.
pub uninterp spec fn digest_of(v: Seq<u8>) -> Seq<u8>;

/// Relies on md5::compute: the digest is sixteen bytes computed from the
/// value bytes alone.
#[verifier::external_body]
pub(crate) fn compute_digest(v: &[u8]) -> (r: [u8; 16])
    ensures
        r@ == digest_of(v@),
{
    md5::compute(v).0
}

/// The lower-case hex character for a value below sixteen.
pub open spec fn hex_char(n: u8) -> char
    recommends
        n < 16,
{
    if n < 10 {
        ((n + 0x30) as u8) as char
    } else {
        ((n + 0x57) as u8) as char
    }
}

/// The lower-case hex rendering of a byte string, two characters a byte,
/// high half first.
pub open spec fn hex_seq(b: Seq<u8>) -> Seq<char>
    decreases b.len(),
{
    if b.len() == 0 {
        Seq::empty()
    } else {
        seq![hex_char((b[0] / 16) as u8), hex_char((b[0] % 16) as u8)] + hex_seq(b.skip(1))
    }
}

/// Relies on hex::encode: the result is the lower-case hex rendering of
/// the input bytes, two digits a byte.
#[verifier::external_body]
fn hex_encode(b: &[u8]) -> (r: String)
    ensures
        r@ == hex_seq(b@),
{
    hex::encode(b)
}

/// Whether a byte is the ASCII code of a hex digit, either case.
pub open spec fn is_hex_digit_byte(c: u8) -> bool {
    (0x30 <= c <= 0x39) || (0x61 <= c <= 0x66) || (0x41 <= c <= 0x46)
}

/// The value of a hex digit given as its ASCII code.
pub open spec fn hex_val(c: u8) -> int
    recommends
        is_hex_digit_byte(c),
{
    if 0x30 <= c <= 0x39 {
        c - 0x30
    } else if 0x61 <= c <= 0x66 {
        c - 0x57
    } else {
        c - 0x37
    }
}

/// Whether a byte string is a well-formed hex rendering: an even number
/// of hex digits.
pub open spec fn is_hex_str(s: Seq<u8>) -> bool {
    s.len() % 2 == 0 && forall|i: int| 0 <= i < s.len() ==> is_hex_digit_byte(#[trigger] s[i])
}

/// The bytes a well-formed hex rendering stands for.
pub open spec fn hex_decoded(s: Seq<u8>) -> Seq<u8>
    recommends
        is_hex_str(s),
    decreases s.len(),
{
    if s.len() < 2 {
        Seq::empty()
    } else {
        seq![(hex_val(s[0]) * 16 + hex_val(s[1])) as u8] + hex_decoded(s.skip(2))
    }
}

/// Relies on hex::decode: it succeeds exactly on an even number of hex
/// digits and hands back the bytes they stand for.
#[verifier::external_body]
pub(crate) fn hex_decode(s: &[u8]) -> (r: Option<Vec<u8>>)
    ensures
        r is Some <==> is_hex_str(s@),
        r matches Some(v) ==> v@ == hex_decoded(s@),
{
    hex::decode(s).ok()
}

/// The hex validator a stored fingerprint is reported as.
pub fn fingerprint_hex(fp: &[u8; 16]) -> (r: String)
    ensures
        r@ == hex_seq(fp@),
{
    hex_encode(fp.as_slice())
}

} // verus!
