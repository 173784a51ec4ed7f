use vstd::prelude::*;

use crate::starts_with_bytes;

verus! {

/// The two statement dialects a connected database may speak. The
/// classification picks the matching migration set; it is read once at
/// startup and plays no part in steady-state request handling.
#[derive(Clone, Copy, PartialEq, Eq, Structural, Debug)]
pub enum SqlDialect {
    Standard,
    Cockroach,
}

/// Whether `pat` occurs somewhere in `s` as a contiguous byte run.
pub open spec fn contains_bytes(s: Seq<u8>, pat: Seq<u8>) -> bool {
    exists|o: int| 0 <= o <= s.len() - pat.len() && pat.is_prefix_of(#[trigger] s.skip(o))
}

/// Whether the byte string `pat` occurs anywhere in `s`.
pub fn contains_subslice(s: &[u8], pat: &[u8]) -> (r: bool)
    ensures
        r == contains_bytes(s@, pat@),
{
    if pat.len() > s.len() {
        return false;
    }
    let mut o: usize = 0;
    while o <= s.len() - pat.len()
        invariant
            pat@.len() <= s@.len(),
            0 <= o <= s@.len() - pat@.len() + 1,
            forall|q: int| 0 <= q < o ==> !pat@.is_prefix_of(#[trigger] s@.skip(q)),
        decreases s@.len() - pat@.len() + 1 - o,
    {
        if starts_with_bytes(vstd::slice::slice_subrange(s, o, s.len()), pat) {
            proof {
                assert(s@.subrange(o as int, s@.len() as int) =~= s@.skip(o as int));
            }
            return true;
        }
        proof {
            assert(s@.subrange(o as int, s@.len() as int) =~= s@.skip(o as int));
        }
        o += 1;
    }
    false
}

/// The marker whose presence in a reported version line names the
/// second dialect.
pub open spec fn cockroach_mark() -> Seq<u8> {
    seq![0x43u8, 0x6fu8, 0x63u8, 0x6bu8, 0x72u8, 0x6fu8, 0x61u8, 0x63u8, 0x68u8, 0x44u8, 0x42u8]
}

/// Classify the connected database's reported version line into one of
/// the two dialects: a one-time, non-reentrant probe at startup.
pub fn classify_version(version: &[u8]) -> (r: SqlDialect)
    ensures
        r == SqlDialect::Cockroach <==> contains_bytes(version@, cockroach_mark()),
{
    let mut pat: Vec<u8> = Vec::new();
    pat.push(0x43);
    pat.push(0x6f);
    pat.push(0x63);
    pat.push(0x6b);
    pat.push(0x72);
    pat.push(0x6f);
    pat.push(0x61);
    pat.push(0x63);
    pat.push(0x68);
    pat.push(0x44);
    pat.push(0x42);
    proof {
        assert(pat@ =~= cockroach_mark());
    }
    if contains_subslice(version, pat.as_slice()) {
        SqlDialect::Cockroach
    } else {
        SqlDialect::Standard
    }
}

} // verus!
