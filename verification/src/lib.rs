use vstd::prelude::*;

pub mod address;
pub mod directory;
pub mod engine;
pub mod fingerprint;
pub mod guard;
pub mod memory;
pub mod protocol;
pub mod variant;

verus! {

/// An owned byte string: the unit in which every backend stores keys and
/// values.
#[derive(Clone, Hash, PartialEq, Eq, Debug)]
pub struct Slice {
    pub bytes: Vec<u8>,
}

impl View for Slice {
    type V = Seq<u8>;

    open spec fn view(&self) -> Seq<u8> {
        self.bytes@
    }
}

impl Slice {
    pub fn new(bytes: &[u8]) -> (r: Self)
        ensures
            r@ == bytes@,
    {
        Slice { bytes: vstd::slice::slice_to_vec(bytes) }
    }
}

impl From<Vec<u8>> for Slice {
    fn from(bytes: Vec<u8>) -> (r: Slice) {
        Slice { bytes }
    }
}

impl vstd::std_specs::convert::FromSpecImpl<Vec<u8>> for Slice {
    open spec fn obeys_from_spec() -> bool {
        true
    }

    open spec fn from_spec(v: Vec<u8>) -> Slice {
        Slice { bytes: v }
    }
}

impl From<Slice> for Vec<u8> {
    fn from(value: Slice) -> (r: Vec<u8>) {
        value.bytes
    }
}

impl vstd::std_specs::convert::FromSpecImpl<Slice> for Vec<u8> {
    open spec fn obeys_from_spec() -> bool {
        true
    }

    open spec fn from_spec(v: Slice) -> Vec<u8> {
        v.bytes
    }
}

pub type Key = Slice;
pub type Value = Slice;

/// One stored record, as a backend hands it back: the key it was found
/// under, the value bytes, and the value's fingerprint where the backend
/// tracks one.
#[derive(Clone, Debug)]
pub struct Entry {
    pub key: Key,
    pub value: Value,
    pub md5: Option<[u8; 16]>,
}

/// The error classes every backend reports through. `NotFound` stands for
/// absence only where absence is a fault; a plain missing key is an `Ok`
/// outcome, never an error.
#[derive(Clone, Copy, PartialEq, Eq, Structural, Debug)]
pub enum KvsError {
    NotFound,
    PreconditionFailed,
    Forbidden,
    BadRequest,
    BackendUnavailable,
    InvariantViolation,
}

/// Byte-wise equality of two byte slices.
pub fn bytes_eq(a: &[u8], b: &[u8]) -> (r: bool)
    ensures
        r == (a@ == b@),
{
    if a.len() != b.len() {
        return false;
    }
    let mut i: usize = 0;
    while i < a.len()
        invariant
            0 <= i <= a@.len(),
            a@.len() == b@.len(),
            forall|j: int| 0 <= j < i ==> a@[j] == b@[j],
        decreases a@.len() - i,
    {
        if a[i] != b[i] {
            return false;
        }
        i += 1;
    }
    proof {
        assert(a@ =~= b@);
    }
    true
}

/// Whether the byte string `k` starts with the byte string `p`.
pub fn starts_with_bytes(k: &[u8], p: &[u8]) -> (r: bool)
    ensures
        r == p@.is_prefix_of(k@),
{
    if p.len() > k.len() {
        return false;
    }
    let mut i: usize = 0;
    while i < p.len()
        invariant
            0 <= i <= p@.len(),
            p@.len() <= k@.len(),
            forall|j: int| 0 <= j < i ==> p@[j] == k@[j],
        decreases p@.len() - i,
    {
        if p[i] != k[i] {
            assert(p@[i as int] != k@.subrange(0, p@.len() as int)[i as int]);
            return false;
        }
        i += 1;
    }
    proof {
        assert(p@ =~= k@.subrange(0, p@.len() as int));
    }
    true
}

/// What a correct listing is: `keys` holds, each exactly once and in no
/// promised order, every key of `m` that starts with `prefix`, and
/// nothing else.
pub open spec fn lists_exactly(m: Map<Seq<u8>, Seq<u8>>, prefix: Seq<u8>, keys: Seq<Slice>) -> bool {
    &&& forall|i: int, j: int|
        0 <= i < j < keys.len() ==> (#[trigger] keys[i])@ != (#[trigger] keys[j])@
    &&& forall|i: int|
        0 <= i < keys.len() ==> m.contains_key((#[trigger] keys[i])@) && prefix.is_prefix_of(
            keys[i]@,
        )
    &&& forall|k: Seq<u8>|
        m.contains_key(k) && #[trigger] prefix.is_prefix_of(k) ==> exists|i: int|
            0 <= i < keys.len() && (#[trigger] keys[i])@ == k
}

/// Law: after a write of value `v` under key `k`, a read of `k` gives
/// back exactly `v`, whatever was stored before; and writing the same
/// value again changes nothing, the overwrite being idempotent.
pub proof fn lemma_insert_then_get(m: Map<Seq<u8>, Seq<u8>>, k: Seq<u8>, v: Seq<u8>)
    ensures
        m.insert(k, v).contains_key(k),
        m.insert(k, v)[k] == v,
        m.insert(k, v).insert(k, v) == m.insert(k, v),
{
    assert(m.insert(k, v).insert(k, v) =~= m.insert(k, v));
}

/// Law: removing an absent key leaves the state exactly as it was.
pub proof fn lemma_remove_absent(m: Map<Seq<u8>, Seq<u8>>, k: Seq<u8>)
    requires
        !m.contains_key(k),
    ensures
        m.remove(k) == m,
{
    assert(m.remove(k) =~= m);
}

/// Law: a write under `k` makes `k` present, so the removal right
/// after it reports true, and a read after the removal finds nothing.
pub proof fn lemma_insert_then_remove(m: Map<Seq<u8>, Seq<u8>>, k: Seq<u8>, v: Seq<u8>)
    ensures
        m.insert(k, v).contains_key(k),
        !m.insert(k, v).remove(k).contains_key(k),
{
}

/// Whether some element of `keys` holds the key bytes `k`.
pub open spec fn key_listed(keys: Seq<Slice>, k: Seq<u8>) -> bool {
    exists|i: int| 0 <= i < keys.len() && (#[trigger] keys[i])@ == k
}

/// Law: a listing is a function of the stored map alone. Two listings
/// of the same contents hold exactly the same keys, in whatever order
/// the entries were inserted or the store was walked.
pub proof fn lemma_listing_set_determined(
    m: Map<Seq<u8>, Seq<u8>>,
    prefix: Seq<u8>,
    keys1: Seq<Slice>,
    keys2: Seq<Slice>,
)
    requires
        lists_exactly(m, prefix, keys1),
        lists_exactly(m, prefix, keys2),
    ensures
        forall|k: Seq<u8>| #[trigger] key_listed(keys1, k) <==> #[trigger] key_listed(keys2, k),
{
    assert forall|k: Seq<u8>| #[trigger] key_listed(keys1, k) <==> #[trigger] key_listed(
        keys2,
        k,
    ) by {
        if key_listed(keys1, k) {
            let i = choose|i: int| 0 <= i < keys1.len() && (#[trigger] keys1[i])@ == k;
            assert(m.contains_key(k) && prefix.is_prefix_of(k));
        }
        if key_listed(keys2, k) {
            let i = choose|i: int| 0 <= i < keys2.len() && (#[trigger] keys2[i])@ == k;
            assert(m.contains_key(k) && prefix.is_prefix_of(k));
        }
    }
}

/// The capability set that every backend offers: idempotent insert,
/// remove reporting prior presence, get and contains with absence as a
/// normal outcome, and listing by exact byte prefix. Each implementation
/// is verified against the one abstract map of key bytes to value bytes.
pub trait KeyValueStore: Sized {
    /// The abstract state: which value bytes sit under which key bytes.
    spec fn contents(&self) -> Map<Seq<u8>, Seq<u8>>;

    /// Idempotent overwrite; no precondition semantics at this layer.
    fn insert(&mut self, key: Key, value: Value) -> (r: Result<(), KvsError>)
        ensures
            r is Ok ==> final(self).contents() == old(self).contents().insert(key@, value@),
            r is Err ==> final(self).contents() == old(self).contents(),
    ;

    /// True exactly when an entry existed and was deleted; absence is not
    /// an error.
    fn remove(&mut self, key: &Key) -> (r: Result<bool, KvsError>)
        ensures
            r matches Ok(b) ==> b == old(self).contents().contains_key(key@)
                && final(self).contents() == old(self).contents().remove(key@),
            r is Err ==> final(self).contents() == old(self).contents(),
    ;

    /// The stored entry under `key`, or `None` where nothing is stored.
    fn get(&self, key: &Key) -> (r: Result<Option<Entry>, KvsError>)
        ensures
            r matches Ok(e) ==> match e {
                Some(e) => self.contents().contains_key(key@)
                    && e.key@ == key@
                    && e.value@ == self.contents()[key@],
                None => !self.contents().contains_key(key@),
            },
    ;

    /// Whether an entry is stored under `key`.
    fn contains(&self, key: &Key) -> (r: Result<bool, KvsError>)
        ensures
            r matches Ok(b) ==> b == self.contents().contains_key(key@),
    ;

    /// Every stored key that starts with `prefix`, each exactly once, in
    /// no promised order.
    fn list(&self, prefix: &Key) -> (r: Result<Vec<Key>, KvsError>)
        ensures
            r matches Ok(keys) ==> lists_exactly(self.contents(), prefix@, keys@),
    ;
}

} // verus!
