use vstd::prelude::*;

use crate::{lists_exactly, starts_with_bytes, Entry, Key, KeyValueStore, KvsError, Slice, Value};

verus! {

#[verifier::external_type_specification]
#[verifier::external_body]
#[verifier::reject_recursive_types(K)]
#[verifier::reject_recursive_types(V)]
#[verifier::reject_recursive_types(S)]
pub struct ExDashMap<K, V, S>(dashmap::DashMap<K, V, S>);

/// What the sharded map holds: its key bytes mapped to its value bytes.
pub uninterp spec fn dash_contents(m: dashmap::DashMap<Vec<u8>, Vec<u8>>) -> Map<
    Seq<u8>,
    Seq<u8>,
>;

/// Relies on dashmap::DashMap::new: a freshly made map holds nothing.
#[verifier::external_body]
fn dash_new() -> (m: dashmap::DashMap<Vec<u8>, Vec<u8>>)
    ensures
        dash_contents(m) =~= Map::empty(),
{
    dashmap::DashMap::new()
}

/// Relies on dashmap::DashMap::insert: the value is stored under the key,
/// every other entry kept.
#[verifier::external_body]
fn dash_insert(m: &mut dashmap::DashMap<Vec<u8>, Vec<u8>>, key: Vec<u8>, value: Vec<u8>)
    ensures
        dash_contents(*final(m)) == dash_contents(*old(m)).insert(key@, value@),
{
    m.insert(key, value);
}

/// Relies on dashmap::DashMap::remove: the entry under the key leaves the
/// map and its value is handed back; an absent key gives None.
#[verifier::external_body]
fn dash_remove(m: &mut dashmap::DashMap<Vec<u8>, Vec<u8>>, key: &Vec<u8>) -> (r: Option<Vec<u8>>)
    ensures
        r is Some == dash_contents(*old(m)).contains_key(key@),
        dash_contents(*final(m)) == dash_contents(*old(m)).remove(key@),
{
    m.remove(key).map(|kv: (Vec<u8>, Vec<u8>)| kv.1)
}

/// Relies on dashmap::DashMap::get: the value stored under the key is
/// handed back; an absent key gives None.
#[verifier::external_body]
fn dash_get(m: &dashmap::DashMap<Vec<u8>, Vec<u8>>, key: &Vec<u8>) -> (r: Option<Vec<u8>>)
    ensures
        r is Some == dash_contents(*m).contains_key(key@),
        r matches Some(v) ==> v@ == dash_contents(*m)[key@],
{
    m.get(key).map(|entry| entry.value().clone())
}

/// Relies on dashmap::DashMap::contains_key.
#[verifier::external_body]
fn dash_contains(m: &dashmap::DashMap<Vec<u8>, Vec<u8>>, key: &Vec<u8>) -> (r: bool)
    ensures
        r == dash_contents(*m).contains_key(key@),
{
    m.contains_key(key)
}

/// Relies on dashmap::DashMap::iter: with no writer running beside it the
/// walk yields every entry exactly once, in no promised order.
#[verifier::external_body]
fn dash_keys(m: &dashmap::DashMap<Vec<u8>, Vec<u8>>) -> (r: Vec<Vec<u8>>)
    ensures
        forall|i: int, j: int|
            0 <= i < j < r@.len() ==> (#[trigger] r@[i])@ != (#[trigger] r@[j])@,
        forall|i: int| 0 <= i < r@.len() ==> dash_contents(*m).contains_key((#[trigger] r@[i])@),
        forall|k: Seq<u8>|
            #[trigger] dash_contents(*m).contains_key(k) ==> exists|i: int|
                0 <= i < r@.len() && (#[trigger] r@[i])@ == k,
{
    m.iter().map(|entry| entry.key().clone()).collect()
}

/// The in-process backend: a concurrent map keyed by exact byte sequence,
/// with no tenant hierarchy and no fingerprint tracking.
pub struct MemoryKeyValueStore {
    store: dashmap::DashMap<Vec<u8>, Vec<u8>>,
}

impl MemoryKeyValueStore {
    pub fn new() -> (r: Self)
        ensures
            r.contents() == Map::<Seq<u8>, Seq<u8>>::empty(),
    {
        MemoryKeyValueStore { store: dash_new() }
    }
}

impl Default for MemoryKeyValueStore {
    fn default() -> (r: Self)
        ensures
            r.contents() == Map::<Seq<u8>, Seq<u8>>::empty(),
    {
        MemoryKeyValueStore::new()
    }
}

impl KeyValueStore for MemoryKeyValueStore {
    closed spec fn contents(&self) -> Map<Seq<u8>, Seq<u8>> {
        dash_contents(self.store)
    }

    fn insert(&mut self, key: Key, value: Value) -> (r: Result<(), KvsError>)
        ensures
            r is Ok,
    {
        dash_insert(&mut self.store, key.bytes, value.bytes);
        Ok(())
    }

    fn remove(&mut self, key: &Key) -> (r: Result<bool, KvsError>)
        ensures
            r is Ok,
    {
        let prior = dash_remove(&mut self.store, &key.bytes);
        Ok(prior.is_some())
    }

    fn get(&self, key: &Key) -> (r: Result<Option<Entry>, KvsError>)
        ensures
            r is Ok,
    {
        match dash_get(&self.store, &key.bytes) {
            Some(value) => Ok(
                Some(
                    Entry {
                        key: Slice { bytes: vstd::slice::slice_to_vec(key.bytes.as_slice()) },
                        value: Slice { bytes: value },
                        md5: None,
                    },
                ),
            ),
            None => Ok(None),
        }
    }

    fn contains(&self, key: &Key) -> (r: Result<bool, KvsError>)
        ensures
            r is Ok,
    {
        Ok(dash_contains(&self.store, &key.bytes))
    }

    #[verifier::rlimit(100)]
    fn list(&self, prefix: &Key) -> (r: Result<Vec<Key>, KvsError>)
        ensures
            r is Ok,
    {
        let all = dash_keys(&self.store);
        let mut out: Vec<Key> = Vec::new();
        let mut n: usize = 0;
        while n < all.len()
            invariant
                0 <= n <= all@.len(),
                forall|i: int, j: int|
                    0 <= i < j < all@.len() ==> (#[trigger] all@[i])@ != (#[trigger] all@[j])@,
                forall|i: int|
                    0 <= i < all@.len() ==> self.contents().contains_key((#[trigger] all@[i])@),
                forall|k: Seq<u8>|
                    #[trigger] self.contents().contains_key(k) ==> exists|i: int|
                        0 <= i < all@.len() && (#[trigger] all@[i])@ == k,
                forall|i: int|
                    0 <= i < out@.len() ==> exists|j: int|
                        0 <= j < n && (#[trigger] out@[i])@ == (#[trigger] all@[j])@,
                forall|i: int|
                    0 <= i < out@.len() ==> self.contents().contains_key((#[trigger] out@[i])@)
                        && prefix@.is_prefix_of(out@[i]@),
                forall|i: int, j: int|
                    0 <= i < j < out@.len() ==> (#[trigger] out@[i])@ != (#[trigger] out@[j])@,
                forall|j: int|
                    0 <= j < n && prefix@.is_prefix_of((#[trigger] all@[j])@) ==> exists|i: int|
                        0 <= i < out@.len() && (#[trigger] out@[i])@ == all@[j]@,
            decreases all@.len() - n,
        {
            let candidate = &all[n];
            if starts_with_bytes(candidate.as_slice(), prefix.bytes.as_slice()) {
                let ghost out0 = out@;
                proof {
                    assert forall|i: int| 0 <= i < out0.len() implies (#[trigger] out0[i])@
                        != (all@[n as int])@ by {
                        let j = choose|j: int| 0 <= j < n && (out0[i])@ == (#[trigger] all@[j])@;
                        assert((all@[j])@ != (all@[n as int])@);
                    }
                }
                out.push(Slice { bytes: vstd::slice::slice_to_vec(candidate.as_slice()) });
                proof {
                    let last = out@.len() - 1;
                    assert((out@[last])@ == (all@[n as int])@);
                    assert(forall|i: int| 0 <= i < out0.len() ==> out@[i] == out0[i]);
                    assert forall|i: int| 0 <= i < out@.len() implies exists|j: int|
                        0 <= j < n + 1 && (#[trigger] out@[i])@ == (#[trigger] all@[j])@ by {
                        if i < last {
                            let j = choose|j: int|
                                0 <= j < n && (out0[i])@ == (#[trigger] all@[j])@;
                            assert(0 <= j < n + 1 && (out@[i])@ == (all@[j])@);
                        } else {
                            assert((out@[i])@ == (all@[n as int])@);
                        }
                    }
                    assert forall|j: int|
                        0 <= j < n + 1 && prefix@.is_prefix_of((#[trigger] all@[j])@)
                        implies exists|i: int|
                        0 <= i < out@.len() && (#[trigger] out@[i])@ == (all@[j])@ by {
                        if j < n {
                            let i = choose|i: int|
                                0 <= i < out0.len() && (#[trigger] out0[i])@ == (all@[j])@;
                            assert(0 <= i < out@.len() && (out@[i])@ == (all@[j])@);
                        } else {
                            assert(0 <= last < out@.len() && (out@[last])@ == (all@[j])@);
                        }
                    }
                }
            }
            n += 1;
        }
        proof {
            assert forall|k: Seq<u8>|
                self.contents().contains_key(k) && #[trigger] prefix@.is_prefix_of(k)
                implies exists|i: int| 0 <= i < out@.len() && (#[trigger] out@[i])@ == k by {
                let j = choose|j: int| 0 <= j < all@.len() && (#[trigger] all@[j])@ == k;
                assert(prefix@.is_prefix_of((all@[j])@));
                let i = choose|i: int| 0 <= i < out@.len() && (#[trigger] out@[i])@ == (all@[j])@;
                assert((out@[i])@ == k);
            }
            assert(lists_exactly(self.contents(), prefix@, out@));
        }
        Ok(out)
    }
}

} // verus!
