use vstd::prelude::*;

use crate::address::{addr_eq, workspace_view, AddressKey, AddressView, WorkspaceId};
use crate::fingerprint::{compute_digest, digest_of};
use crate::{bytes_eq, starts_with_bytes, Entry, KvsError, Slice};

verus! {

/// The address of key `k` under tenant `ws` and namespace `ns`.
pub open spec fn scope_addr(ws: Option<Seq<u8>>, ns: Seq<char>, k: Seq<u8>) -> AddressView {
    AddressView { workspace: ws, namespace: ns, key: k }
}

/// Whether an address lies in the given tenant scope and, where a
/// prefix is given, its key starts with it.
pub open spec fn in_scope(
    a: AddressView,
    ws: Option<Seq<u8>>,
    ns: Seq<char>,
    prefix: Option<Seq<u8>>,
) -> bool {
    a.workspace == ws && a.namespace == ns && match prefix {
        Some(p) => p.is_prefix_of(a.key),
        None => true,
    }
}

/// What a correct scoped listing is: `keys` holds, each exactly once
/// and in no promised order, the key of every stored address in the
/// scope that passes the prefix, and nothing else.
pub open spec fn scope_listing(
    t: Map<AddressView, RecordView>,
    ws: Option<Seq<u8>>,
    ns: Seq<char>,
    prefix: Option<Seq<u8>>,
    keys: Seq<Vec<u8>>,
) -> bool {
    &&& forall|i: int, j: int|
        0 <= i < j < keys.len() ==> (#[trigger] keys[i])@ != (#[trigger] keys[j])@
    &&& forall|i: int|
        0 <= i < keys.len() ==> t.contains_key(scope_addr(ws, ns, (#[trigger] keys[i])@))
            && match prefix {
            Some(p) => p.is_prefix_of(keys[i]@),
            None => true,
        }
    &&& forall|a: AddressView|
        #[trigger] t.contains_key(a) && in_scope(a, ws, ns, prefix) ==> exists|i: int|
            0 <= i < keys.len() && (#[trigger] keys[i])@ == a.key
}

/// The caller-declared expectation about the current state of an
/// address, gating a conditional write.
#[derive(Clone, Debug)]
pub enum Precondition {
    /// No expectation: an unconditional upsert.
    Unconditional,
    /// The address must hold an entry, whatever its fingerprint.
    IfMatchAny,
    /// The address must hold an entry whose fingerprint equals the given
    /// bytes.
    IfMatchFingerprint(Vec<u8>),
    /// The address must hold no entry.
    IfNoneMatchAny,
}

/// A conditional write that went through, as reported to the caller.
#[derive(Clone, Copy, PartialEq, Eq, Structural, Debug)]
pub enum WriteOutcome {
    Created,
    Updated,
}

/// Whether a precondition lets a write proceed against the current
/// table. An `IfMatchFingerprint` against an absent address and one
/// against a differing fingerprint are deliberately the same refusal.
pub open spec fn permits(
    t: Map<AddressView, RecordView>,
    a: AddressView,
    pre: Precondition,
) -> bool {
    match pre {
        Precondition::Unconditional => true,
        Precondition::IfMatchAny => t.contains_key(a),
        Precondition::IfMatchFingerprint(fp) => t.contains_key(a) && t[a].md5 == fp@,
        Precondition::IfNoneMatchAny => !t.contains_key(a),
    }
}

/// Law: two conditional writers race on one address with the same stale
/// fingerprint. The write the backend serializes first goes through and
/// stores its whole record; after it, the shared precondition no longer
/// permits a write, so the other writer is refused and the stored
/// fingerprint and value stay the winner's, never a mix of the two.
pub proof fn lemma_stale_writer_loses(
    t: Map<AddressView, RecordView>,
    a: AddressView,
    fp: Vec<u8>,
    winner: Seq<u8>,
)
    requires
        permits(t, a, Precondition::IfMatchFingerprint(fp)),
        digest_of(winner) != fp@,
    ensures
        ({
            let t1 = t.insert(a, RecordView { value: winner, md5: digest_of(winner) });
            &&& !permits(t1, a, Precondition::IfMatchFingerprint(fp))
            &&& t1[a].value == winner
            &&& t1[a].md5 == digest_of(winner)
        }),
{
}

/// Law: a create is permitted exactly against an absent address,
/// whatever else the store holds.
pub proof fn lemma_create_iff_absent(t: Map<AddressView, RecordView>, a: AddressView)
    ensures
        permits(t, a, Precondition::IfNoneMatchAny) <==> !t.contains_key(a),
{
}

/// Law: the first create against an absent address is permitted; once
/// it lands, a second create against the same address is refused.
pub proof fn lemma_second_create_fails(
    t: Map<AddressView, RecordView>,
    a: AddressView,
    first: Seq<u8>,
)
    requires
        !t.contains_key(a),
    ensures
        permits(t, a, Precondition::IfNoneMatchAny),
        !permits(
            t.insert(a, RecordView { value: first, md5: digest_of(first) }),
            a,
            Precondition::IfNoneMatchAny,
        ),
{
}

/// What a conditional write reports, given its precondition and how many
/// rows its one statement affected. An unconditional upsert that affects
/// no row breaks an invariant the backend asserted; it is never a
/// precondition failure.
pub open spec fn write_verdict(pre: Precondition, rows: u64) -> Result<WriteOutcome, KvsError> {
    match pre {
        Precondition::Unconditional => if rows == 0 {
            Err(KvsError::InvariantViolation)
        } else {
            Ok(WriteOutcome::Updated)
        },
        Precondition::IfNoneMatchAny => if rows == 0 {
            Err(KvsError::PreconditionFailed)
        } else {
            Ok(WriteOutcome::Created)
        },
        Precondition::IfMatchAny => if rows == 0 {
            Err(KvsError::PreconditionFailed)
        } else {
            Ok(WriteOutcome::Updated)
        },
        Precondition::IfMatchFingerprint(_) => if rows == 0 {
            Err(KvsError::PreconditionFailed)
        } else {
            Ok(WriteOutcome::Updated)
        },
    }
}

/// Decide a conditional write's outcome from the affected-row count of
/// its one statement. Every engine shares this reading, whatever runs
/// the statement.
pub fn interpret_write(pre: &Precondition, rows: u64) -> (r: Result<WriteOutcome, KvsError>)
    ensures
        r == write_verdict(*pre, rows),
{
    match pre {
        Precondition::Unconditional => if rows == 0 {
            Err(KvsError::InvariantViolation)
        } else {
            Ok(WriteOutcome::Updated)
        },
        Precondition::IfNoneMatchAny => if rows == 0 {
            Err(KvsError::PreconditionFailed)
        } else {
            Ok(WriteOutcome::Created)
        },
        Precondition::IfMatchAny => if rows == 0 {
            Err(KvsError::PreconditionFailed)
        } else {
            Ok(WriteOutcome::Updated)
        },
        Precondition::IfMatchFingerprint(_) => if rows == 0 {
            Err(KvsError::PreconditionFailed)
        } else {
            Ok(WriteOutcome::Updated)
        },
    }
}

/// Decide a delete's outcome from the affected-row count of its one
/// statement: one row deleted means the entry existed, none means it did
/// not, and more than one breaks the unique constraint.
pub fn interpret_delete(rows: u64) -> (r: Result<bool, KvsError>)
    ensures
        rows == 0 ==> r == Ok::<bool, KvsError>(false),
        rows == 1 ==> r == Ok::<bool, KvsError>(true),
        rows > 1 ==> r == Err::<bool, KvsError>(KvsError::InvariantViolation),
{
    if rows == 0 {
        Ok(false)
    } else if rows == 1 {
        Ok(true)
    } else {
        Err(KvsError::InvariantViolation)
    }
}

/// The stored payload of one address: the value bytes and their
/// fingerprint.
#[verifier::ext_equal]
pub struct RecordView {
    pub value: Seq<u8>,
    pub md5: Seq<u8>,
}

struct StoredRow {
    address: AddressKey,
    md5: [u8; 16],
    value: Vec<u8>,
}

spec fn row_rec(r: StoredRow) -> RecordView {
    RecordView { value: r.value@, md5: r.md5@ }
}

/// The multi-tenant, fingerprint-tracked store: one logical table
/// uniquely keyed by the address triple, holding fingerprint and value.
pub struct RelationalBackend {
    rows: Vec<StoredRow>,
}

impl RelationalBackend {
    /// The unique constraint: no two rows share an address.
    pub closed spec fn wf(&self) -> bool {
        forall|i: int, j: int|
            0 <= i < j < self.rows@.len() ==> (#[trigger] self.rows@[i]).address@ != (
            #[trigger] self.rows@[j]).address@
    }

    spec fn has_addr(&self, a: AddressView) -> bool {
        exists|i: int| 0 <= i < self.rows@.len() && (#[trigger] self.rows@[i]).address@ == a
    }

    spec fn idx_of(&self, a: AddressView) -> int {
        choose|i: int| 0 <= i < self.rows@.len() && (#[trigger] self.rows@[i]).address@ == a
    }

    /// The persisted rows, read as the map they stand for. The rows are
    /// the sole source of truth: contracts speak only of this map.
    pub closed spec fn table(&self) -> Map<AddressView, RecordView> {
        Map::new(
            |a: AddressView| self.has_addr(a),
            |a: AddressView| row_rec(self.rows@[self.idx_of(a)]),
        )
    }

    proof fn lemma_row_lookup(&self, i: int)
        requires
            self.wf(),
            0 <= i < self.rows@.len(),
        ensures
            self.table().contains_key(self.rows@[i].address@),
            self.table()[self.rows@[i].address@] == row_rec(self.rows@[i]),
    {
        let a = self.rows@[i].address@;
        assert(self.has_addr(a));
        let j = self.idx_of(a);
        assert(0 <= j < self.rows@.len() && self.rows@[j].address@ == a);
        if i < j {
            assert(self.rows@[i].address@ != self.rows@[j].address@);
        } else if j < i {
            assert(self.rows@[j].address@ != self.rows@[i].address@);
        }
    }

    pub fn new() -> (r: Self)
        ensures
            r.wf(),
            r.table() =~= Map::empty(),
    {
        let r = RelationalBackend { rows: Vec::new() };
        proof {
            assert forall|a: AddressView| !r.table().contains_key(a) by {
                assert(!r.has_addr(a));
            }
        }
        r
    }

    /// The single-row lookup: the index of the row under `addr`, or the
    /// assurance that none exists.
    fn find(&self, addr: &AddressKey) -> (r: Option<usize>)
        requires
            self.wf(),
        ensures
            match r {
                Some(i) => i < self.rows@.len() && self.rows@[i as int].address@ == addr@
                    && self.table().contains_key(addr@) && self.table()[addr@] == row_rec(
                    self.rows@[i as int],
                ),
                None => !self.table().contains_key(addr@),
            },
    {
        let mut i: usize = 0;
        while i < self.rows.len()
            invariant
                self.wf(),
                0 <= i <= self.rows@.len(),
                forall|j: int| 0 <= j < i ==> (#[trigger] self.rows@[j]).address@ != addr@,
            decreases self.rows@.len() - i,
        {
            if addr_eq(&self.rows[i].address, addr) {
                proof {
                    self.lemma_row_lookup(i as int);
                }
                return Some(i);
            }
            i += 1;
        }
        proof {
            assert(!self.has_addr(addr@));
        }
        None
    }

    /// One row leaves the table; mirrors a single delete statement.
    fn remove_row(&mut self, addr: &AddressKey) -> (r: Option<StoredRow>)
        requires
            old(self).wf(),
        ensures
            final(self).wf(),
            final(self).table() == old(self).table().remove(addr@),
            r is Some <==> old(self).table().contains_key(addr@),
            r matches Some(row) ==> row.address@ == addr@
                && row_rec(row) == old(self).table()[addr@],
    {
        match self.find(addr) {
            Some(i) => {
                let ghost pre = *self;
                let row = self.rows.remove(i);
                proof {
                    assert forall|k: int, l: int|
                        0 <= k < l < self.rows@.len() implies (#[trigger] self.rows@[k]).address@
                        != (#[trigger] self.rows@[l]).address@ by {
                        let k0: int = if k < i { k } else { k + 1 };
                        let l0: int = if l < i { l } else { l + 1 };
                        assert(self.rows@[k] == pre.rows@[k0]);
                        assert(self.rows@[l] == pre.rows@[l0]);
                    }
                    assert(final(self).table() =~= old(self).table().remove(addr@)) by {
                        Self::lemma_remove_table(pre, *self, i as int, addr@);
                    }
                }
                Some(row)
            },
            None => {
                proof {
                    assert(final(self).table() =~= old(self).table().remove(addr@)) by {
                        assert(!old(self).table().contains_key(addr@));
                    }
                }
                None
            },
        }
    }

    proof fn lemma_remove_table(pre: Self, post: Self, i: int, a: AddressView)
        requires
            pre.wf(),
            post.wf(),
            0 <= i < pre.rows@.len(),
            pre.rows@[i].address@ == a,
            post.rows@ == pre.rows@.remove(i),
        ensures
            post.table() =~= pre.table().remove(a),
    {
        assert forall|b: AddressView| #![auto] post.table().contains_key(b)
            == pre.table().remove(a).contains_key(b) by {
            if post.has_addr(b) {
                let k = choose|k: int|
                    0 <= k < post.rows@.len() && (#[trigger] post.rows@[k]).address@ == b;
                let k0: int = if k < i { k } else { k + 1 };
                assert(pre.rows@[k0].address@ == b);
                assert(pre.has_addr(b));
                if b == a {
                    if k0 < i {
                        assert(pre.rows@[k0].address@ != pre.rows@[i].address@);
                    } else {
                        assert(pre.rows@[i].address@ != pre.rows@[k0].address@);
                    }
                }
            }
            if pre.has_addr(b) && b != a {
                let k = choose|k: int|
                    0 <= k < pre.rows@.len() && (#[trigger] pre.rows@[k]).address@ == b;
                if k < i {
                    assert(post.rows@[k].address@ == b);
                } else {
                    assert(k != i);
                    assert(post.rows@[k - 1] == pre.rows@[k]);
                }
                assert(post.has_addr(b));
            }
        }
        assert forall|b: AddressView| #![auto] post.table().contains_key(b) implies post.table()[b]
            == pre.table().remove(a)[b] by {
            let k = post.idx_of(b);
            assert(0 <= k < post.rows@.len() && post.rows@[k].address@ == b);
            let k0: int = if k < i { k } else { k + 1 };
            assert(pre.rows@[k0].address@ == b);
            pre.lemma_row_lookup(k0);
            post.lemma_row_lookup(k);
            assert(post.rows@[k] == pre.rows@[k0]);
        }
    }

    /// One fresh row enters the table; mirrors a single insert statement
    /// reaching an absent address.
    fn push_row(&mut self, row: StoredRow)
        requires
            old(self).wf(),
            !old(self).table().contains_key(row.address@),
        ensures
            final(self).wf(),
            final(self).table() == old(self).table().insert(row.address@, row_rec(row)),
    {
        let ghost pre = *self;
        let ghost a = row.address@;
        let ghost rec = row_rec(row);
        self.rows.push(row);
        proof {
            let n = pre.rows@.len() as int;
            assert(!pre.has_addr(a));
            assert forall|k: int, l: int|
                0 <= k < l < self.rows@.len() implies (#[trigger] self.rows@[k]).address@ != (
            #[trigger] self.rows@[l]).address@ by {
                if l < n {
                    assert(pre.rows@[k].address@ != pre.rows@[l].address@);
                } else {
                    assert(self.rows@[l].address@ == a);
                    assert(self.rows@[k] == pre.rows@[k]);
                    assert(pre.rows@[k].address@ != a);
                }
            }
            assert(final(self).table() =~= old(self).table().insert(a, rec)) by {
                Self::lemma_push_table(pre, *self, a, rec);
            }
        }
    }

    proof fn lemma_push_table(pre: Self, post: Self, a: AddressView, rec: RecordView)
        requires
            pre.wf(),
            post.wf(),
            !pre.has_addr(a),
            post.rows@.len() == pre.rows@.len() + 1,
            forall|k: int| 0 <= k < pre.rows@.len() ==> post.rows@[k] == pre.rows@[k],
            post.rows@.last().address@ == a,
            row_rec(post.rows@.last()) == rec,
        ensures
            post.table() =~= pre.table().insert(a, rec),
    {
        let n = pre.rows@.len() as int;
        assert forall|b: AddressView| #![auto] post.table().contains_key(b) == pre.table().insert(
            a,
            rec,
        ).contains_key(b) by {
            if post.has_addr(b) {
                let k = choose|k: int|
                    0 <= k < post.rows@.len() && (#[trigger] post.rows@[k]).address@ == b;
                if k < n {
                    assert(pre.rows@[k].address@ == b);
                    assert(pre.has_addr(b));
                } else {
                    assert(b == a);
                }
            }
            if b == a {
                assert(post.rows@[n].address@ == b);
                assert(post.has_addr(b));
            }
            if pre.has_addr(b) {
                let k = choose|k: int|
                    0 <= k < pre.rows@.len() && (#[trigger] pre.rows@[k]).address@ == b;
                assert(post.rows@[k].address@ == b);
                assert(post.has_addr(b));
            }
        }
        assert forall|b: AddressView| #![auto] post.table().contains_key(b) implies post.table()[b]
            == pre.table().insert(a, rec)[b] by {
            let k = post.idx_of(b);
            assert(0 <= k < post.rows@.len() && post.rows@[k].address@ == b);
            post.lemma_row_lookup(k);
            if b == a {
                if k < n {
                    assert(pre.rows@[k].address@ == a);
                    assert(pre.has_addr(a));
                }
                assert(k == n);
            } else {
                assert(k != n);
                assert(pre.rows@[k].address@ == b);
                pre.lemma_row_lookup(k);
            }
        }
    }

    /// Mirrors the insert-if-absent statement: insert, on conflict do
    /// nothing; the affected-row count tells which happened.
    fn stmt_insert_if_absent(&mut self, addr: &AddressKey, md5: [u8; 16], value: Vec<u8>) -> (rows:
        u64)
        requires
            old(self).wf(),
        ensures
            final(self).wf(),
            old(self).table().contains_key(addr@) ==> rows == 0 && final(self).table() == old(
                self,
            ).table(),
            !old(self).table().contains_key(addr@) ==> rows == 1 && final(self).table() == old(
                self,
            ).table().insert(addr@, RecordView { value: value@, md5: md5@ }),
    {
        match self.find(addr) {
            Some(_) => 0,
            None => {
                self.push_row(StoredRow { address: addr.duplicate(), md5, value });
                1
            },
        }
    }

    /// Mirrors the one-statement update: replace fingerprint and value
    /// where the address matches and, when a fingerprint is expected,
    /// the stored fingerprint equals it.
    fn stmt_update(
        &mut self,
        addr: &AddressKey,
        expected: Option<&Vec<u8>>,
        md5: [u8; 16],
        value: Vec<u8>,
    ) -> (rows: u64)
        requires
            old(self).wf(),
        ensures
            final(self).wf(),
            ({
                let t0 = old(self).table();
                let hit = t0.contains_key(addr@) && match expected {
                    Some(fp) => t0[addr@].md5 == fp@,
                    None => true,
                };
                if hit {
                    rows == 1 && final(self).table() == t0.insert(
                        addr@,
                        RecordView { value: value@, md5: md5@ },
                    )
                } else {
                    rows == 0 && final(self).table() == t0
                }
            }),
    {
        let hit: bool = match self.find(addr) {
            Some(i) => match expected {
                Some(fp) => bytes_eq(self.rows[i].md5.as_slice(), fp.as_slice()),
                None => true,
            },
            None => false,
        };
        if hit {
            let ghost t0 = self.table();
            let _prior = self.remove_row(addr);
            self.push_row(StoredRow { address: addr.duplicate(), md5, value });
            proof {
                assert(final(self).table() =~= t0.insert(
                    addr@,
                    RecordView { value: value@, md5: md5@ },
                ));
            }
            1
        } else {
            0
        }
    }

    /// Mirrors the upsert statement: insert, on conflict update; it
    /// always affects exactly one row.
    fn stmt_upsert(&mut self, addr: &AddressKey, md5: [u8; 16], value: Vec<u8>) -> (rows: u64)
        requires
            old(self).wf(),
        ensures
            final(self).wf(),
            rows == 1,
            final(self).table() == old(self).table().insert(
                addr@,
                RecordView { value: value@, md5: md5@ },
            ),
    {
        let ghost t0 = self.table();
        let _prior = self.remove_row(addr);
        self.push_row(StoredRow { address: addr.duplicate(), md5, value });
        proof {
            assert(final(self).table() =~= t0.insert(
                addr@,
                RecordView { value: value@, md5: md5@ },
            ));
        }
        1
    }

    /// The conditional-write engine: the precondition picks one atomic
    /// statement, the statement runs against the rows, and its
    /// affected-row count is read back as the outcome. A write that goes
    /// through stores the value with its freshly computed fingerprint;
    /// a refused write changes nothing.
    pub fn apply(&mut self, addr: &AddressKey, value: Vec<u8>, pre: &Precondition) -> (r: Result<
        WriteOutcome,
        KvsError,
    >)
        requires
            old(self).wf(),
        ensures
            final(self).wf(),
            ({
                let t0 = old(self).table();
                let t1 = final(self).table();
                match r {
                    Ok(o) => permits(t0, addr@, *pre) && t1 == t0.insert(
                        addr@,
                        RecordView { value: value@, md5: digest_of(value@) },
                    ) && (o == WriteOutcome::Created <==> (*pre) matches
                        Precondition::IfNoneMatchAny),
                    Err(e) => e == KvsError::PreconditionFailed && !permits(t0, addr@, *pre)
                        && t1 == t0,
                }
            }),
    {
        let md5 = compute_digest(value.as_slice());
        let rows: u64 = match pre {
            Precondition::Unconditional => self.stmt_upsert(addr, md5, value),
            Precondition::IfMatchAny => self.stmt_update(addr, None, md5, value),
            Precondition::IfMatchFingerprint(fp) => self.stmt_update(addr, Some(fp), md5, value),
            Precondition::IfNoneMatchAny => self.stmt_insert_if_absent(addr, md5, value),
        };
        interpret_write(pre, rows)
    }

    /// Single-row lookup by full address; absence is a normal outcome.
    pub fn get(&self, addr: &AddressKey) -> (r: Option<Entry>)
        requires
            self.wf(),
        ensures
            match r {
                Some(e) => self.table().contains_key(addr@) && e.key@ == addr@.key
                    && e.value@ == self.table()[addr@].value
                    && (e.md5 matches Some(m) && m@ == self.table()[addr@].md5),
                None => !self.table().contains_key(addr@),
            },
    {
        match self.find(addr) {
            Some(i) => {
                let row = &self.rows[i];
                Some(
                    Entry {
                        key: Slice { bytes: vstd::slice::slice_to_vec(row.address.key.as_slice()) },
                        value: Slice { bytes: vstd::slice::slice_to_vec(row.value.as_slice()) },
                        md5: Some(row.md5),
                    },
                )
            },
            None => None,
        }
    }

    /// Single-statement delete: true exactly when a row existed and was
    /// deleted.
    pub fn delete(&mut self, addr: &AddressKey) -> (r: bool)
        requires
            old(self).wf(),
        ensures
            final(self).wf(),
            r == old(self).table().contains_key(addr@),
            final(self).table() == old(self).table().remove(addr@),
    {
        self.remove_row(addr).is_some()
    }

    /// Whether the row at `j` lies in the scope and passes the prefix.
    spec fn row_in_scope(
        &self,
        j: int,
        ws: Option<Seq<u8>>,
        ns: Seq<char>,
        prefix: Option<Seq<u8>>,
    ) -> bool {
        in_scope(self.rows@[j].address@, ws, ns, prefix)
    }

    /// Whether `k` is the key of some row among the first `upto` that
    /// lies in the scope and passes the prefix.
    spec fn scoped_key(
        &self,
        upto: int,
        ws: Option<Seq<u8>>,
        ns: Seq<char>,
        prefix: Option<Seq<u8>>,
        k: Seq<u8>,
    ) -> bool {
        exists|j: int|
            0 <= j < upto && #[trigger] self.row_in_scope(j, ws, ns, prefix)
                && self.rows@[j].address@.key == k
    }

    /// Whether every row among the first `upto` that lies in the scope
    /// and passes the prefix has its key in `keys`.
    spec fn scope_covered(
        &self,
        upto: int,
        ws: Option<Seq<u8>>,
        ns: Seq<char>,
        prefix: Option<Seq<u8>>,
        keys: Seq<Vec<u8>>,
    ) -> bool {
        forall|j: int|
            0 <= j < upto && #[trigger] self.row_in_scope(j, ws, ns, prefix) ==> exists|i: int|
                0 <= i < keys.len() && (#[trigger] keys[i])@ == self.rows@[j].address@.key
    }

    /// Select the keys under the tenant scope, optionally only those
    /// starting with a literal byte prefix; produced fresh per call, in
    /// no promised order.
    #[verifier::rlimit(100)]
    pub fn list(
        &self,
        workspace: &Option<WorkspaceId>,
        namespace: &String,
        prefix: Option<&Vec<u8>>,
    ) -> (r: Vec<Vec<u8>>)
        requires
            self.wf(),
        ensures
            scope_listing(
                self.table(),
                workspace_view(*workspace),
                namespace@,
                match prefix {
                    Some(p) => Some(p@),
                    None => None,
                },
                r@,
            ),
    {
        let ghost gws = workspace_view(*workspace);
        let ghost gns = namespace@;
        let ghost gpre: Option<Seq<u8>> = match prefix {
            Some(p) => Some(p@),
            None => None,
        };
        let mut out: Vec<Vec<u8>> = Vec::new();
        let mut n: usize = 0;
        while n < self.rows.len()
            invariant
                self.wf(),
                0 <= n <= self.rows@.len(),
                gws == workspace_view(*workspace),
                gns == namespace@,
                gpre == (match prefix {
                    Some(p) => Some(p@),
                    None => None::<Seq<u8>>,
                }),
                forall|i: int|
                    0 <= i < out@.len() ==> self.scoped_key(
                        n as int,
                        gws,
                        gns,
                        gpre,
                        (#[trigger] out@[i])@,
                    ),
                forall|i1: int, i2: int|
                    0 <= i1 < i2 < out@.len() ==> (#[trigger] out@[i1])@ != (#[trigger] out@[i2])@,
                self.scope_covered(n as int, gws, gns, gpre, out@),
            decreases self.rows@.len() - n,
        {
            let row = &self.rows[n];
            let ws_ok: bool = match (workspace, &row.address.workspace) {
                (Some(w), Some(rw)) => bytes_eq(w.bytes.as_slice(), rw.bytes.as_slice()),
                (None, None) => true,
                _ => false,
            };
            let ns_ok: bool = if ws_ok {
                row.address.namespace == *namespace
            } else {
                false
            };
            let pre_ok: bool = if ns_ok {
                match prefix {
                    Some(p) => starts_with_bytes(row.address.key.as_slice(), p.as_slice()),
                    None => true,
                }
            } else {
                false
            };
            proof {
                assert(pre_ok == self.row_in_scope(n as int, gws, gns, gpre));
            }
            if pre_ok {
                let ghost out0 = out@;
                proof {
                    assert forall|i: int| 0 <= i < out0.len() implies (#[trigger] out0[i])@
                        != self.rows@[n as int].address@.key by {
                        let j = choose|j: int|
                            0 <= j < n && #[trigger] self.row_in_scope(j, gws, gns, gpre)
                                && self.rows@[j].address@.key == (out0[i])@;
                        if (out0[i])@ == self.rows@[n as int].address@.key {
                            assert(self.rows@[j].address@ =~= self.rows@[n as int].address@);
                            assert(self.rows@[j].address@ != self.rows@[n as int].address@);
                        }
                    }
                }
                out.push(vstd::slice::slice_to_vec(row.address.key.as_slice()));
                proof {
                    let last = out@.len() - 1;
                    assert((out@[last])@ == self.rows@[n as int].address@.key);
                    assert(forall|i: int| 0 <= i < out0.len() ==> out@[i] == out0[i]);
                    assert forall|i: int| 0 <= i < out@.len() implies self.scoped_key(
                        n as int + 1,
                        gws,
                        gns,
                        gpre,
                        (#[trigger] out@[i])@,
                    ) by {
                        if i < last {
                            let j = choose|j: int|
                                0 <= j < n && #[trigger] self.row_in_scope(j, gws, gns, gpre)
                                    && self.rows@[j].address@.key == (out0[i])@;
                            assert(self.row_in_scope(j, gws, gns, gpre));
                        } else {
                            assert(self.row_in_scope(n as int, gws, gns, gpre));
                        }
                    }
                    assert(self.scope_covered(n as int + 1, gws, gns, gpre, out@)) by {
                        assert forall|j: int|
                            0 <= j < n + 1 && #[trigger] self.row_in_scope(j, gws, gns, gpre)
                            implies exists|i: int|
                            0 <= i < out@.len() && (#[trigger] out@[i])@
                                == self.rows@[j].address@.key by {
                            if j < n {
                                let i = choose|i: int|
                                    0 <= i < out0.len() && (#[trigger] out0[i])@
                                        == self.rows@[j].address@.key;
                                assert(0 <= i < out@.len() && (out@[i])@
                                    == self.rows@[j].address@.key);
                            } else {
                                assert(0 <= last < out@.len() && (out@[last])@
                                    == self.rows@[j].address@.key);
                            }
                        }
                    }
                }
            } else {
                proof {
                    assert forall|i: int| 0 <= i < out@.len() implies self.scoped_key(
                        n as int + 1,
                        gws,
                        gns,
                        gpre,
                        (#[trigger] out@[i])@,
                    ) by {
                        let j = choose|j: int|
                            0 <= j < n && #[trigger] self.row_in_scope(j, gws, gns, gpre)
                                && self.rows@[j].address@.key == (out@[i])@;
                        assert(self.row_in_scope(j, gws, gns, gpre));
                    }
                    assert(self.scope_covered(n as int + 1, gws, gns, gpre, out@)) by {
                        assert forall|j: int|
                            0 <= j < n + 1 && #[trigger] self.row_in_scope(j, gws, gns, gpre)
                            implies exists|i: int|
                            0 <= i < out@.len() && (#[trigger] out@[i])@
                                == self.rows@[j].address@.key by {
                            if j < n {
                                let i = choose|i: int|
                                    0 <= i < out@.len() && (#[trigger] out@[i])@
                                        == self.rows@[j].address@.key;
                                assert(0 <= i < out@.len());
                            } else {
                                assert(!self.row_in_scope(j, gws, gns, gpre));
                            }
                        }
                    }
                }
            }
            n += 1;
        }
        proof {
            let m = self.rows@.len() as int;
            assert forall|i: int| 0 <= i < out@.len() implies self.table().contains_key(
                scope_addr(gws, gns, (#[trigger] out@[i])@),
            ) && (match gpre {
                Some(p) => p.is_prefix_of(out@[i]@),
                None => true,
            }) by {
                let j = choose|j: int|
                    0 <= j < m && #[trigger] self.row_in_scope(j, gws, gns, gpre)
                        && self.rows@[j].address@.key == (out@[i])@;
                self.lemma_row_lookup(j);
                assert(self.rows@[j].address@ =~= scope_addr(gws, gns, (out@[i])@));
            }
            assert forall|a: AddressView|
                #[trigger] self.table().contains_key(a) && in_scope(a, gws, gns, gpre)
                implies exists|i: int| 0 <= i < out@.len() && (#[trigger] out@[i])@ == a.key by {
                let j = choose|j: int|
                    0 <= j < self.rows@.len() && (#[trigger] self.rows@[j]).address@ == a;
                assert(self.row_in_scope(j, gws, gns, gpre));
                let i = choose|i: int|
                    0 <= i < out@.len() && (#[trigger] out@[i])@ == self.rows@[j].address@.key;
                assert((out@[i])@ == a.key);
            }
            assert(scope_listing(self.table(), gws, gns, gpre, out@));
        }
        out
    }
}

} // verus!
