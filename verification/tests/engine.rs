use hulykvs::address::{AddressKey, WorkspaceId};
use hulykvs::engine::{
    interpret_delete, interpret_write, Precondition, RelationalBackend, WriteOutcome,
};
use hulykvs::KvsError;

const WS: &str = "f47ac10b-58cc-4372-a567-0e02b2c3d479";

fn addr(ws: &str, ns: &str, key: &[u8]) -> AddressKey {
    AddressKey {
        workspace: Some(WorkspaceId::parse(ws).unwrap()),
        namespace: ns.to_string(),
        key: key.to_vec(),
    }
}

fn md5_of(backend: &RelationalBackend, a: &AddressKey) -> Vec<u8> {
    backend.get(a).unwrap().md5.unwrap().to_vec()
}

#[test]
fn unconditional_write_then_get() {
    let mut backend = RelationalBackend::new();
    let a = addr(WS, "docs", b"a");
    let r = backend.apply(&a, b"v1".to_vec(), &Precondition::Unconditional);
    assert_eq!(r, Ok(WriteOutcome::Updated));
    let entry = backend.get(&a).unwrap();
    assert_eq!(entry.value.bytes, b"v1".to_vec());
    assert_eq!(entry.key.bytes, b"a".to_vec());
    assert!(entry.md5.is_some());
}

#[test]
fn conditional_write_scenario() {
    // Workspace W, namespace "docs", key "a": unconditional "v1", then a
    // fingerprint-gated "v2", then the same now-stale gate refused.
    let mut backend = RelationalBackend::new();
    let a = addr(WS, "docs", b"a");

    let r = backend.apply(&a, b"v1".to_vec(), &Precondition::Unconditional);
    assert_eq!(r, Ok(WriteOutcome::Updated));
    let f1 = md5_of(&backend, &a);

    let r = backend.apply(&a, b"v2".to_vec(), &Precondition::IfMatchFingerprint(f1.clone()));
    assert_eq!(r, Ok(WriteOutcome::Updated));
    let f2 = md5_of(&backend, &a);
    assert_ne!(f1, f2);

    let r = backend.apply(&a, b"v3".to_vec(), &Precondition::IfMatchFingerprint(f1));
    assert_eq!(r, Err(KvsError::PreconditionFailed));
    assert_eq!(backend.get(&a).unwrap().value.bytes, b"v2".to_vec());
    assert_eq!(md5_of(&backend, &a), f2);
}

#[test]
fn stale_fingerprint_race_has_one_winner() {
    // Two writers hold the same stale fingerprint; the first serialized
    // write goes through, the loser is refused, and the stored record is
    // the winner's, never a mix.
    let mut backend = RelationalBackend::new();
    let a = addr(WS, "docs", b"contended");
    backend.apply(&a, b"v0".to_vec(), &Precondition::Unconditional).unwrap();
    let stale = md5_of(&backend, &a);

    let winner = backend.apply(&a, b"winner".to_vec(), &Precondition::IfMatchFingerprint(stale.clone()));
    assert_eq!(winner, Ok(WriteOutcome::Updated));
    let winner_md5 = md5_of(&backend, &a);

    let loser = backend.apply(&a, b"loser".to_vec(), &Precondition::IfMatchFingerprint(stale));
    assert_eq!(loser, Err(KvsError::PreconditionFailed));
    assert_eq!(backend.get(&a).unwrap().value.bytes, b"winner".to_vec());
    assert_eq!(md5_of(&backend, &a), winner_md5);
}

#[test]
fn if_none_match_creates_only_absent() {
    let mut backend = RelationalBackend::new();
    let a = addr(WS, "docs", b"once");

    let first = backend.apply(&a, b"v1".to_vec(), &Precondition::IfNoneMatchAny);
    assert_eq!(first, Ok(WriteOutcome::Created));

    let second = backend.apply(&a, b"v2".to_vec(), &Precondition::IfNoneMatchAny);
    assert_eq!(second, Err(KvsError::PreconditionFailed));
    assert_eq!(backend.get(&a).unwrap().value.bytes, b"v1".to_vec());
}

#[test]
fn if_match_any_needs_an_entry() {
    let mut backend = RelationalBackend::new();
    let a = addr(WS, "docs", b"u");

    let miss = backend.apply(&a, b"v".to_vec(), &Precondition::IfMatchAny);
    assert_eq!(miss, Err(KvsError::PreconditionFailed));
    assert!(backend.get(&a).is_none());

    backend.apply(&a, b"v0".to_vec(), &Precondition::Unconditional).unwrap();
    let hit = backend.apply(&a, b"v1".to_vec(), &Precondition::IfMatchAny);
    assert_eq!(hit, Ok(WriteOutcome::Updated));
    assert_eq!(backend.get(&a).unwrap().value.bytes, b"v1".to_vec());
}

#[test]
fn delete_reports_prior_presence() {
    let mut backend = RelationalBackend::new();
    let a = addr(WS, "docs", b"gone");
    backend.apply(&a, b"v".to_vec(), &Precondition::Unconditional).unwrap();
    assert!(backend.delete(&a));
    assert!(backend.get(&a).is_none());
    assert!(!backend.delete(&a));
}

#[test]
fn addresses_are_isolated_by_tenant_and_namespace() {
    let other_ws = "11111111-2222-3333-4444-555555555555";
    let mut backend = RelationalBackend::new();
    backend
        .apply(&addr(WS, "docs", b"k"), b"first".to_vec(), &Precondition::Unconditional)
        .unwrap();
    backend
        .apply(&addr(other_ws, "docs", b"k"), b"second".to_vec(), &Precondition::Unconditional)
        .unwrap();
    backend
        .apply(&addr(WS, "pics", b"k"), b"third".to_vec(), &Precondition::Unconditional)
        .unwrap();

    assert_eq!(backend.get(&addr(WS, "docs", b"k")).unwrap().value.bytes, b"first".to_vec());
    assert_eq!(backend.get(&addr(other_ws, "docs", b"k")).unwrap().value.bytes, b"second".to_vec());
    assert_eq!(backend.get(&addr(WS, "pics", b"k")).unwrap().value.bytes, b"third".to_vec());
}

#[test]
fn scoped_list_honours_tenant_namespace_and_prefix() {
    let other_ws = "11111111-2222-3333-4444-555555555555";
    let mut backend = RelationalBackend::new();
    for (ws, ns, k) in [
        (WS, "docs", b"pa".to_vec()),
        (WS, "docs", b"pb".to_vec()),
        (WS, "docs", b"q".to_vec()),
        (WS, "pics", b"pz".to_vec()),
        (other_ws, "docs", b"pc".to_vec()),
    ] {
        backend.apply(&addr(ws, ns, &k), b"v".to_vec(), &Precondition::Unconditional).unwrap();
    }

    let w = Some(WorkspaceId::parse(WS).unwrap());
    let ns = "docs".to_string();

    let mut all = backend.list(&w, &ns, None);
    all.sort();
    assert_eq!(all, vec![b"pa".to_vec(), b"pb".to_vec(), b"q".to_vec()]);

    let prefix = b"p".to_vec();
    let mut prefixed = backend.list(&w, &ns, Some(&prefix));
    prefixed.sort();
    assert_eq!(prefixed, vec![b"pa".to_vec(), b"pb".to_vec()]);
}

#[test]
fn single_tenant_addresses_have_no_workspace() {
    let mut backend = RelationalBackend::new();
    let a = AddressKey { workspace: None, namespace: "docs".to_string(), key: b"k".to_vec() };
    backend.apply(&a, b"v".to_vec(), &Precondition::Unconditional).unwrap();
    assert_eq!(backend.get(&a).unwrap().value.bytes, b"v".to_vec());
    assert!(backend.get(&addr(WS, "docs", b"k")).is_none());
    let keys = backend.list(&None, &"docs".to_string(), None);
    assert_eq!(keys, vec![b"k".to_vec()]);
}

#[test]
fn write_verdicts_by_rows_affected() {
    assert_eq!(interpret_write(&Precondition::Unconditional, 1), Ok(WriteOutcome::Updated));
    assert_eq!(
        interpret_write(&Precondition::Unconditional, 0),
        Err(KvsError::InvariantViolation)
    );
    assert_eq!(interpret_write(&Precondition::IfNoneMatchAny, 1), Ok(WriteOutcome::Created));
    assert_eq!(
        interpret_write(&Precondition::IfNoneMatchAny, 0),
        Err(KvsError::PreconditionFailed)
    );
    assert_eq!(interpret_write(&Precondition::IfMatchAny, 1), Ok(WriteOutcome::Updated));
    assert_eq!(interpret_write(&Precondition::IfMatchAny, 0), Err(KvsError::PreconditionFailed));
    assert_eq!(
        interpret_write(&Precondition::IfMatchFingerprint(vec![0u8; 16]), 1),
        Ok(WriteOutcome::Updated)
    );
    assert_eq!(
        interpret_write(&Precondition::IfMatchFingerprint(vec![0u8; 16]), 0),
        Err(KvsError::PreconditionFailed)
    );
}

#[test]
fn delete_verdicts_by_rows_affected() {
    assert_eq!(interpret_delete(0), Ok(false));
    assert_eq!(interpret_delete(1), Ok(true));
    assert_eq!(interpret_delete(2), Err(KvsError::InvariantViolation));
}
