use hulykvs::address::WorkspaceId;
use hulykvs::directory::{keys_from_file_names, DirectoryKeyValueStore};
use hulykvs::engine::Precondition;
use hulykvs::fingerprint::fingerprint_hex;
use hulykvs::guard::{workspace_owner, Claims};
use hulykvs::protocol::{like_pattern, list_response, parse_preconditions, trim_ascii};
use hulykvs::variant::{classify_version, contains_subslice, SqlDialect};
use hulykvs::{bytes_eq, starts_with_bytes, KvsError};

const WS: &str = "f47ac10b-58cc-4372-a567-0e02b2c3d479";

#[test]
fn fingerprints_are_md5_rendered_as_hex() {
    // The fingerprint of an empty value and of "abc" are pinned by the
    // digest definition; a digest handed back unchanged would fail here.
    let mut backend = hulykvs::engine::RelationalBackend::new();
    let a = hulykvs::address::AddressKey {
        workspace: None,
        namespace: "ns".to_string(),
        key: b"k".to_vec(),
    };
    backend.apply(&a, Vec::new(), &Precondition::Unconditional).unwrap();
    let empty_md5 = backend.get(&a).unwrap().md5.unwrap();
    assert_eq!(fingerprint_hex(&empty_md5), "d41d8cd98f00b204e9800998ecf8427e");

    backend.apply(&a, b"abc".to_vec(), &Precondition::Unconditional).unwrap();
    let abc_md5 = backend.get(&a).unwrap().md5.unwrap();
    assert_eq!(fingerprint_hex(&abc_md5), "900150983cd24fb0d6963f7d28e17f72");
}

#[test]
fn file_names_are_url_safe_unpadded() {
    let store = DirectoryKeyValueStore::new("base".to_string());
    assert_eq!(store.file_name(b"ab"), "YWI");
    assert_eq!(store.file_name(b"abc"), "YWJj");
    assert_eq!(store.file_name(b""), "");
    // 0xfb 0xff needs the URL-safe alphabet: '-' and '_', no padding.
    assert_eq!(store.file_name(&[0xfb, 0xff]), "-_8");
}

#[test]
fn directory_join_extends_the_path() {
    let store = DirectoryKeyValueStore::new("base".to_string());
    let sub = store.join("ns".to_string());
    assert_eq!(sub.segments.len(), 2);
    assert_eq!(sub.segments[0], "base");
    assert_eq!(sub.segments[1], "ns");
    let deeper = sub.join("inner".to_string());
    assert_eq!(deeper.segments, vec!["base", "ns", "inner"]);
}

#[test]
fn listing_decodes_names_and_filters() {
    let names = vec!["YWI".to_string(), "!!!".to_string(), "YWJj".to_string()];
    let keys = keys_from_file_names(&names, b"ab");
    let bytes: Vec<Vec<u8>> = keys.into_iter().map(|k| k.bytes).collect();
    assert_eq!(bytes, vec![b"ab".to_vec(), b"abc".to_vec()]);

    let keys = keys_from_file_names(&names, b"abc");
    let bytes: Vec<Vec<u8>> = keys.into_iter().map(|k| k.bytes).collect();
    assert_eq!(bytes, vec![b"abc".to_vec()]);
}

#[test]
fn workspace_ids_parse_to_sixteen_bytes() {
    let w = WorkspaceId::parse(WS).unwrap();
    assert_eq!(w.bytes[0], 0xf4);
    assert_eq!(w.bytes[1], 0x7a);
    assert_eq!(w.bytes[15], 0x79);
    // Case does not change the identifier.
    let upper = WorkspaceId::parse(&WS.to_uppercase()).unwrap();
    assert_eq!(w.bytes, upper.bytes);
    assert_eq!(WorkspaceId::parse("not-a-uuid").unwrap_err(), KvsError::BadRequest);
}

#[test]
fn guard_admits_system_identity_everywhere() {
    let ws = WorkspaceId::parse(WS).unwrap();
    let claims = Claims { account: "root".to_string(), workspace: None, system: true };
    assert!(workspace_owner(&claims, &ws).is_ok());
}

#[test]
fn guard_requires_exactly_matching_claim() {
    let ws = WorkspaceId::parse(WS).unwrap();

    let matching = Claims {
        account: "user".to_string(),
        workspace: Some(WS.to_string()),
        system: false,
    };
    assert!(workspace_owner(&matching, &ws).is_ok());

    // A differing claim is Forbidden whether or not the address holds
    // anything: the guard consults no stored state at all.
    let differing = Claims {
        account: "user".to_string(),
        workspace: Some("11111111-2222-3333-4444-555555555555".to_string()),
        system: false,
    };
    assert_eq!(workspace_owner(&differing, &ws), Err(KvsError::Forbidden));

    let missing = Claims { account: "user".to_string(), workspace: None, system: false };
    assert_eq!(workspace_owner(&missing, &ws), Err(KvsError::Forbidden));

    let malformed = Claims {
        account: "user".to_string(),
        workspace: Some("garbage".to_string()),
        system: false,
    };
    assert_eq!(workspace_owner(&malformed, &ws), Err(KvsError::Forbidden));
}

#[test]
fn precondition_tokens_parse_exactly() {
    let star = b"*".to_vec();
    let padded_star = b" * ".to_vec();
    let hex = b"00ff".to_vec();
    let bad = b"zz".to_vec();

    assert!(matches!(parse_preconditions(None, None), Ok(Precondition::Unconditional)));
    assert!(matches!(
        parse_preconditions(None, Some(&star)),
        Ok(Precondition::IfNoneMatchAny)
    ));
    assert!(matches!(
        parse_preconditions(None, Some(&padded_star)),
        Ok(Precondition::IfNoneMatchAny)
    ));
    assert_eq!(
        parse_preconditions(None, Some(&hex)).unwrap_err(),
        KvsError::BadRequest
    );
    assert!(matches!(
        parse_preconditions(Some(&star), None),
        Ok(Precondition::IfMatchAny)
    ));
    match parse_preconditions(Some(&hex), None) {
        Ok(Precondition::IfMatchFingerprint(fp)) => assert_eq!(fp, vec![0x00, 0xff]),
        other => panic!("unexpected: {:?}", other),
    }
    assert_eq!(parse_preconditions(Some(&bad), None).unwrap_err(), KvsError::BadRequest);
    // An if-none-match token wins over an if-match one beside it.
    assert!(matches!(
        parse_preconditions(Some(&hex), Some(&star)),
        Ok(Precondition::IfNoneMatchAny)
    ));
    assert_eq!(
        parse_preconditions(Some(&star), Some(&bad)).unwrap_err(),
        KvsError::BadRequest
    );
}

#[test]
fn trim_drops_surrounding_ascii_whitespace() {
    assert_eq!(trim_ascii(b"  x\t"), b"x".to_vec());
    assert_eq!(trim_ascii(b"\r\n"), Vec::<u8>::new());
    assert_eq!(trim_ascii(b"a b"), b"a b".to_vec());
}

#[test]
fn like_patterns_escape_metacharacters() {
    assert_eq!(like_pattern(b"ab"), b"ab%".to_vec());
    assert_eq!(like_pattern(b""), b"%".to_vec());
    assert_eq!(like_pattern(b"a%b_c\\d"), b"a\\%b\\_c\\\\d%".to_vec());
}

#[test]
fn list_responses_count_their_keys() {
    let r = list_response(
        WS.to_string(),
        "docs".to_string(),
        vec!["a".to_string(), "b".to_string()],
    );
    assert_eq!(r.count, 2);
    assert_eq!(r.keys, vec!["a".to_string(), "b".to_string()]);
    assert_eq!(r.workspace, WS);
    assert_eq!(r.namespace, "docs");
}

#[test]
fn version_lines_classify_by_dialect() {
    assert_eq!(classify_version(b"PostgreSQL 16.1 on x86_64"), SqlDialect::Standard);
    assert_eq!(
        classify_version(b"CockroachDB CCL v23.1.0 (linux amd64)"),
        SqlDialect::Cockroach
    );
    assert!(contains_subslice(b"abcde", b"cd"));
    assert!(!contains_subslice(b"abcde", b"ce"));
    assert!(contains_subslice(b"abc", b""));
}

#[test]
fn byte_helpers_compare_and_prefix() {
    assert!(bytes_eq(b"abc", b"abc"));
    assert!(!bytes_eq(b"abc", b"abd"));
    assert!(!bytes_eq(b"abc", b"ab"));
    assert!(starts_with_bytes(b"abc", b"ab"));
    assert!(starts_with_bytes(b"abc", b""));
    assert!(!starts_with_bytes(b"ab", b"abc"));
}
