use greentic_pack::pack_lock::{
    is_false, normalize_pack_lock, pack_lock_for_write, validate_pack_lock, LockedComponent,
    PackLockError, PackLockV1,
};

fn component(name: &str, reference: &str) -> LockedComponent {
    LockedComponent {
        name: name.to_string(),
        reference: reference.to_string(),
        digest: "sha256:abc123".to_string(),
        component_id: None,
        bundled: false,
        bundled_path: None,
        wasm_sha256: None,
        resolved_digest: None,
    }
}

fn bundled(name: &str, path: &str, hash: &str) -> LockedComponent {
    let mut c = component(name, "oci://registry/demo:1");
    c.bundled = true;
    c.bundled_path = Some(path.to_string());
    c.wasm_sha256 = Some(hash.to_string());
    c
}

fn hash64() -> String {
    "0123456789abcdefABCDEF0123456789abcdef0123456789abcdef0123456789".to_string()
}

fn check(c: LockedComponent) -> Result<(), PackLockError> {
    validate_pack_lock(&PackLockV1::new(vec![c]))
}

#[test]
fn new_lock_has_schema_version_one() {
    let lock = PackLockV1::new(vec![component("a", "r")]);
    assert_eq!(lock.schema_version, 1);
    assert_eq!(lock.components.len(), 1);
}

#[test]
fn valid_lock_is_accepted() {
    let lock = PackLockV1::new(vec![component("a", "oci://a"), component("b", "oci://b")]);
    assert_eq!(validate_pack_lock(&lock), Ok(()));
}

#[test]
fn empty_lock_is_accepted() {
    assert_eq!(validate_pack_lock(&PackLockV1::new(vec![])), Ok(()));
}

#[test]
fn wrong_schema_version_is_rejected() {
    let lock = PackLockV1 { schema_version: 2, components: vec![] };
    let err = validate_pack_lock(&lock).unwrap_err();
    assert_eq!(err, PackLockError::SchemaVersion);
    assert_eq!(err.message(), "pack.lock schema_version must be 1");
}

#[test]
fn blank_name_is_rejected() {
    assert_eq!(check(component("  \t", "r")), Err(PackLockError::EmptyName));
    assert_eq!(check(component("", "r")), Err(PackLockError::EmptyName));
    assert_eq!(check(component("\u{3000}\u{a0}", "r")), Err(PackLockError::EmptyName));
    assert_eq!(
        PackLockError::EmptyName.message(),
        "pack.lock component name must not be empty"
    );
}

#[test]
fn blank_component_id_is_rejected() {
    let mut c = component("a", "r");
    c.component_id = Some(" ".to_string());
    assert_eq!(check(c.clone()), Err(PackLockError::EmptyComponentId));
    c.component_id = Some("ai.greentic.demo".to_string());
    assert_eq!(check(c), Ok(()));
    assert_eq!(
        PackLockError::EmptyComponentId.message(),
        "pack.lock component_id must not be empty when set"
    );
}

#[test]
fn blank_ref_is_rejected() {
    assert_eq!(check(component("a", " ")), Err(PackLockError::EmptyRef));
    assert_eq!(
        PackLockError::EmptyRef.message(),
        "pack.lock component ref must not be empty"
    );
}

#[test]
fn digest_must_be_sha256() {
    let mut c = component("demo", "r");
    c.digest = "sha256:".to_string();
    let err = check(c.clone()).unwrap_err();
    assert_eq!(err, PackLockError::InvalidDigest { name: "demo".to_string() });
    assert_eq!(
        err.message(),
        "pack.lock component digest for demo must start with sha256:<hex>"
    );
    c.digest = "md5:abcdef".to_string();
    assert!(matches!(check(c.clone()), Err(PackLockError::InvalidDigest { .. })));
    c.digest = "sha256:x".to_string();
    assert_eq!(check(c), Ok(()));
}

#[test]
fn bundled_component_needs_path() {
    let mut c = bundled("demo", "components/demo.wasm", &hash64());
    assert_eq!(check(c.clone()), Ok(()));
    c.bundled_path = None;
    let err = check(c.clone()).unwrap_err();
    assert_eq!(err, PackLockError::MissingBundledPath { name: "demo".to_string() });
    assert_eq!(
        err.message(),
        "pack.lock component demo is bundled but missing bundled_path"
    );
    c.bundled_path = Some("   ".to_string());
    assert!(matches!(check(c), Err(PackLockError::MissingBundledPath { .. })));
}

#[test]
fn bundled_component_needs_hash() {
    let mut c = bundled("demo", "components/demo.wasm", &hash64());
    c.wasm_sha256 = None;
    let err = check(c.clone()).unwrap_err();
    assert_eq!(err, PackLockError::MissingWasmSha256 { name: "demo".to_string() });
    assert_eq!(
        err.message(),
        "pack.lock component demo is bundled but missing wasm_sha256"
    );
    c.wasm_sha256 = Some("\n".to_string());
    assert!(matches!(check(c), Err(PackLockError::MissingWasmSha256 { .. })));
}

#[test]
fn wasm_hash_must_be_64_hex_digits() {
    let short = bundled("demo", "c.wasm", "abc");
    let err = check(short).unwrap_err();
    assert_eq!(err, PackLockError::InvalidWasmSha256 { name: "demo".to_string() });
    assert_eq!(
        err.message(),
        "pack.lock component demo wasm_sha256 must be 64 hex chars"
    );
    let mut bad = hash64();
    bad.replace_range(0..1, "g");
    assert!(matches!(
        check(bundled("demo", "c.wasm", &bad)),
        Err(PackLockError::InvalidWasmSha256 { .. })
    ));
    let padded = format!("  {}\t", hash64());
    assert_eq!(check(bundled("demo", "c.wasm", &padded)), Ok(()));
    let long = format!("{}0", hash64());
    assert!(check(bundled("demo", "c.wasm", &long)).is_err());
}

#[test]
fn bundled_path_must_name_a_file() {
    let err = check(bundled("demo", "components/", &hash64())).unwrap_err();
    assert_eq!(err, PackLockError::BundledPathNotFile { name: "demo".to_string() });
    assert_eq!(
        err.message(),
        "pack.lock component demo bundled_path must be a file path"
    );
    assert!(check(bundled("demo", " components/ ", &hash64())).is_err());
    assert_eq!(check(bundled("demo", "/", &hash64())).unwrap_err(),
        PackLockError::BundledPathNotFile { name: "demo".to_string() });
}

#[test]
fn unbundled_component_has_no_bundling_metadata() {
    let mut c = component("demo", "r");
    c.wasm_sha256 = Some(hash64());
    let err = check(c.clone()).unwrap_err();
    assert_eq!(err, PackLockError::UnexpectedBundlingMetadata { name: "demo".to_string() });
    assert_eq!(
        err.message(),
        "pack.lock component demo has bundling metadata but bundled=false"
    );
    c.wasm_sha256 = None;
    c.bundled_path = Some("x.wasm".to_string());
    assert!(matches!(check(c), Err(PackLockError::UnexpectedBundlingMetadata { .. })));
}

#[test]
fn resolved_digest_must_be_sha256() {
    let mut c = component("demo", "r");
    c.resolved_digest = Some("sha1:abc".to_string());
    let err = check(c.clone()).unwrap_err();
    assert_eq!(err, PackLockError::InvalidResolvedDigest { name: "demo".to_string() });
    assert_eq!(
        err.message(),
        "pack.lock component resolved_digest for demo must start with sha256:<hex>"
    );
    c.resolved_digest = Some("sha256:beef".to_string());
    assert_eq!(check(c), Ok(()));
}

#[test]
fn first_broken_component_is_reported() {
    let mut bad_digest = component("second", "r");
    bad_digest.digest = "nope".to_string();
    let lock = PackLockV1::new(vec![
        component("first", "r"),
        bad_digest,
        component("", "r"),
    ]);
    assert_eq!(
        validate_pack_lock(&lock),
        Err(PackLockError::InvalidDigest { name: "second".to_string() })
    );
}

#[test]
fn rules_are_checked_in_order() {
    let mut c = component(" ", " ");
    c.digest = "bad".to_string();
    assert_eq!(check(c.clone()), Err(PackLockError::EmptyName));
    c.name = "n".to_string();
    assert_eq!(check(c.clone()), Err(PackLockError::EmptyRef));
    c.reference = "r".to_string();
    assert!(matches!(check(c), Err(PackLockError::InvalidDigest { .. })));
}

#[test]
fn is_false_negates() {
    assert!(is_false(&false));
    assert!(!is_false(&true));
}

#[test]
fn normalize_orders_by_name_then_ref() {
    let lock = PackLockV1::new(vec![
        component("b", "x"),
        component("a", "y"),
        component("a", "x"),
        component("B", "z"),
    ]);
    let sorted = normalize_pack_lock(&lock);
    let keys: Vec<(String, String)> = sorted
        .components
        .iter()
        .map(|c| (c.name.clone(), c.reference.clone()))
        .collect();
    assert_eq!(
        keys,
        vec![
            ("B".to_string(), "z".to_string()),
            ("a".to_string(), "x".to_string()),
            ("a".to_string(), "y".to_string()),
            ("b".to_string(), "x".to_string()),
        ]
    );
    assert_eq!(sorted.schema_version, 1);
}

#[test]
fn normalize_is_stable_for_equal_keys() {
    let mut first = component("a", "x");
    first.digest = "sha256:first".to_string();
    let mut second = component("a", "x");
    second.digest = "sha256:second".to_string();
    let lock = PackLockV1::new(vec![component("b", "x"), first.clone(), second.clone()]);
    let sorted = normalize_pack_lock(&lock);
    assert_eq!(sorted.components, vec![first, second, component("b", "x")]);
}

#[test]
fn normalize_matches_std_sort() {
    let names = ["zeta", "alpha", "ümlaut", "Alpha", "alpha", "beta", "", "a"];
    let refs = ["2", "1", "3", "1", "0", "9", "x", "b"];
    let comps: Vec<LockedComponent> = names
        .iter()
        .zip(refs.iter())
        .map(|(n, r)| component(n, r))
        .collect();
    let lock = PackLockV1::new(comps.clone());
    let mut expected = comps;
    expected.sort_by(|a, b| a.name.cmp(&b.name).then_with(|| a.reference.cmp(&b.reference)));
    assert_eq!(normalize_pack_lock(&lock).components, expected);
}

#[test]
fn normalize_twice_is_normalize_once() {
    let lock = PackLockV1::new(vec![component("c", "1"), component("a", "2"), component("b", "0")]);
    let once = normalize_pack_lock(&lock);
    let twice = normalize_pack_lock(&once);
    assert_eq!(once, twice);
}

#[test]
fn write_form_validates_then_sorts() {
    let lock = PackLockV1::new(vec![component("b", "x"), component("a", "x")]);
    let written = pack_lock_for_write(&lock).unwrap();
    assert_eq!(written.components[0].name, "a");
    assert_eq!(validate_pack_lock(&written), Ok(()));
    let bad = PackLockV1 { schema_version: 3, components: vec![] };
    assert_eq!(pack_lock_for_write(&bad), Err(PackLockError::SchemaVersion));
}

#[test]
fn duplicate_is_equal() {
    let c = bundled("demo", "c.wasm", &hash64());
    assert_eq!(c.duplicate(), c);
}

#[test]
fn white_space_matches_std() {
    for n in 0u32..0x3100 {
        if let Some(c) = char::from_u32(n) {
            assert_eq!(greentic_pack::text::is_space(c), c.is_whitespace(), "U+{:04X}", n);
        }
    }
}

#[test]
fn trimming_matches_std() {
    for s in ["  a b  ", "\u{2003}x\u{3000}", "   ", "", "abc", "\tz"] {
        let chars: Vec<char> = s.chars().collect();
        let expected: Vec<char> = s.trim().chars().collect();
        assert_eq!(greentic_pack::text::trimmed(&chars), expected);
        assert_eq!(greentic_pack::text::blank(&chars), s.trim().is_empty());
    }
}

#[test]
fn write_order_ignores_input_order_for_distinct_keys() {
    let a = vec![component("b", "1"), component("a", "2"), component("a", "1"), component("c", "0")];
    let mut b = a.clone();
    b.reverse();
    assert_eq!(
        normalize_pack_lock(&PackLockV1::new(a)),
        normalize_pack_lock(&PackLockV1::new(b))
    );
}

#[test]
fn equal_keys_keep_their_order() {
    let mut x1 = component("k", "r");
    x1.digest = "sha256:1".to_string();
    let mut x2 = component("k", "r");
    x2.digest = "sha256:2".to_string();
    let mut x3 = component("k", "r");
    x3.digest = "sha256:3".to_string();
    let lock = PackLockV1::new(vec![x2.clone(), component("z", "r"), x1.clone(), component("a", "r"), x3.clone()]);
    let out: Vec<LockedComponent> = normalize_pack_lock(&lock)
        .components
        .into_iter()
        .filter(|c| c.name == "k")
        .collect();
    assert_eq!(out, vec![x2, x1, x3]);
}
