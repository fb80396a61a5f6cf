use zerker_reason::policy::{
    parse_policy_source_manifest, validate_canonical_json_numbers, validate_policy_source_manifest,
    validate_portable_path, PolicyError, PolicySource, PolicySourceKind, PolicySourceManifest, PolicySourceScope,
    MAX_POLICY_SOURCES, MAX_SOURCE_MANIFEST_BYTES, POLICY_SOURCE_MANIFEST_SCHEMA,
};

fn source(path: impl Into<String>) -> PolicySource {
    PolicySource { path: path.into(), kind: PolicySourceKind::Context, scope: PolicySourceScope::Repository }
}

fn manifest(sources: Vec<PolicySource>) -> PolicySourceManifest {
    PolicySourceManifest { schema: POLICY_SOURCE_MANIFEST_SCHEMA.to_owned(), sources }
}

fn error_text(r: Result<(), PolicyError>) -> String {
    match r {
        Ok(()) => panic!("expected an error"),
        Err(e) => e.message(),
    }
}

#[test]
fn manifests_reject_unsupported_schema_count_and_portable_path_attacks() {
    let mut wrong = manifest(vec![source("AGENTS.md")]);
    wrong.schema = "zerker.reason.policy-source-manifest.v0".to_owned();
    assert!(validate_policy_source_manifest(&wrong).is_err());

    let exact_count = manifest((0..MAX_POLICY_SOURCES).map(|index| source(format!("source-{index}.md"))).collect());
    validate_policy_source_manifest(&exact_count).unwrap();
    let too_many = manifest((0..=MAX_POLICY_SOURCES).map(|index| source(format!("source-{index}.md"))).collect());
    assert!(validate_policy_source_manifest(&too_many).is_err());

    for path in [
        "../escape",
        "a/../escape",
        "/absolute",
        "C:/drive",
        "file:policy",
        "a//b",
        "a/./b",
        "a\\b",
        "trailing/",
        "control\nname",
        "bidi\u{202e}name",
        "cafe\u{301}.md",
    ] {
        let error = error_text(validate_policy_source_manifest(&manifest(vec![source(path)])));
        assert!(error.contains("$.sources[0].path"), "accepted {path:?}");
    }

    let duplicate = manifest(vec![source("AGENTS.md"), source("AGENTS.md")]);
    assert!(error_text(validate_policy_source_manifest(&duplicate)).contains("duplicate portable path"));

    let unicode = manifest(vec![source("policies/café.md")]);
    validate_policy_source_manifest(&unicode).unwrap();
    let exact_path = manifest(vec![source("a".repeat(4_096))]);
    validate_policy_source_manifest(&exact_path).unwrap();
    let overlong_path = manifest(vec![source("a".repeat(4_097))]);
    assert!(validate_policy_source_manifest(&overlong_path).is_err());
}

#[test]
fn canonical_number_validation_ignores_strings_and_rejects_lossy_tokens() {
    validate_canonical_json_numbers(r#"{"quoted":"-0 1e0 1.00","values":[0,0.0,-0.0,1.5,9007199254740993]}"#).unwrap();

    for token in ["-0", "1e0", "1.00", "0.10000000000000001", "9007199254740993.0"] {
        let input = format!(r#"{{"value":{token}}}"#);
        assert!(
            validate_canonical_json_numbers(&input).unwrap_err().contains("non-canonical JSON number"),
            "accepted {token}"
        );
    }
}

#[test]
fn number_errors_name_the_byte_where_the_token_starts() {
    assert_eq!(validate_canonical_json_numbers(r#"[1,1.00]"#).unwrap_err(), "non-canonical JSON number at byte 3");
    assert_eq!(validate_canonical_json_numbers(r#"{"a":"\"1.00",  -"}"#).unwrap_err(), "invalid JSON number at byte 16");
    assert_eq!(
        validate_canonical_json_numbers(r#"{"a":"x\\","b":[1.00]}"#).unwrap_err(),
        "non-canonical JSON number at byte 16"
    );
    validate_canonical_json_numbers(r#"{"a":"x\\","b":[-1,2.5]}"#).unwrap();
}

#[test]
fn portable_path_messages_follow_the_order_of_the_checks() {
    let cases = [
        ("", "must not be empty"),
        ("/a", "must be root-relative without a leading or trailing slash"),
        ("a\\b", "backslash is not a portable separator"),
        ("a\u{7f}b", "control and bidirectional-control characters are forbidden"),
        ("a\u{2066}b", "control and bidirectional-control characters are forbidden"),
        ("c:x/y", "drive and URI-like prefixes are forbidden"),
        ("..", "empty, dot, and parent segments are forbidden"),
        ("a/..", "empty, dot, and parent segments are forbidden"),
        ("cafe\u{301}", "must already be Unicode NFC"),
    ];
    for (path, message) in cases {
        assert_eq!(validate_portable_path(path).unwrap_err(), message, "{path:?}");
    }
    assert_eq!(validate_portable_path(&"é".repeat(2049)).unwrap_err(), "exceeds the 4096-byte portable path limit");
    validate_portable_path(&"é".repeat(2048)).unwrap();
    validate_portable_path("a/b:c").unwrap();
    validate_portable_path("a/.../b").unwrap();
    validate_portable_path(".hidden/x").unwrap();
}

#[test]
fn every_manifest_problem_is_reported_once_in_order() {
    let mut m = manifest(vec![source("a.md"), source("/b.md"), source("a.md"), source("/b.md")]);
    m.schema = "other".to_owned();
    assert_eq!(
        error_text(validate_policy_source_manifest(&m)),
        "invalid organization policy contract:\n$.schema: expected \"zerker.reason.policy-source-manifest.v1\", got \"other\"\n$.sources[1].path: must be root-relative without a leading or trailing slash\n$.sources[2].path: duplicate portable path \"a.md\"\n$.sources[3].path: must be root-relative without a leading or trailing slash"
    );
    assert_eq!(
        error_text(validate_policy_source_manifest(&manifest(Vec::new()))),
        "invalid organization policy contract:\n$.sources: declare at least one policy source"
    );
    let too_many = manifest((0..=MAX_POLICY_SOURCES).map(|index| source(format!("s{index}"))).collect());
    assert!(error_text(validate_policy_source_manifest(&too_many))
        .contains("$.sources: 257 entries exceeds the 256-source limit"));
}

#[test]
fn a_manifest_over_the_serialized_limit_is_refused() {
    let long = "x".repeat(4000);
    let sources = (0..70).map(|i| source(format!("{long}{i}"))).collect();
    let error = error_text(validate_policy_source_manifest(&manifest(sources)));
    assert!(error.contains("$: serialized manifest exceeds the 262144-byte limit"));
}

#[test]
fn parsing_applies_the_size_utf8_decoding_and_number_checks_in_order() {
    let good = manifest(vec![source("AGENTS.md")]);
    let text = r#"{"schema":"zerker.reason.policy-source-manifest.v1","sources":[{"path":"AGENTS.md","kind":"context","scope":"repository"}]}"#;
    let parsed = parse_policy_source_manifest(text.as_bytes(), Ok(good)).unwrap();
    assert_eq!(parsed.sources[0].path, "AGENTS.md");

    let big = vec![b' '; MAX_SOURCE_MANIFEST_BYTES + 1];
    match parse_policy_source_manifest(&big, Ok(manifest(vec![source("AGENTS.md")]))) {
        Err(e) => assert_eq!(e.message(), "organization policy JSON exceeds the 262144-byte limit"),
        Ok(_) => panic!("accepted an oversized manifest"),
    }
    match parse_policy_source_manifest(&[b'{', 0xff, b'}'], Ok(manifest(vec![source("AGENTS.md")]))) {
        Err(e) => assert!(e.message().starts_with("organization policy JSON is not UTF-8: ")),
        Ok(_) => panic!("accepted bytes that are not UTF-8"),
    }
    match parse_policy_source_manifest(text.as_bytes(), Err("duplicate object member `path`".to_owned())) {
        Err(e) => assert_eq!(e.message(), "invalid organization policy JSON: duplicate object member `path`"),
        Ok(_) => panic!("accepted a failed decoding"),
    }
    match parse_policy_source_manifest(b"{\"n\":1.00}", Ok(manifest(vec![source("AGENTS.md")]))) {
        Err(e) => assert_eq!(e.message(), "invalid organization policy contract:\nnon-canonical JSON number at byte 5"),
        Ok(_) => panic!("accepted a non-canonical number"),
    }
    match parse_policy_source_manifest(text.as_bytes(), Ok(manifest(vec![source("../x")]))) {
        Err(e) => assert!(e.message().contains("$.sources[0].path: empty, dot, and parent segments are forbidden")),
        Ok(_) => panic!("accepted a parent segment"),
    }
}
