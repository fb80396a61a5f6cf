use zerker_reason::action::{AuthorizationStatus, Mission, ProposedAction};
use zerker_reason::collections::{StrMap, StrSet};
use zerker_reason::digest::source_digest;
use zerker_reason::json::{encode_value, JsonValue};
use zerker_reason::model::{Atom, AuthorityPolicy, Fact, Ontology, Predicate, Rule, ScalarType};
use zerker_reason::policy::{
    LockedPolicySource, PolicyError, PolicySource, PolicySourceKind, PolicySourceManifest, PolicySourceScope,
    POLICY_SOURCE_MANIFEST_SCHEMA,
};
use zerker_reason::policy_bundle::{
    authorize_policy, bundle_to_json, lock_policy_bundle, parse_policy_authorization, parse_policy_bundle,
    policy_authorization_to_json, validate_policy_bundle, validate_policy_template, verify_policy_authorization,
    verify_policy_sources, PolicyAuthorizationInput, PolicyAuthorizationVerificationInput, PolicyBundle, PolicyTemplate,
    MAX_SOURCE_BYTES, POLICY_AUTHORIZATION_INPUT_SCHEMA, POLICY_AUTHORIZATION_VERIFICATION_INPUT_SCHEMA,
    POLICY_TEMPLATE_SCHEMA,
};

fn text(v: &str) -> JsonValue {
    JsonValue::String(v.to_owned())
}

fn atom(predicate: &str, arguments: &[&str]) -> Atom {
    Atom { predicate: predicate.to_owned(), arguments: arguments.iter().map(|a| text(a)).collect(), negated: false }
}

fn set(items: &[&str]) -> StrSet {
    let mut s = StrSet::new();
    for item in items {
        s.insert((*item).to_owned());
    }
    s
}

fn policy_fixture() -> PolicyTemplate {
    let mut predicates = StrMap::new();
    predicates.insert("tool_allowed".to_owned(), Predicate { arguments: vec![ScalarType::String] });
    let mut admissions = StrMap::new();
    admissions.insert("tool_allowed".to_owned(), set(&["human-authorized"]));
    PolicyTemplate {
        schema: POLICY_TEMPLATE_SCHEMA.to_owned(),
        ontology: Ontology { id: "zerker.org-policy".to_owned(), version: "1".to_owned(), predicates },
        authority: AuthorityPolicy {
            classes: set(&["human-authorized"]),
            default_admit: StrSet::new(),
            predicate_admit: admissions,
        },
        facts: vec![Fact {
            id: "fact_tool_allowed".to_owned(),
            atom: atom("tool_allowed", &["deploy_release"]),
            authority: "human-authorized".to_owned(),
            observed_at: Some("2026-01-01T00:00:00Z".to_owned()),
            valid_from: None,
            valid_until: None,
            supersedes: Vec::new(),
        }],
        rules: vec![Rule {
            id: "allow_listed_tool".to_owned(),
            when: vec![atom("action_tool", &["$action", "$tool"]), atom("tool_allowed", &["$tool"])],
            head: atom("action_authorized", &["$action"]),
        }],
    }
}

const SOURCES: [(&str, &[u8]); 3] = [
    ("TEAM.md", b"Follow the organization policy.\n"),
    ("AGENTS.md", b"Agents deploy only listed tools.\n"),
    (".agents/skills/support/SKILL.md", b"Support skill.\n"),
];

fn manifest_fixture() -> PolicySourceManifest {
    PolicySourceManifest {
        schema: POLICY_SOURCE_MANIFEST_SCHEMA.to_owned(),
        sources: SOURCES
            .iter()
            .map(|(path, _)| PolicySource {
                path: (*path).to_owned(),
                kind: PolicySourceKind::Instruction,
                scope: PolicySourceScope::Repository,
            })
            .collect(),
    }
}

fn resolved_fixture() -> Vec<LockedPolicySource> {
    SOURCES
        .iter()
        .map(|(path, bytes)| LockedPolicySource {
            path: (*path).to_owned(),
            kind: PolicySourceKind::Instruction,
            scope: PolicySourceScope::Repository,
            size_bytes: bytes.len() as u64,
            digest: source_digest(bytes),
        })
        .collect()
}

fn bundle_fixture() -> PolicyBundle {
    lock_policy_bundle(&manifest_fixture(), &policy_fixture(), &resolved_fixture()).unwrap()
}

fn bundle_bytes(bundle: &PolicyBundle) -> Vec<u8> {
    encode_value(&bundle_to_json(bundle)).into_iter().collect::<String>().into_bytes()
}

fn message<T>(r: Result<T, PolicyError>) -> String {
    match r {
        Ok(_) => panic!("expected an error"),
        Err(e) => e.message(),
    }
}

#[test]
fn template_validation_reuses_reserved_action_namespace_checks() {
    let policy = policy_fixture();
    validate_policy_template(&policy).unwrap();

    let mut authority = policy_fixture();
    authority.authority.classes.insert("system-bound".to_owned());
    assert!(message(validate_policy_template(&authority)).contains("reserved for request bindings"));

    let mut default_admission = policy_fixture();
    default_admission.authority.default_admit.insert("system-bound".to_owned());
    assert!(
        message(validate_policy_template(&default_admission)).contains("reserved for request bindings"),
        "unexpected error for default admission"
    );

    let mut predicate_admission = policy_fixture();
    predicate_admission
        .ontology
        .predicates
        .insert("reviewed".to_owned(), Predicate { arguments: vec![ScalarType::String] });
    predicate_admission.authority.predicate_admit.insert("reviewed".to_owned(), set(&["system-bound"]));
    assert!(
        message(validate_policy_template(&predicate_admission)).contains("reserved for request bindings"),
        "unexpected error for predicate admission"
    );

    let mut reserved_head = policy;
    reserved_head.rules[0].head.predicate = "action_tool".to_owned();
    assert!(message(validate_policy_template(&reserved_head)).contains("can only be supplied by request bindings"));
}

#[test]
fn bundle_semantics_reject_tampering_order_and_aggregate_claims() {
    let bundle = bundle_fixture();
    let bytes = bundle_bytes(&bundle);
    let parsed = parse_policy_bundle(&bytes, Ok(bundle_fixture())).unwrap();
    validate_policy_bundle(&parsed).unwrap();

    let mut tampered: PolicyBundle = parsed;
    tampered.sources.swap(0, 1);
    assert!(message(validate_policy_bundle(&tampered)).contains("strictly sorted"));

    let mut oversized_claims = bundle_fixture();
    let digest = oversized_claims.sources[0].digest.clone();
    oversized_claims.sources = (0..17)
        .map(|index| LockedPolicySource {
            path: format!("source-{index:02}.md"),
            kind: PolicySourceKind::Instruction,
            scope: PolicySourceScope::Repository,
            size_bytes: MAX_SOURCE_BYTES,
            digest: digest.clone(),
        })
        .collect();
    assert!(message(validate_policy_bundle(&oversized_claims)).contains("aggregate size exceeds"));

    let mut changed = bundle_fixture();
    changed.sources[0].digest = format!("sha256:{}", "f".repeat(64));
    let changed_bytes = bundle_bytes(&changed);
    assert!(message(parse_policy_bundle(&changed_bytes, Ok(changed))).contains("commitment mismatch"));
}

#[test]
fn locking_orders_sources_by_path_and_commits_to_them() {
    let bundle = bundle_fixture();
    let paths: Vec<&str> = bundle.sources.iter().map(|s| s.path.as_str()).collect();
    assert_eq!(paths, vec![".agents/skills/support/SKILL.md", "AGENTS.md", "TEAM.md"]);
    assert_eq!(bundle.sources[1].size_bytes, 33);
    assert!(bundle.bundle_digest.starts_with("sha256:"));
    assert_eq!(bundle.bundle_digest, bundle_fixture().bundle_digest);

    let mut observed: Vec<LockedPolicySource> = bundle
        .sources
        .iter()
        .map(|s| LockedPolicySource {
            path: s.path.clone(),
            kind: s.kind,
            scope: s.scope,
            size_bytes: s.size_bytes,
            digest: s.digest.clone(),
        })
        .collect();
    let verified = verify_policy_sources(&bundle, &observed).unwrap();
    assert_eq!(verified.status, "verified");
    assert_eq!(verified.sources_verified, 3);
    assert_eq!(verified.policy_bundle_digest, bundle.bundle_digest);

    observed[2].size_bytes += 1;
    let drift = message(verify_policy_sources(&bundle, &observed));
    assert!(drift.contains("$.sources[2]: source drift for \"TEAM.md\"; expected size 32"));
}

#[test]
fn reordering_the_manifest_gives_the_same_bundle() {
    let mut manifest = manifest_fixture();
    manifest.sources.reverse();
    let mut resolved = resolved_fixture();
    resolved.reverse();
    let reordered = lock_policy_bundle(&manifest, &policy_fixture(), &resolved).unwrap();
    let original = bundle_fixture();
    assert_eq!(reordered.bundle_digest, original.bundle_digest);
    assert_eq!(bundle_bytes(&reordered), bundle_bytes(&original));
}

#[test]
fn a_source_digest_is_the_sha256_of_its_bytes() {
    assert_eq!(source_digest(b""), "sha256:e3b0c44298fc1c149afbf4c8996fb92427ae41e4649b934ca495991b7852b855");
    assert_eq!(source_digest(b"abc"), "sha256:ba7816bf8f01cfea414140de5dae2223b00361a396177a9cb410ff61f20015ad");
}

fn authorization_input(tool: &str) -> PolicyAuthorizationInput {
    PolicyAuthorizationInput {
        schema: POLICY_AUTHORIZATION_INPUT_SCHEMA.to_owned(),
        policy_bundle: bundle_fixture(),
        evaluation_time: "2026-06-01T00:00:00Z".to_owned(),
        mission: Mission {
            id: "mission_release_1".to_owned(),
            principal: "user:release-owner".to_owned(),
            instruction_digest: "sha256:2c26b46b68ffc68ff99b453c1d30413413422d706483bfa0f98a5e886266e7ae".to_owned(),
            issued_at: "2026-05-31T00:00:00Z".to_owned(),
            valid_until: None,
            constraints: StrMap::new(),
        },
        action: ProposedAction {
            id: "action_1".to_owned(),
            tool: tool.to_owned(),
            proposed_at: "2026-05-31T23:59:00Z".to_owned(),
            arguments: StrMap::new(),
            effects: Vec::new(),
        },
    }
}

#[test]
fn policy_authorization_expands_authorizes_and_verifies_independently() {
    let authorized = authorize_policy(&authorization_input("deploy_release")).unwrap();
    assert_eq!(authorized.authorization_status, AuthorizationStatus::Authorized);
    assert_eq!(authorized.policy_bundle_digest, bundle_fixture().bundle_digest);
    assert_eq!(authorized.request_digest, authorized.authorization.certificate.request_digest);

    let bytes = encode_value(&policy_authorization_to_json(&authorized)).into_iter().collect::<String>().into_bytes();
    let reparsed = parse_policy_authorization(&bytes, Ok(authorized)).unwrap();

    let input = PolicyAuthorizationVerificationInput {
        schema: POLICY_AUTHORIZATION_VERIFICATION_INPUT_SCHEMA.to_owned(),
        policy_bundle: bundle_fixture(),
        policy_authorization: reparsed,
    };
    let verification = verify_policy_authorization(&input).unwrap();
    assert_eq!(verification.authorization_status, AuthorizationStatus::Authorized);

    let mut tampered = input;
    tampered.policy_authorization.authorization_status = AuthorizationStatus::Denied;
    assert!(message(verify_policy_authorization(&tampered)).contains("authorization_status: does not match the certificate"));

    let unlisted = authorize_policy(&authorization_input("delete_database")).unwrap();
    assert_eq!(unlisted.authorization_status, AuthorizationStatus::InsufficientEvidence);
}

#[test]
fn a_policy_authorization_with_a_malformed_digest_is_refused() {
    let mut authorized = authorize_policy(&authorization_input("deploy_release")).unwrap();
    authorized.request_digest = "sha256:abc".to_owned();
    let bytes = encode_value(&policy_authorization_to_json(&authorized)).into_iter().collect::<String>().into_bytes();
    assert_eq!(
        message(parse_policy_authorization(&bytes, Ok(authorized))),
        "invalid organization policy contract:\n$.request_digest: expected a lowercase SHA-256 digest"
    );
}

#[test]
fn template_validation_names_the_predicate_whose_admission_is_reserved() {
    let mut predicate_admission = policy_fixture();
    predicate_admission
        .ontology
        .predicates
        .insert("reviewed".to_owned(), Predicate { arguments: vec![ScalarType::String] });
    predicate_admission.authority.predicate_admit.insert("reviewed".to_owned(), set(&["system-bound"]));
    let text = message(validate_policy_template(&predicate_admission));
    assert!(text.starts_with("invalid organization policy contract:\n$.policy: invalid action authorization request:\n"));
    assert!(text.contains("$.policy.authority.predicate_admit.reviewed: \"system-bound\" is reserved for request bindings"));
}
