use zerker_reason::action::{authorize, verify_authorization, AuthorizationStatus};
use zerker_reason::checker::verify;
use zerker_reason::collections::{StrMap, StrSet};
use zerker_reason::json::JsonValue;
use zerker_reason::model::{Atom, AuthorityPolicy, Fact, Ontology, Predicate, Program, Rule, ScalarType, PROGRAM_SCHEMA};
use zerker_reason::reasoning::{check, Status};
use zerker_reason::release::{
    compile_release_authorization, ApprovalEvidence, ApprovalStatus, ArtifactEvidence, CommitDecisionEvidence,
    DecisionStatus, ReleaseAuthorizationInput, ReleaseEvidence, ReleaseMission, ReleaseTarget,
    RELEASE_AUTHORIZATION_SCHEMA,
};
use zerker_reason::render::{
    authorization_exit_code, authorization_text, authorization_verification_text, check_exit_code, check_result_text,
    display_atom, display_value, verification_text,
};

fn text(v: &str) -> JsonValue {
    JsonValue::String(v.to_owned())
}

fn atom(predicate: &str, arguments: &[&str], negated: bool) -> Atom {
    Atom { predicate: predicate.to_owned(), arguments: arguments.iter().map(|a| text(a)).collect(), negated }
}

fn set(items: &[&str]) -> StrSet {
    let mut s = StrSet::new();
    for item in items {
        s.insert((*item).to_owned());
    }
    s
}

fn fact(id: &str, atom: Atom, authority: &str) -> Fact {
    Fact {
        id: id.to_owned(),
        atom,
        authority: authority.to_owned(),
        observed_at: None,
        valid_from: None,
        valid_until: None,
        supersedes: Vec::new(),
    }
}

fn release_program(approval_authority: &str) -> Program {
    let mut predicates = StrMap::new();
    for (name, arity) in [("tests_passed", 1), ("approved", 2), ("release_ready", 2)] {
        predicates.insert(name.to_owned(), Predicate { arguments: vec![ScalarType::String; arity] });
    }
    let mut admissions = StrMap::new();
    admissions.insert("tests_passed".to_owned(), set(&["tool-reported"]));
    admissions.insert("approved".to_owned(), set(&["human-authorized"]));
    Program {
        schema: PROGRAM_SCHEMA.to_owned(),
        ontology: Ontology { id: "zerker.release".to_owned(), version: "1".to_owned(), predicates },
        authority: AuthorityPolicy {
            classes: set(&["agent-proposed", "human-authorized", "tool-reported"]),
            default_admit: StrSet::new(),
            predicate_admit: admissions,
        },
        evaluation_time: None,
        facts: vec![
            fact("fact_tests_abc", atom("tests_passed", &["commit_abc"], false), "tool-reported"),
            fact("fact_approval_140", atom("approved", &["1.4.0", "release-manager"], false), approval_authority),
        ],
        rules: vec![Rule {
            id: "release_ready".to_owned(),
            when: vec![atom("tests_passed", &["$commit"], false), atom("approved", &["$version", "release-manager"], false)],
            head: atom("release_ready", &["$version", "$commit"], false),
        }],
        query: atom("release_ready", &["1.4.0", "commit_abc"], false),
    }
}

#[test]
fn values_and_atoms_read_as_text() {
    assert_eq!(display_value(&text("commit_abc")), "commit_abc");
    assert_eq!(display_value(&JsonValue::Number("42".to_owned())), "42");
    assert_eq!(display_value(&JsonValue::Bool(true)), "true");
    assert_eq!(display_value(&JsonValue::Null), "null");
    assert_eq!(display_value(&JsonValue::Array(vec![text("a\"b"), JsonValue::Null])), "[\"a\\\"b\",null]");
    assert_eq!(display_atom(&atom("release_ready", &["1.4.0", "commit_abc"], true)), "not release_ready(1.4.0, commit_abc)");
    assert_eq!(display_atom(&atom("mission_active", &[], false)), "mission_active()");
}

#[test]
fn a_proved_check_reads_as_a_decision_with_its_proof() {
    let result = check(&release_program("human-authorized")).unwrap();
    let lines = check_result_text(&result, Some("proof.json"));
    assert_eq!(lines[0], "PROVED  release_ready(1.4.0, commit_abc)");
    assert_eq!(lines[1], "        support: 3 nodes");
    assert!(lines[2].starts_with("        proof sha256:"));
    assert_eq!(lines[3], "\nOntology zerker.release@1  2 supplied, 2 admitted, 0 withheld, 1 derived, 2 rounds");
    assert_eq!(lines[4], "Proof written to proof.json");
    assert_eq!(lines[5], "Next: reason verify <program> proof.json");
    assert_eq!(lines.len(), 6);
    assert_eq!(check_exit_code(result.status), 0);
}

#[test]
fn an_unknown_check_explains_the_withheld_authority() {
    let result = check(&release_program("agent-proposed")).unwrap();
    assert_eq!(result.status, Status::Unknown);
    let lines = check_result_text(&result, None);
    assert_eq!(lines[0], "UNKNOWN  release_ready(1.4.0, commit_abc)");
    assert_eq!(lines[1], "        missing support:");
    assert_eq!(lines[2], "        - approved(1.4.0, release-manager)");
    assert_eq!(
        lines[3],
        "\nUnknown does not mean false. Supply evidence from an admitted authority; do not relabel untrusted evidence."
    );
    assert_eq!(lines[4], "\nAuthority withheld 1 fact(s):");
    assert_eq!(lines[5], "        - approved(1.4.0, release-manager) from agent-proposed (fact_approval_140)");
    assert_eq!(lines[6], "          admitted authority: human-authorized");
    assert_eq!(check_exit_code(result.status), 2);
}

#[test]
fn a_verification_reads_as_its_query_and_node_count() {
    let program = release_program("human-authorized");
    let result = check(&program).unwrap();
    let verification = verify(&program, &result).unwrap();
    let lines = verification_text(&verification);
    assert_eq!(lines[0], "VERIFIED  release_ready(1.4.0, commit_abc) (proved)");
    assert_eq!(lines[1], "          3 proof nodes");
    assert!(lines[2].starts_with("          proof sha256:"));
    assert_eq!(lines.len(), 3);
}

fn release_input() -> ReleaseAuthorizationInput {
    let digest = "sha256:9f86d081884c7d659a2feaa0c55ad015a3bf4f1b2b0b822cd15d6c15b0f00a08".to_owned();
    let decision = |id: &str, authority: &str| CommitDecisionEvidence {
        id: id.to_owned(),
        commit: "commit_def".to_owned(),
        status: DecisionStatus::Passed,
        authority: authority.to_owned(),
        observed_at: "2026-08-18T09:00:00Z".to_owned(),
        valid_until: None,
        supersedes: Vec::new(),
    };
    ReleaseAuthorizationInput {
        schema: RELEASE_AUTHORIZATION_SCHEMA.to_owned(),
        evaluation_time: "2026-08-18T10:00:00Z".to_owned(),
        mission: ReleaseMission {
            id: "mission_release_150".to_owned(),
            principal: "user:release-owner".to_owned(),
            instruction_digest: "sha256:2c26b46b68ffc68ff99b453c1d30413413422d706483bfa0f98a5e886266e7ae".to_owned(),
            issued_at: "2026-08-18T08:00:00Z".to_owned(),
            valid_until: None,
        },
        release: ReleaseTarget {
            action_id: "action_deploy_150".to_owned(),
            tool: "deploy_release".to_owned(),
            version: "1.5.0".to_owned(),
            commit: "commit_def".to_owned(),
            environment: "production".to_owned(),
            artifact_digest: digest.clone(),
            required_approver: "release-manager".to_owned(),
            proposed_at: "2026-08-18T10:00:00Z".to_owned(),
        },
        evidence: ReleaseEvidence {
            tests: vec![decision("evidence_tests_150", "tool-reported")],
            security_reviews: vec![decision("evidence_security_150", "human-authorized")],
            artifacts: vec![ArtifactEvidence {
                id: "evidence_artifact_150".to_owned(),
                commit: "commit_def".to_owned(),
                digest: digest.clone(),
                authority: "tool-reported".to_owned(),
                observed_at: "2026-08-18T09:00:00Z".to_owned(),
                valid_until: None,
                supersedes: Vec::new(),
            }],
            approvals: vec![ApprovalEvidence {
                id: "evidence_approval_150".to_owned(),
                version: "1.5.0".to_owned(),
                commit: "commit_def".to_owned(),
                environment: "production".to_owned(),
                artifact_digest: digest,
                tool: "deploy_release".to_owned(),
                approver: "release-manager".to_owned(),
                status: ApprovalStatus::Approved,
                authority: "human-authorized".to_owned(),
                observed_at: "2026-08-18T09:30:00Z".to_owned(),
                valid_until: None,
                supersedes: Vec::new(),
            }],
        },
    }
}

#[test]
fn an_authorization_reads_as_the_exact_call_and_its_bindings() {
    let request = compile_release_authorization(&release_input()).unwrap();
    let result = authorize(&request).unwrap();
    let lines = authorization_text(&result, Some("authorization.json"));
    assert_eq!(lines[0], "AUTHORIZED  action_deploy_150 via mission_release_150");
    assert_eq!(
        lines[1],
        "            deploy_release(artifact_digest=sha256:9f86d081884c7d659a2feaa0c55ad015a3bf4f1b2b0b822cd15d6c15b0f00a08, commit=commit_def, environment=production, version=1.5.0)"
    );
    assert_eq!(lines[2], "            effect deploy release:1.5.0 = production");
    assert!(lines[3].starts_with("            action sha256:"));
    assert!(lines[4].starts_with("            mission sha256:"));
    assert_eq!(lines[5], "            evaluated at 2026-08-18T10:00:00Z");
    assert_eq!(lines[6], "            all authorization requirements are proved");
    assert!(lines[7].starts_with("            proof sha256:"));
    assert_eq!(lines[8], "Certificate written to authorization.json");
    assert_eq!(lines[9], "Next: reason verify-authorization <request> authorization.json");
    assert_eq!(authorization_exit_code(result.status), 0);

    let verification = verify_authorization(&request, &result).unwrap();
    let lines = authorization_verification_text(&verification);
    assert_eq!(lines[0], format!("VERIFIED_AUTHORIZATION  {} (authorized)", result.request_digest));
    assert!(lines[1].starts_with("                        result sha256:"));
}

#[test]
fn every_authorization_status_has_its_exit_code() {
    assert_eq!(authorization_exit_code(AuthorizationStatus::Authorized), 0);
    assert_eq!(authorization_exit_code(AuthorizationStatus::InsufficientEvidence), 2);
    assert_eq!(authorization_exit_code(AuthorizationStatus::Denied), 3);
    assert_eq!(authorization_exit_code(AuthorizationStatus::Conflicted), 4);
    assert_eq!(check_exit_code(Status::Disproved), 3);
    assert_eq!(check_exit_code(Status::Inconsistent), 4);
}

#[test]
fn only_unicode_white_space_counts_as_blank() {
    assert!(zerker_reason::text::blank(""));
    assert!(zerker_reason::text::blank(" \t\n\r\u{0B}\u{0C}"));
    assert!(zerker_reason::text::blank("\u{85}\u{A0}\u{1680}\u{2000}\u{200A}\u{2028}\u{2029}\u{202F}\u{205F}\u{3000}"));
    assert!(!zerker_reason::text::blank("\u{200B}"));
    assert!(!zerker_reason::text::blank("\u{1C}"));
    assert!(!zerker_reason::text::blank(" a "));
    for c in (0u32..0x11000).filter_map(char::from_u32) {
        assert_eq!(zerker_reason::text::char_is_whitespace(c), c.is_whitespace(), "{:?}", c);
    }
}
