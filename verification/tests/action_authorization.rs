use zerker_reason::action::{
    authorize, request_to_json, validate_action_request, verify_authorization, ActionRequest, AuthorizationStatus,
    SYSTEM_AUTHORITY,
};
use zerker_reason::error::ReasonError;
use zerker_reason::model::digest_json;
use zerker_reason::json::JsonValue;
use zerker_reason::model::Atom;
use zerker_reason::release::{
    compile_release_authorization, ApprovalEvidence, ApprovalStatus, ArtifactEvidence, CommitDecisionEvidence,
    DecisionStatus, ReleaseAuthorizationInput, ReleaseEvidence, ReleaseMission, ReleaseTarget,
    RELEASE_AUTHORIZATION_SCHEMA,
};

const ARTIFACT: &str = "sha256:5891b5b522d5df086d0ff0b110fbd9d21bb4fc7163af34d08286a2e846f6be03";
const INSTRUCTION: &str = "sha256:e3b0c44298fc1c149afbf4c8996fb92427ae41e4649b934ca495991b7852b855";

fn s(v: &str) -> String {
    v.to_owned()
}

fn decision(id: &str, authority: &str, observed_at: &str) -> CommitDecisionEvidence {
    CommitDecisionEvidence {
        id: s(id),
        commit: s("commit_abc"),
        status: DecisionStatus::Passed,
        authority: s(authority),
        observed_at: s(observed_at),
        valid_until: None,
        supersedes: Vec::new(),
    }
}

/// The deployment of release 1.4.0 of `commit_abc` to production, with its
/// governed evidence; the approval is the third fact of the policy.
fn deployment_request() -> ActionRequest {
    let input = ReleaseAuthorizationInput {
        schema: s(RELEASE_AUTHORIZATION_SCHEMA),
        evaluation_time: s("2026-08-14T12:00:00Z"),
        mission: ReleaseMission {
            id: s("mission_release_140"),
            principal: s("user:release-owner"),
            instruction_digest: s(INSTRUCTION),
            issued_at: s("2026-08-14T08:00:00Z"),
            valid_until: Some(s("2026-08-14T18:00:00Z")),
        },
        release: ReleaseTarget {
            action_id: s("action_deploy_140"),
            tool: s("deploy_release"),
            version: s("1.4.0"),
            commit: s("commit_abc"),
            environment: s("production"),
            artifact_digest: s(ARTIFACT),
            required_approver: s("release-manager"),
            proposed_at: s("2026-08-14T11:55:00Z"),
        },
        evidence: ReleaseEvidence {
            tests: vec![decision("fact_tests_abc", "tool-reported", "2026-08-14T09:00:00Z")],
            security_reviews: vec![decision("fact_review_abc", "human-authorized", "2026-08-14T10:00:00Z")],
            artifacts: vec![ArtifactEvidence {
                id: s("fact_artifact_140"),
                commit: s("commit_abc"),
                digest: s(ARTIFACT),
                authority: s("tool-reported"),
                observed_at: s("2026-08-14T10:30:00Z"),
                valid_until: None,
                supersedes: Vec::new(),
            }],
            approvals: vec![ApprovalEvidence {
                id: s("fact_approval_140"),
                version: s("1.4.0"),
                commit: s("commit_abc"),
                environment: s("production"),
                artifact_digest: s(ARTIFACT),
                tool: s("deploy_release"),
                approver: s("release-manager"),
                status: ApprovalStatus::Approved,
                authority: s("human-authorized"),
                observed_at: s("2026-08-14T11:00:00Z"),
                valid_until: None,
                supersedes: Vec::new(),
            }],
        },
    };
    let mut request = compile_release_authorization(&input).unwrap();
    request.policy.facts.swap(2, 3);
    request
}

fn error_of<T>(r: Result<T, zerker_reason::error::ReasonError>) -> String {
    match r {
        Ok(_) => panic!("expected an error"),
        Err(e) => e.message(),
    }
}

#[test]
fn authorizes_and_independently_verifies_the_exact_action() {
    let request = deployment_request();
    let result = authorize(&request).unwrap();
    assert_eq!(result.status, AuthorizationStatus::Authorized);
    assert!(result.issues.is_empty());
    let verification = verify_authorization(&request, &result).unwrap();
    assert_eq!(verification.authorization_status, AuthorizationStatus::Authorized);
}

#[test]
fn changed_action_arguments_invalidate_the_certificate() {
    let request = deployment_request();
    let result = authorize(&request).unwrap();
    let mut changed = deployment_request();
    changed.action.arguments.insert("environment".to_owned(), JsonValue::String("staging".to_owned()));
    let error = error_of(verify_authorization(&changed, &result));
    assert!(error.contains("request_digest: mismatch"));
    assert_eq!(authorize(&changed).unwrap().status, AuthorizationStatus::InsufficientEvidence);
}

#[test]
fn expired_approval_fails_closed_with_an_actionable_issue() {
    let mut request = deployment_request();
    request.policy.facts[2].valid_until = Some("2026-08-14T12:00:00Z".to_owned());
    let result = authorize(&request).unwrap();
    assert_eq!(result.status, AuthorizationStatus::InsufficientEvidence);
    assert!(result
        .issues
        .iter()
        .any(|issue| { issue.code == "temporally_ineligible" && issue.fact_ids == vec!["fact_approval_140"] }));
    verify_authorization(&request, &result).unwrap();
}

#[test]
fn untrusted_approval_cannot_authorize_deployment() {
    let mut request = deployment_request();
    request.policy.facts[2].authority = "agent-proposed".to_owned();
    request.policy.authority.classes.insert("agent-proposed".to_owned());
    let result = authorize(&request).unwrap();
    assert_eq!(result.status, AuthorizationStatus::InsufficientEvidence);
    assert!(result
        .issues
        .iter()
        .any(|issue| { issue.code == "authority_withheld" && issue.fact_ids == vec!["fact_approval_140"] }));
}

#[test]
fn explicit_negative_evidence_denies_the_action() {
    let mut request = deployment_request();
    request.policy.facts[1].atom.negated = true;
    let result = authorize(&request).unwrap();
    assert_eq!(result.status, AuthorizationStatus::Denied);
    assert!(result.reasoning.disproof.is_some());
    verify_authorization(&request, &result).unwrap();
}

#[test]
fn contradictory_governed_evidence_conflicts_and_fails_closed() {
    let mut request = deployment_request();
    let mut revoked = request.policy.facts[1].clone();
    revoked.id = "fact_review_abc_revoked".to_owned();
    revoked.atom.negated = true;
    revoked.observed_at = Some("2026-08-14T11:30:00Z".to_owned());
    request.policy.facts.push(revoked);
    let result = authorize(&request).unwrap();
    assert_eq!(result.status, AuthorizationStatus::Conflicted);
    assert!(result.issues.iter().any(|issue| {
        issue.code == "conflicting_authorization"
            && issue.fact_ids.contains(&"fact_review_abc".to_owned())
            && issue.fact_ids.contains(&"fact_review_abc_revoked".to_owned())
    }));
    verify_authorization(&request, &result).unwrap();
}

#[test]
fn expired_mission_cannot_authorize_an_action() {
    let mut request = deployment_request();
    request.mission.valid_until = Some("2026-08-14T12:00:00Z".to_owned());
    let result = authorize(&request).unwrap();
    assert_eq!(result.status, AuthorizationStatus::InsufficientEvidence);
    assert!(result.issues.iter().any(|issue| {
        issue.code == "temporally_ineligible"
            && issue.fact_ids.iter().any(|id| id == "zerker.action.binding.mission.active")
    }));
}

#[test]
fn policy_cannot_spoof_system_bound_action_facts() {
    let mut request = deployment_request();
    request.policy.authority.classes.insert(SYSTEM_AUTHORITY.to_owned());
    let error = error_of(authorize(&request));
    assert!(error.contains("reserved for request bindings"));
}

#[test]
fn policy_rules_cannot_forge_request_bindings() {
    let mut request = deployment_request();
    request.policy.rules[0].head = Atom {
        predicate: "action_tool".to_owned(),
        arguments: vec![
            JsonValue::String("action_deploy_140".to_owned()),
            JsonValue::String("deploy_release".to_owned()),
        ],
        negated: false,
    };
    let error = error_of(authorize(&request));
    assert!(error.contains("can only be supplied by request bindings"));
}

#[test]
fn verifier_rejects_a_tampered_authorization_status() {
    let request = deployment_request();
    let mut result = authorize(&request).unwrap();
    result.status = AuthorizationStatus::Denied;
    let error = error_of(verify_authorization(&request, &result));
    assert!(error.contains("status: does not match"));
}

#[test]
fn a_request_with_a_blank_tool_is_refused() {
    let mut request = deployment_request();
    request.action.tool = " ".to_owned();
    let error = error_of(validate_action_request(&request));
    assert!(error.starts_with("invalid action authorization request:\n"));
    assert!(error.contains("$.action.tool: must not be empty"));
}

#[test]
fn a_changed_request_is_refused_with_the_digest_it_would_need() {
    let request = deployment_request();
    let result = authorize(&request).unwrap();
    let mut changed = deployment_request();
    changed.action.arguments.insert("environment".to_owned(), JsonValue::String("staging".to_owned()));
    let expected = digest_json(&request_to_json(&changed));
    match verify_authorization(&changed, &result) {
        Err(ReasonError::InvalidAuthorization(m)) => {
            assert_eq!(m, format!("$.request_digest: mismatch; expected {}", expected));
        },
        _ => panic!("expected a request digest mismatch"),
    }
}

#[test]
fn the_system_authority_in_the_default_admissions_is_refused() {
    let mut request = deployment_request();
    request.policy.authority.default_admit.insert(SYSTEM_AUTHORITY.to_owned());
    let error = error_of(validate_action_request(&request));
    assert!(error.contains("$.policy.authority.default_admit: \"system-bound\" is reserved for request bindings"));
}
