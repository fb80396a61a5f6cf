use zerker_reason::action::{authorize, verify_authorization, AuthorizationStatus};
use zerker_reason::release::{
    compile_release_authorization, validate_release_target, valid_sha256, ApprovalEvidence, ApprovalStatus,
    ArtifactEvidence, CommitDecisionEvidence, DecisionStatus, ReleaseAuthorizationInput, ReleaseEvidence,
    ReleaseMission, ReleaseTarget, RELEASE_AUTHORIZATION_SCHEMA,
};

const ARTIFACT: &str = "sha256:9f86d081884c7d659a2feaa0c55ad015a3bf4f1b2b0b822cd15d6c15b0f00a08";
const INSTRUCTION: &str = "sha256:2c26b46b68ffc68ff99b453c1d30413413422d706483bfa0f98a5e886266e7ae";

fn s(v: &str) -> String {
    v.to_owned()
}

fn decision(id: &str, authority: &str, observed_at: &str) -> CommitDecisionEvidence {
    CommitDecisionEvidence {
        id: s(id),
        commit: s("commit_def"),
        status: DecisionStatus::Passed,
        authority: s(authority),
        observed_at: s(observed_at),
        valid_until: None,
        supersedes: Vec::new(),
    }
}

fn ready_input() -> ReleaseAuthorizationInput {
    ReleaseAuthorizationInput {
        schema: s(RELEASE_AUTHORIZATION_SCHEMA),
        evaluation_time: s("2026-08-18T10:00:00Z"),
        mission: ReleaseMission {
            id: s("mission_release_150"),
            principal: s("user:release-owner"),
            instruction_digest: s(INSTRUCTION),
            issued_at: s("2026-08-18T08:00:00Z"),
            valid_until: Some(s("2026-08-18T18:00:00Z")),
        },
        release: ReleaseTarget {
            action_id: s("action_deploy_150"),
            tool: s("deploy_release"),
            version: s("1.5.0"),
            commit: s("commit_def"),
            environment: s("production"),
            artifact_digest: s(ARTIFACT),
            required_approver: s("release-manager"),
            proposed_at: s("2026-08-18T10:00:00Z"),
        },
        evidence: ReleaseEvidence {
            tests: vec![decision("evidence_tests_150", "tool-reported", "2026-08-18T09:00:00Z")],
            security_reviews: vec![decision("evidence_security_150", "human-authorized", "2026-08-18T09:10:00Z")],
            artifacts: vec![ArtifactEvidence {
                id: s("evidence_artifact_150"),
                commit: s("commit_def"),
                digest: s(ARTIFACT),
                authority: s("tool-reported"),
                observed_at: s("2026-08-18T09:20:00Z"),
                valid_until: None,
                supersedes: Vec::new(),
            }],
            approvals: vec![ApprovalEvidence {
                id: s("evidence_approval_150"),
                version: s("1.5.0"),
                commit: s("commit_def"),
                environment: s("production"),
                artifact_digest: s(ARTIFACT),
                tool: s("deploy_release"),
                approver: s("release-manager"),
                status: ApprovalStatus::Approved,
                authority: s("human-authorized"),
                observed_at: s("2026-08-18T09:30:00Z"),
                valid_until: None,
                supersedes: Vec::new(),
            }],
        },
    }
}

#[test]
fn compiles_and_authorizes_an_exact_release() {
    let request = compile_release_authorization(&ready_input()).unwrap();
    let result = authorize(&request).unwrap();
    assert_eq!(result.status, AuthorizationStatus::Authorized);
    verify_authorization(&request, &result).unwrap();
}

#[test]
fn missing_approval_is_insufficient_evidence() {
    let mut input = ready_input();
    input.evidence.approvals.clear();
    let result = authorize(&compile_release_authorization(&input).unwrap()).unwrap();
    assert_eq!(result.status, AuthorizationStatus::InsufficientEvidence);
    assert!(result
        .issues
        .iter()
        .any(|issue| { issue.atom.as_ref().is_some_and(|atom| atom.predicate == "release_approved") }));
}

#[test]
fn failed_tests_explicitly_deny_the_release() {
    let mut input = ready_input();
    input.evidence.tests[0].status = DecisionStatus::Failed;
    let result = authorize(&compile_release_authorization(&input).unwrap()).unwrap();
    assert_eq!(result.status, AuthorizationStatus::Denied);
}

#[test]
fn evidence_for_another_commit_does_not_authorize_the_release() {
    let mut input = ready_input();
    input.evidence.tests[0].commit = "commit_old".to_owned();
    let result = authorize(&compile_release_authorization(&input).unwrap()).unwrap();
    assert_eq!(result.status, AuthorizationStatus::InsufficientEvidence);
}

#[test]
fn approval_for_another_commit_cannot_be_reused() {
    let mut input = ready_input();
    input.evidence.approvals[0].commit = "commit_old".to_owned();
    let result = authorize(&compile_release_authorization(&input).unwrap()).unwrap();
    assert_eq!(result.status, AuthorizationStatus::InsufficientEvidence);
}

#[test]
fn approval_for_another_tool_cannot_be_reused() {
    let mut input = ready_input();
    input.evidence.approvals[0].tool = "another_deploy_tool".to_owned();
    let result = authorize(&compile_release_authorization(&input).unwrap()).unwrap();
    assert_eq!(result.status, AuthorizationStatus::InsufficientEvidence);
}

#[test]
fn agent_proposed_approval_is_withheld() {
    let mut input = ready_input();
    input.evidence.approvals[0].authority = "agent-proposed".to_owned();
    let result = authorize(&compile_release_authorization(&input).unwrap()).unwrap();
    assert_eq!(result.status, AuthorizationStatus::InsufficientEvidence);
    assert!(result.issues.iter().any(|issue| issue.code == "authority_withheld"));
}

#[test]
fn opposing_governed_approvals_conflict() {
    let mut input = ready_input();
    let mut denial = input.evidence.approvals[0].clone();
    denial.id = "evidence_approval_150_denied".to_owned();
    denial.status = ApprovalStatus::Denied;
    denial.observed_at = "2026-08-18T09:31:00Z".to_owned();
    input.evidence.approvals.push(denial);
    let result = authorize(&compile_release_authorization(&input).unwrap()).unwrap();
    assert_eq!(result.status, AuthorizationStatus::Conflicted);
}

#[test]
fn an_unknown_release_schema_is_refused() {
    let mut input = ready_input();
    input.schema = "zerker.reason.release-authorization.v0".to_owned();
    let error = compile_release_authorization(&input).err().unwrap();
    assert_eq!(
        error.message(),
        "invalid action authorization request:\n$.schema: expected \"zerker.reason.release-authorization.v1\", got \"zerker.reason.release-authorization.v0\""
    );
}

#[test]
fn every_blank_release_field_and_a_bad_digest_are_reported() {
    let mut input = ready_input();
    input.release.tool = "  ".to_owned();
    input.release.commit = String::new();
    input.release.artifact_digest = "sha256:ABC".to_owned();
    let error = validate_release_target(&input.release).err().unwrap();
    assert_eq!(
        error.message(),
        "invalid action authorization request:\n$.release.tool: must not be empty\n$.release.commit: must not be empty\n$.release.artifact_digest: expected sha256 followed by 64 lowercase hexadecimal characters"
    );
    assert!(compile_release_authorization(&input).is_err());
}

#[test]
fn sha256_digests_must_be_lowercase_and_complete() {
    assert!(valid_sha256(ARTIFACT));
    assert!(!valid_sha256(&ARTIFACT.to_uppercase()));
    assert!(!valid_sha256(&ARTIFACT[..ARTIFACT.len() - 1]));
    assert!(!valid_sha256(&ARTIFACT.replace("sha256:", "sha512:")));
}

#[test]
fn the_compiled_request_binds_the_exact_release() {
    let request = compile_release_authorization(&ready_input()).unwrap();
    assert_eq!(request.schema, "zerker.reason.action.v1");
    assert_eq!(request.action.id, "action_deploy_150");
    assert_eq!(request.action.tool, "deploy_release");
    assert_eq!(request.action.effects.len(), 1);
    assert_eq!(request.action.effects[0].kind, "deploy");
    assert_eq!(request.action.effects[0].resource, "release:1.5.0");
    assert_eq!(request.policy.schema, "zerker.reason.program.v2");
    assert_eq!(request.policy.facts.len(), 4);
    assert_eq!(request.policy.rules.len(), 4);
    assert_eq!(request.policy.rules[0].id, "release.authorize");
    assert_eq!(request.policy.rules[0].when.len(), 17);
    assert!(request.policy.facts[3].atom.predicate == "release_approved");
    assert_eq!(request.policy.query.predicate, "action_authorized");
}

#[test]
fn an_expired_approval_does_not_authorize_the_release() {
    let mut input = ready_input();
    input.evidence.approvals[0].valid_until = Some(s("2026-08-18T09:45:00Z"));
    let result = authorize(&compile_release_authorization(&input).unwrap()).unwrap();
    assert_eq!(result.status, AuthorizationStatus::InsufficientEvidence);
}

#[test]
fn a_commit_spelled_like_a_variable_is_refused() {
    let mut input = ready_input();
    input.release.commit = s("$commit");
    input.evidence.tests[0].commit = s("$commit");
    input.evidence.security_reviews[0].commit = s("$commit");
    input.evidence.artifacts[0].commit = s("$commit");
    input.evidence.approvals[0].commit = s("$commit");
    match authorize(&compile_release_authorization(&input).unwrap()) {
        Ok(_) => panic!("a variable in a binding fact must be refused"),
        Err(error) => assert!(error.message().contains("variables are not allowed here")),
    }
}

#[test]
fn a_required_approver_spelled_like_a_variable_matches_any_approver() {
    let mut input = ready_input();
    input.release.required_approver = s("$anyone");
    input.evidence.approvals[0].approver = s("someone-else");
    let result = authorize(&compile_release_authorization(&input).unwrap()).unwrap();
    assert_eq!(result.status, AuthorizationStatus::Authorized);
}
