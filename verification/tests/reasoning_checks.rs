use zerker_reason::certificate::{proof_digest, ProofNode, ProofNodeKind};
use zerker_reason::checker::verify;
use zerker_reason::collections::{StrMap, StrSet};
use zerker_reason::engine::complement;
use zerker_reason::json::JsonValue;
use zerker_reason::model::{
    args_eq, atom_eq, digest_json, program_to_json, Atom, AuthorityPolicy, Fact, Ontology, Predicate, Program, Rule,
    ScalarType, PROGRAM_SCHEMA, PROGRAM_SCHEMA_V2, RESULT_SCHEMA, RESULT_SCHEMA_V2, VERIFICATION_SCHEMA,
    VERIFICATION_SCHEMA_V2,
};
use zerker_reason::program::validate;
use zerker_reason::reasoning::{check, Status};
use zerker_reason::report::build_authority_report;

fn text(v: &str) -> JsonValue {
    JsonValue::String(v.to_owned())
}

fn atom(predicate: &str, arguments: &[&str], negated: bool) -> Atom {
    Atom { predicate: predicate.to_owned(), arguments: arguments.iter().map(|a| text(a)).collect(), negated }
}

fn set(items: &[&str]) -> StrSet {
    let mut s = StrSet::new();
    for item in items {
        s.insert((*item).to_owned());
    }
    s
}

fn fact(id: &str, atom: Atom, authority: &str) -> Fact {
    Fact {
        id: id.to_owned(),
        atom,
        authority: authority.to_owned(),
        observed_at: None,
        valid_from: None,
        valid_until: None,
        supersedes: Vec::new(),
    }
}

fn timed(mut fact: Fact, observed_at: &str) -> Fact {
    fact.observed_at = Some(observed_at.to_owned());
    fact
}

fn predicates(extra: &[(&str, usize)]) -> StrMap<Predicate> {
    let mut m = StrMap::new();
    for (name, arity) in [("tests_passed", 1), ("security_reviewed", 1), ("approved", 2), ("release_ready", 2)]
        .iter()
        .chain(extra.iter())
    {
        m.insert((*name).to_owned(), Predicate { arguments: vec![ScalarType::String; *arity] });
    }
    m
}

fn admissions() -> StrMap<StrSet> {
    let mut m = StrMap::new();
    m.insert("tests_passed".to_owned(), set(&["tool-reported"]));
    m.insert("security_reviewed".to_owned(), set(&["human-authorized"]));
    m.insert("approved".to_owned(), set(&["human-authorized"]));
    m.insert("release_ready".to_owned(), set(&["human-authorized"]));
    m
}

fn ready_rule() -> Rule {
    Rule {
        id: "release_ready".to_owned(),
        when: vec![
            atom("tests_passed", &["$commit"], false),
            atom("security_reviewed", &["$commit"], false),
            atom("approved", &["$version", "release-manager"], false),
        ],
        head: atom("release_ready", &["$version", "$commit"], false),
    }
}

fn blocked_rule() -> Rule {
    Rule {
        id: "revoked_review_blocks_release".to_owned(),
        when: vec![
            atom("security_reviewed", &["$commit"], true),
            atom("approved", &["$version", "release-manager"], false),
        ],
        head: atom("release_ready", &["$version", "$commit"], true),
    }
}

fn program(schema: &str, facts: Vec<Fact>, rules: Vec<Rule>, query: Atom) -> Program {
    Program {
        schema: schema.to_owned(),
        ontology: Ontology { id: "zerker.release".to_owned(), version: "1".to_owned(), predicates: predicates(&[]) },
        authority: AuthorityPolicy {
            classes: set(&["agent-proposed", "human-authorized", "tool-reported"]),
            default_admit: StrSet::new(),
            predicate_admit: admissions(),
        },
        evaluation_time: if schema == PROGRAM_SCHEMA_V2 { Some("2026-08-14T12:00:00Z".to_owned()) } else { None },
        facts,
        rules,
        query,
    }
}

fn query() -> Atom {
    atom("release_ready", &["1.4.0", "commit_abc"], false)
}

fn tests_fact() -> Fact {
    fact("fact_tests_abc", atom("tests_passed", &["commit_abc"], false), "tool-reported")
}

fn review_fact() -> Fact {
    fact("fact_review_abc", atom("security_reviewed", &["commit_abc"], false), "human-authorized")
}

fn approval_fact() -> Fact {
    fact("fact_approval_140", atom("approved", &["1.4.0", "release-manager"], false), "human-authorized")
}

fn blocked_fact() -> Fact {
    fact("fact_release_blocked_140", atom("release_ready", &["1.4.0", "commit_abc"], true), "human-authorized")
}

fn release_program() -> Program {
    program(PROGRAM_SCHEMA, vec![tests_fact(), review_fact(), approval_fact()], vec![ready_rule()], query())
}

fn untrusted_release_program() -> Program {
    let mut p = release_program();
    p.facts[2].authority = "agent-proposed".to_owned();
    p
}

fn disproved_release_program() -> Program {
    program(PROGRAM_SCHEMA, vec![tests_fact(), review_fact(), blocked_fact()], vec![ready_rule()], query())
}

fn inconsistent_release_program() -> Program {
    program(
        PROGRAM_SCHEMA,
        vec![tests_fact(), review_fact(), approval_fact(), blocked_fact()],
        vec![ready_rule()],
        query(),
    )
}

fn expired_release_program() -> Program {
    let mut approval = timed(approval_fact(), "2026-08-14T09:00:00Z");
    approval.valid_until = Some("2026-08-14T12:00:00Z".to_owned());
    program(
        PROGRAM_SCHEMA_V2,
        vec![timed(tests_fact(), "2026-08-14T08:00:00Z"), timed(review_fact(), "2026-08-14T08:30:00Z"), approval],
        vec![ready_rule()],
        query(),
    )
}

fn superseded_release_program() -> Program {
    let mut original = timed(review_fact(), "2026-08-14T08:30:00Z");
    original.id = "fact_review_abc_original".to_owned();
    let mut revoked = timed(
        fact("fact_review_abc_revoked", atom("security_reviewed", &["commit_abc"], true), "human-authorized"),
        "2026-08-14T11:30:00Z",
    );
    revoked.valid_from = Some("2026-08-14T11:30:00Z".to_owned());
    revoked.valid_until = Some("2026-08-15T00:00:00Z".to_owned());
    revoked.supersedes = vec!["fact_review_abc_original".to_owned()];
    program(
        PROGRAM_SCHEMA_V2,
        vec![
            timed(tests_fact(), "2026-08-14T08:00:00Z"),
            original,
            revoked,
            timed(approval_fact(), "2026-08-14T09:00:00Z"),
        ],
        vec![ready_rule(), blocked_rule()],
        query(),
    )
}

fn overlapping_release_program() -> Program {
    let mut approval = timed(approval_fact(), "2026-08-14T10:00:00Z");
    approval.valid_from = Some("2026-08-14T10:00:00Z".to_owned());
    approval.valid_until = Some("2026-08-14T13:00:00Z".to_owned());
    let mut withdrawn = timed(
        fact("fact_approval_140_withdrawn", atom("approved", &["1.4.0", "release-manager"], true), "human-authorized"),
        "2026-08-14T11:00:00Z",
    );
    withdrawn.valid_from = Some("2026-08-14T11:00:00Z".to_owned());
    withdrawn.valid_until = Some("2026-08-14T14:00:00Z".to_owned());
    program(PROGRAM_SCHEMA_V2, vec![approval, withdrawn], vec![], atom("approved", &["1.4.0", "release-manager"], false))
}

fn wrong_commit_release_program() -> Program {
    program(
        PROGRAM_SCHEMA_V2,
        vec![
            timed(fact("fact_tests_old", atom("tests_passed", &["commit_old"], false), "tool-reported"), "2026-08-14T08:00:00Z"),
            timed(
                fact("fact_review_new", atom("security_reviewed", &["commit_new"], false), "human-authorized"),
                "2026-08-14T08:30:00Z",
            ),
            timed(approval_fact(), "2026-08-14T09:00:00Z"),
        ],
        vec![ready_rule()],
        atom("release_ready", &["1.4.0", "commit_new"], false),
    )
}

fn error_of<T>(r: Result<T, zerker_reason::error::ReasonError>) -> String {
    match r {
        Ok(_) => panic!("expected an error"),
        Err(e) => e.message(),
    }
}

#[test]
fn proves_release_readiness_with_a_deterministic_proof() {
    let first = check(&release_program()).unwrap();
    let second = check(&release_program()).unwrap();
    assert_eq!(first.status, Status::Proved);
    assert_eq!(first.proof.as_ref().unwrap().digest, second.proof.as_ref().unwrap().digest);
}

#[test]
fn preserves_the_v1_contract_without_temporal_material() {
    let program = release_program();
    let result = check(&program).unwrap();
    assert_eq!(result.schema, RESULT_SCHEMA);
    assert!(result.temporal.is_none());
    assert!(result.proof.as_ref().unwrap().nodes.iter().all(|node| node.temporal.is_none()));
    assert_eq!(verify(&program, &result).unwrap().schema, VERIFICATION_SCHEMA);
}

#[test]
fn reports_unknown_instead_of_false() {
    let mut program = release_program();
    program.facts.retain(|fact| fact.atom.predicate != "approved");
    let result = check(&program).unwrap();
    assert_eq!(result.status, Status::Unknown);
    assert!(result.proof.is_none());
    assert!(result.missing.iter().any(|atom| atom.predicate == "approved"));
}

#[test]
fn expired_evidence_is_withheld_at_the_half_open_boundary() {
    let program = expired_release_program();
    let result = check(&program).unwrap();
    assert_eq!(result.schema, RESULT_SCHEMA_V2);
    assert_eq!(result.status, Status::Unknown);
    let temporal = result.temporal.as_ref().unwrap();
    assert_eq!(temporal.evaluation_time, "2026-08-14T12:00:00Z");
    assert_eq!(temporal.withheld.len(), 1);
    assert_eq!(temporal.withheld[0].fact_id, "fact_approval_140");
    assert!(temporal.withheld[0].reason.contains("at or before"));
}

#[test]
fn future_observations_cannot_enter_the_snapshot() {
    let mut program = expired_release_program();
    program.facts[2].valid_until = None;
    program.facts[2].observed_at = Some("2026-08-14T12:00:01Z".to_owned());
    let result = check(&program).unwrap();
    assert_eq!(result.status, Status::Unknown);
    assert!(result.temporal.unwrap().withheld[0].reason.contains("after evaluation_time"));
}

#[test]
fn admitted_newer_evidence_supersedes_the_old_claim() {
    let program = superseded_release_program();
    let result = check(&program).unwrap();
    assert_eq!(result.status, Status::Disproved);
    let temporal = result.temporal.as_ref().unwrap();
    let old = temporal.withheld.iter().find(|fact| fact.fact_id == "fact_review_abc_original").unwrap();
    assert_eq!(old.superseded_by, vec!["fact_review_abc_revoked"]);
    assert_eq!(verify(&program, &result).unwrap().schema, VERIFICATION_SCHEMA_V2);
}

#[test]
fn untrusted_evidence_cannot_supersede_governed_evidence() {
    let mut program = superseded_release_program();
    program.facts[2].authority = "agent-proposed".to_owned();
    let result = check(&program).unwrap();
    assert_eq!(result.status, Status::Proved);
    assert!(result.authority.withheld.iter().any(|fact| fact.fact_id == "fact_review_abc_revoked"));
    assert!(!result.temporal.unwrap().withheld.iter().any(|fact| { fact.fact_id == "fact_review_abc_original" }));
}

#[test]
fn evidence_for_an_old_commit_does_not_authorize_the_new_commit() {
    let result = check(&wrong_commit_release_program()).unwrap();
    assert_eq!(result.status, Status::Unknown);
    assert!(result
        .missing
        .iter()
        .any(|atom| { atom.predicate == "tests_passed" && args_eq(&atom.arguments, &vec![text("commit_new")]) }));
    assert!(result.temporal.unwrap().withheld.is_empty());
}

#[test]
fn overlapping_opposing_validity_intervals_are_inconsistent() {
    let program = overlapping_release_program();
    let result = check(&program).unwrap();
    assert_eq!(result.status, Status::Inconsistent);
    assert_eq!(result.conflict.unwrap().fact_ids.len(), 2);
    assert!(result.temporal.unwrap().withheld.is_empty());
}

#[test]
fn v2_rejects_noncanonical_timestamps() {
    let mut program = expired_release_program();
    program.evaluation_time = Some("2026-08-14T12:00:00+00:00".to_owned());
    let error = error_of(validate(&program));
    assert!(error.contains("canonical UTC RFC 3339 seconds"));
}

#[test]
fn active_duplicate_atoms_require_explicit_supersession() {
    let mut program = overlapping_release_program();
    let mut duplicate = program.facts[0].clone();
    duplicate.id = "fact_approval_140_new".to_owned();
    duplicate.observed_at = Some("2026-08-14T11:45:00Z".to_owned());
    duplicate.supersedes.clear();
    program.facts.push(duplicate.clone());
    let error = error_of(validate(&program));
    assert!(error.contains("duplicate the same atom"));

    program.facts.last_mut().unwrap().supersedes = vec!["fact_approval_140".to_owned()];
    validate(&program).unwrap();
}

#[test]
fn verifier_rejects_a_tampered_temporal_certificate() {
    let program = superseded_release_program();
    let mut result = check(&program).unwrap();
    let disproof = result.disproof.as_mut().unwrap();
    let fact = disproof.nodes.iter_mut().find(|node| node.kind == ProofNodeKind::Fact).unwrap();
    fact.temporal.as_mut().unwrap().observed_at = "2026-08-14T00:00:00Z".to_owned();
    disproof.digest = proof_digest(&disproof.root, &disproof.nodes);
    let error = error_of(verify(&program, &result));
    assert!(error.contains("temporal certificate does not match"));
}

#[test]
fn explicit_negation_disproves_without_closed_world_assumptions() {
    let program = disproved_release_program();
    let result = check(&program).unwrap();
    assert_eq!(result.status, Status::Disproved);
    assert!(result.proof.is_none());
    assert!(result.disproof.is_some());
    assert!(result.conflict.is_none());
    let verification = verify(&program, &result).unwrap();
    assert_eq!(verification.result_status, Status::Disproved);
}

#[test]
fn preserves_both_sides_as_an_inconsistent_conflict_witness() {
    let program = inconsistent_release_program();
    let result = check(&program).unwrap();
    assert_eq!(result.status, Status::Inconsistent);
    assert!(result.proof.is_some());
    assert!(result.disproof.is_some());
    let conflict = result.conflict.as_ref().unwrap();
    assert!(atom_eq(&conflict.query, &program.query));
    assert!(atom_eq(&conflict.complement, &complement(&program.query)));
    assert_eq!(conflict.proof_digests.len(), 2);
    assert!(conflict.fact_ids.contains(&"fact_release_blocked_140".to_owned()));
    let verification = verify(&program, &result).unwrap();
    assert_eq!(verification.result_status, Status::Inconsistent);
    assert_eq!(verification.proof_digests.len(), 2);
}

#[test]
fn verifier_rejects_a_tampered_conflict_witness() {
    let program = inconsistent_release_program();
    let mut result = check(&program).unwrap();
    result.conflict.as_mut().unwrap().fact_ids.pop();
    let error = error_of(verify(&program, &result));
    assert!(error.contains("conflict: witness does not match"));
}

#[test]
fn verifier_rejects_a_status_that_hides_opposing_support() {
    let program = inconsistent_release_program();
    let mut result = check(&program).unwrap();
    result.status = Status::Proved;
    let error = error_of(verify(&program, &result));
    assert!(error.contains("status: does not match"));
}

#[test]
fn contradiction_does_not_entail_an_unrelated_query() {
    let mut program = inconsistent_release_program();
    program
        .ontology
        .predicates
        .insert("deployment_allowed".to_owned(), Predicate { arguments: vec![ScalarType::String] });
    program.query = Atom { predicate: "deployment_allowed".to_owned(), arguments: vec![text("production")], negated: false };
    let result = check(&program).unwrap();
    assert_eq!(result.status, Status::Unknown);
}

#[test]
fn withholds_an_agent_proposed_approval() {
    let result = check(&untrusted_release_program()).unwrap();
    assert_eq!(result.status, Status::Unknown);
    assert_eq!(result.authority.withheld.len(), 1);
    assert_eq!(result.authority.withheld[0].fact_id, "fact_approval_140");
    assert_eq!(result.authority.withheld[0].authority, "agent-proposed");
    assert_eq!(result.authority.withheld[0].admitted_authorities, vec!["human-authorized"]);
    assert!(result.missing.iter().any(|atom| atom.predicate == "approved"));
}

#[test]
fn rejects_an_undeclared_authority_class() {
    let mut program = release_program();
    program.facts[0].authority = "mystery-source".to_owned();
    let error = error_of(validate(&program));
    assert!(error.contains("undeclared authority"));
}

#[test]
fn rejects_duplicate_atoms_instead_of_picking_authority_by_fact_order() {
    let mut program = release_program();
    let mut duplicate = program.facts[0].clone();
    duplicate.id = "fact_tests_duplicate".to_owned();
    duplicate.authority = "human-authorized".to_owned();
    program.facts.push(duplicate);
    let error = error_of(validate(&program));
    assert!(error.contains("duplicates the atom"));
}

#[test]
fn independently_verifies_a_generated_proof() {
    let program = release_program();
    let result = check(&program).unwrap();
    let verification = verify(&program, &result).unwrap();
    assert_eq!(verification.nodes_verified, 4);
}

#[test]
fn rejects_tampered_fact_authority_even_with_a_recomputed_digest() {
    let program = release_program();
    let mut result = check(&program).unwrap();
    let proof = result.proof.as_mut().unwrap();
    let fact = proof.nodes.iter_mut().find(|node| node.kind == ProofNodeKind::Fact).unwrap();
    fact.authority = Some("agent-proposed".to_owned());
    proof.digest = proof_digest(&proof.root, &proof.nodes);
    let error = error_of(verify(&program, &result));
    assert!(error.contains("authority does not match"));
}

#[test]
fn verifier_rejects_a_fact_withheld_by_a_changed_policy() {
    let program = release_program();
    let mut result = check(&program).unwrap();
    let mut changed = release_program();
    changed.authority.predicate_admit.insert("approved".to_owned(), set(&["agent-proposed"]));
    result.program_digest = digest_json(&program_to_json(&changed));
    result.authority = build_authority_report(&changed);
    let error = error_of(verify(&changed, &result));
    assert!(error.contains("withheld by the authority policy"));
}

#[test]
fn rejects_a_proof_digest_mismatch() {
    let program = release_program();
    let mut result = check(&program).unwrap();
    result.proof.as_mut().unwrap().digest = "sha256:tampered".to_owned();
    let error = error_of(verify(&program, &result));
    assert!(error.contains("digest: mismatch"));
}

#[test]
fn rejects_a_different_program_even_when_the_used_atoms_still_match() {
    let program = release_program();
    let result = check(&program).unwrap();
    let mut changed = release_program();
    changed.rules[0].id = "renamed_rule".to_owned();
    let error = error_of(verify(&changed, &result));
    assert!(error.contains("program_digest: mismatch"));
}

#[test]
fn verifier_rejects_a_derivation_cycle() {
    let program = release_program();
    let mut result = check(&program).unwrap();
    let proof = result.proof.as_mut().unwrap();
    let root = proof.root.clone();
    let node = proof.nodes.iter_mut().find(|node| node.id == root).unwrap();
    node.premises[0] = root.clone();
    proof.digest = proof_digest(&proof.root, &proof.nodes);
    let error = error_of(verify(&program, &result));
    assert!(error.contains("derivation cycle detected"));
}

#[test]
fn verifier_rejects_a_node_unreachable_from_the_root() {
    let program = release_program();
    let mut result = check(&program).unwrap();
    let proof = result.proof.as_mut().unwrap();
    let fact = proof.nodes.iter().find(|node| node.kind == ProofNodeKind::Fact).unwrap();
    let extra = ProofNode {
        id: "node_zzzz".to_owned(),
        kind: ProofNodeKind::Fact,
        atom: fact.atom.duplicate(),
        source_id: fact.source_id.clone(),
        authority: fact.authority.clone(),
        temporal: None,
        premises: Vec::new(),
    };
    proof.nodes.push(extra);
    proof.digest = proof_digest(&proof.root, &proof.nodes);
    let error = error_of(verify(&program, &result));
    assert!(error.contains("unreachable from the proof root"));
}

#[test]
fn a_query_derived_through_two_rules_is_proved_and_verified() {
    let vetted_rule = Rule {
        id: "commit_vetted".to_owned(),
        when: vec![atom("tests_passed", &["$commit"], false), atom("security_reviewed", &["$commit"], false)],
        head: atom("vetted", &["$commit"], false),
    };
    let ready_from_vetted = Rule {
        id: "release_ready_from_vetted".to_owned(),
        when: vec![atom("vetted", &["$commit"], false), atom("approved", &["$version", "release-manager"], false)],
        head: atom("release_ready", &["$version", "$commit"], false),
    };
    let mut program = program(
        PROGRAM_SCHEMA,
        vec![tests_fact(), review_fact(), approval_fact()],
        vec![vetted_rule, ready_from_vetted],
        query(),
    );
    program.ontology.predicates = predicates(&[("vetted", 1)]);
    let result = check(&program).unwrap();
    assert_eq!(result.status, Status::Proved);
    assert!(result.missing.is_empty());
    assert_eq!(result.metrics.facts_derived, 2);
    assert_eq!(result.proof.as_ref().unwrap().nodes.len(), 5);
    let verification = verify(&program, &result).unwrap();
    assert_eq!(verification.nodes_verified, 5);
}

#[test]
fn a_query_no_rule_reaches_stays_unknown_without_a_disproof() {
    let mut program = release_program();
    program.query = atom("release_ready", &["1.4.0", "commit_other"], false);
    let result = check(&program).unwrap();
    assert_eq!(result.status, Status::Unknown);
    assert!(result.proof.is_none());
    assert!(result.disproof.is_none());
    assert!(result.missing.iter().any(|atom| atom.predicate == "tests_passed"));
}

#[test]
fn v1_rejects_temporal_fields_instead_of_ignoring_them() {
    let mut program = release_program();
    program.evaluation_time = Some("2026-08-14T12:00:00Z".to_owned());
    let message = error_of(validate(&program));
    assert!(message.contains("$.evaluation_time: temporal fields require schema zerker.reason.program.v2"));
}

#[test]
fn v1_names_each_fact_that_carries_temporal_fields() {
    let mut program = release_program();
    program.facts[1].observed_at = Some("2026-08-14T12:00:00Z".to_owned());
    let message = error_of(validate(&program));
    assert!(message.contains("$.facts[1]: temporal fields require schema zerker.reason.program.v2"));
    assert!(!message.contains("$.facts[0]: temporal fields"));
}

fn string_args(values: &[JsonValue]) -> Vec<String> {
    values
        .iter()
        .map(|v| match v {
            JsonValue::String(s) => s.clone(),
            _ => String::new(),
        })
        .collect()
}

#[test]
fn unknown_lists_every_absent_premise_of_the_query_rule() {
    let program = program(PROGRAM_SCHEMA, vec![review_fact()], vec![ready_rule()], query());
    let result = check(&program).unwrap();
    assert_eq!(result.status, Status::Unknown);
    assert_eq!(result.missing.len(), 2);
    assert!(result
        .missing
        .iter()
        .any(|a| a.predicate == "tests_passed" && string_args(&a.arguments) == vec!["commit_abc".to_owned()]));
    assert!(result.missing.iter().any(|a| a.predicate == "approved"
        && string_args(&a.arguments) == vec!["1.4.0".to_owned(), "release-manager".to_owned()]));
    assert!(!result.missing.iter().any(|a| a.predicate == "security_reviewed"));
}
