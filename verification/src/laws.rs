use vstd::prelude::*;

use crate::certificate::{node_id_spec, Proof, ProofNodeKind};
use crate::checker::{node_at, node_checked, premise_node_atoms, proof_verified, result_accepted};
use crate::model::{atom_key, AtomV, Program};
use crate::program::{is_v2, program_valid};
use crate::reasoning::{check_result_ok, fact_justifies, node_ids, node_justified, id_set, proof_sound, Status};
use crate::report::admits;
use crate::temporal::eligible;
use crate::action::{
    admitted_for, authorization_ok, effective_ok, lemma_reserved_distinct, lemma_system_fact_shape, reserved_entry, system_facts,
    ActionRequest, AuthorizationResult, AuthorizationStatus,
};
use crate::certificate::ProofNode;
use crate::clone::{fact_view, facts_view, rule_view, rules_view};
use crate::engine::{atom_views, instantiate_spec, match_chain};
use crate::json::JsonV;
use crate::reasoning::{fact_supports, rule_justifies, rule_yields};
use crate::release::{
    approval_supports, artifact_supports, atom_spec, evidence_facts, in_force, lemma_evidence_at, lemma_evidence_predicates_free,
    release_admission, release_request_ok, release_rules, release_supported, review_supports, test_supports,
    authorize_rule_view, lemma_release_names_distinct, str_args, ReleaseAuthorizationInput, HUMAN_AUTHORIZED, TOOL_REPORTED,
};

verus! {

/// A proof the verifier accepts is sound: every node of it is justified by
/// an admitted fact or by a rule of the program applied to other nodes, and
/// its root concludes the expected atom.
pub proof fn law_accepted_proof_is_sound(p: &Program, proof: &Proof, expected: AtomV)
    requires
        proof_verified(p, proof, expected),
    ensures
        proof_sound(p, proof, expected),
{
    let nodes = proof.nodes@;
    let ids = node_ids(nodes);
    let k = ids.index_of(proof.root@);
    assert(nodes[k].id@ == proof.root@) by {
        assert(ids[k] == nodes[k].id@);
    }
    assert forall|j: int| 0 <= j < nodes.len() implies node_justified(p, id_set(nodes), #[trigger] nodes[j]) by {
        let n = nodes[j];
        assert(node_checked(p, nodes, n));
        if n.kind == ProofNodeKind::Derivation {
            let a = premise_node_atoms(nodes, n.premises@);
            assert forall|m: int| 0 <= m < n.premises@.len() implies id_set(nodes).contains(#[trigger] n.premises@[m]@) by {
                assert(ids.contains(n.premises@[m]@));
            }
            assert forall|m: int| 0 <= m < a.len() implies node_id_spec(#[trigger] a[m]) == n.premises@[m]@ by {
                let x = n.premises@[m]@;
                assert(ids.contains(x));
                let i = ids.index_of(x);
                assert(ids[i] == nodes[i].id@);
                assert(node_checked(p, nodes, nodes[i]));
            }
            assert(crate::reasoning::rule_justifies(p, n.source_id->0@, a, n.atom@));
        }
    }
}

/// Proof node ids tell atoms apart: distinct atoms have distinct SHA-256 node ids.
pub open spec fn node_ids_identify_atoms() -> bool {
    forall|a: AtomV, b: AtomV| #[trigger] node_id_spec(a) == #[trigger] node_id_spec(b) ==> a == b
}

/// Where node ids tell atoms apart, a sound proof meets every condition
/// `verify` guarantees of a proof it accepts (`proof_verified`).
pub proof fn law_sound_proof_is_accepted(p: &Program, proof: &Proof, expected: AtomV)
    requires
        proof_sound(p, proof, expected),
        node_ids_identify_atoms(),
    ensures
        proof_verified(p, proof, expected),
{
    let nodes = proof.nodes@;
    let ids = node_ids(nodes);
    let k = choose|k: int| 0 <= k < nodes.len() && #[trigger] nodes[k].id@ == proof.root@ && atom_key(nodes[k].atom@) == atom_key(expected);
    assert(ids[k] == proof.root@);
    crate::collections::lemma_sorted_index_of(ids, k);
    assert(node_justified(p, id_set(nodes), nodes[k]));
    assert(node_id_spec(nodes[k].atom@) == node_id_spec(expected));
    assert forall|j: int| 0 <= j < nodes.len() implies node_checked(p, nodes, #[trigger] nodes[j]) by {
        let n = nodes[j];
        assert(node_justified(p, id_set(nodes), n));
        if n.kind == ProofNodeKind::Derivation {
            let a = choose|a: Seq<AtomV>|
                a.len() == n.premises@.len() && (forall|m: int| 0 <= m < a.len() ==> node_id_spec(#[trigger] a[m]) == n.premises@[m]@)
                    && #[trigger] crate::reasoning::rule_justifies(p, n.source_id->0@, a, n.atom@);
            assert forall|m: int| 0 <= m < n.premises@.len() implies ids.contains(#[trigger] n.premises@[m]@) by {
                assert(id_set(nodes).contains(n.premises@[m]@));
            }
            assert(a =~= premise_node_atoms(nodes, n.premises@)) by {
                assert forall|m: int| 0 <= m < a.len() implies #[trigger] a[m] == premise_node_atoms(nodes, n.premises@)[m] by {
                    let x = n.premises@[m]@;
                    assert(id_set(nodes).contains(x));
                    let i = ids.index_of(x);
                    assert(ids[i] == nodes[i].id@);
                    assert(node_justified(p, id_set(nodes), nodes[i]));
                    assert(node_id_spec(a[m]) == node_id_spec(nodes[i].atom@));
                }
            }
        }
    }
}

/// Where node ids tell atoms apart, a result of `check` that is not unknown
/// meets every condition `verify` guarantees of a result it accepts
/// (`result_accepted`).
pub proof fn law_checked_result_is_accepted(p: &Program, r: &crate::reasoning::CheckResult)
    requires
        program_valid(p),
        check_result_ok(p, r),
        r.status != Status::Unknown,
        node_ids_identify_atoms(),
    ensures
        result_accepted(p, r),
{
    if r.proof is Some {
        law_sound_proof_is_accepted(p, &r.proof->0, p.query@);
    }
    if r.disproof is Some {
        law_sound_proof_is_accepted(p, &r.disproof->0, crate::engine::complement_spec(p.query@));
    }
}

/// Only admitted evidence enters a sound proof: every fact node names a fact
/// whose authority the policy admits for its predicate and which, in program
/// v2, is in force at the evaluation time.
pub proof fn law_proof_uses_admitted_facts(p: &Program, proof: &Proof, expected: AtomV, j: int)
    requires
        proof_sound(p, proof, expected),
        0 <= j < proof.nodes@.len(),
        proof.nodes@[j].kind == ProofNodeKind::Fact,
    ensures
        exists|i: int|
            0 <= i < p.facts@.len() && #[trigger] p.facts@[i].id@ == proof.nodes@[j].source_id->0@ && admits(
                &p.authority,
                p.facts@[i],
            ) && (is_v2(p) ==> eligible(p, p.evaluation_time->0@, p.facts@[i])) && p.facts@[i].atom@ == proof.nodes@[j].atom@,
{
    assert(node_justified(p, id_set(proof.nodes@), proof.nodes@[j]));
}


/// Where node ids tell atoms apart, what `authorize` returns for a request
/// meets every condition `verify_authorization` guarantees of an
/// authorization it accepts for that request (`authorization_accepted`).
pub proof fn law_authorization_is_verifiable(r: &crate::action::ActionRequest, a: &crate::action::AuthorizationResult)
    requires
        crate::action::request_shape_ok(r),
        crate::action::authorization_ok(r, a),
        node_ids_identify_atoms(),
    ensures
        crate::action::authorization_accepted(r, a),
{
    let p = choose|p: Program|
        #[trigger] crate::action::effective_ok(r, &p) && crate::program::program_valid(&p) && check_result_ok(&p, &a.reasoning);
    if a.reasoning.status != Status::Unknown {
        law_checked_result_is_accepted(&p, &a.reasoning);
    }
    assert(crate::action::effective_ok(r, &p) && crate::program::program_valid(&p) && check_result_ok(&p, &a.reasoning));
}

/// An authorization binds one request: two requests that both verify
/// against the same authorization have the same request digest, so a
/// certificate never authorizes a changed call.
pub proof fn law_authorization_binds_one_request(
    r1: &crate::action::ActionRequest,
    r2: &crate::action::ActionRequest,
    a: &crate::action::AuthorizationResult,
)
    requires
        crate::action::authorization_accepted(r1, a),
        crate::action::authorization_accepted(r2, a),
    ensures
        crate::model::json_digest(crate::action::request_json(r1)) == crate::model::json_digest(crate::action::request_json(r2)),
        crate::model::json_digest(crate::action::action_json(&r1.action)) == crate::model::json_digest(
            crate::action::action_json(&r2.action),
        ),
{
}


/// A node of a sound release proof whose atom has an evidence predicate
/// stands on release evidence: a piece of evidence whose fact has that atom,
/// whose authority the release policy admits for the predicate, and which is
/// in force at the evaluation time.
proof fn lemma_evidence_node(
    input: &ReleaseAuthorizationInput,
    r: &ActionRequest,
    p: &Program,
    nodes: Seq<ProofNode>,
    x: AtomV,
) -> (fi: int)
    requires
        release_request_ok(input, r),
        effective_ok(r, p),
        node_ids_identify_atoms(),
        forall|k: int| 0 <= k < nodes.len() ==> node_justified(p, id_set(nodes), #[trigger] nodes[k]),
        id_set(nodes).contains(node_id_spec(x)),
        x.predicate == "tests_passed"@ || x.predicate == "security_reviewed"@ || x.predicate == "artifact_built"@
            || x.predicate == "release_approved"@,
    ensures
        0 <= fi < evidence_facts(&input.evidence).len(),
        evidence_facts(&input.evidence)[fi].1 == x,
        release_admission(x.predicate) == Some(seq![evidence_facts(&input.evidence)[fi].2]),
        evidence_facts(&input.evidence)[fi].3 is Some,
        in_force(evidence_facts(&input.evidence)[fi].3->0, evidence_facts(&input.evidence)[fi].5, input.evaluation_time@),
{
    let ev = evidence_facts(&input.evidence);
    let ids = node_ids(nodes);
    let id = node_id_spec(x);
    assert(ids.contains(id));
    let k = ids.index_of(id);
    assert(ids[k] == nodes[k].id@);
    let n = nodes[k];
    assert(node_justified(p, id_set(nodes), n));
    assert(n.atom@ == x);
    lemma_evidence_predicates_free();
    assert(reserved_entry(0).0 == "action_authorized"@);
    if n.kind == ProofNodeKind::Derivation {
        let a = choose|a: Seq<AtomV>|
            a.len() == n.premises@.len() && (forall|m: int| 0 <= m < a.len() ==> node_id_spec(#[trigger] a[m]) == n.premises@[m]@)
                && #[trigger] rule_justifies(p, n.source_id->0@, a, n.atom@);
        let j = choose|j: int| 0 <= j < p.rules@.len() && #[trigger] p.rules@[j].id@ == n.source_id->0@ && rule_yields(p.rules@[j], a, x);
        assert(rules_view(p.rules@).len() == p.rules@.len());
        assert(release_rules(input).len() == 4);
        assert(rules_view(p.rules@)[j] == release_rules(input)[j]);
        assert(rule_view(p.rules@[j]).2 == p.rules@[j].head@);
        let b = match_chain(atom_views(p.rules@[j].when@), a, Map::empty())->0;
        assert(instantiate_spec(p.rules@[j].head@, b) == x);
        assert(release_rules(input)[j].2.predicate == "action_authorized"@) by {
            if j == 0 {} else if j == 1 {} else if j == 2 {} else {}
        }
        assert(false);
    }
    let fi = choose|i: int|
        0 <= i < p.facts@.len() && #[trigger] p.facts@[i].id@ == n.source_id->0@ && fact_supports(p, p.facts@[i], x, n.authority->0@, n.temporal);
    let f = p.facts@[fi];
    assert(facts_view(p.facts@)[fi] == fact_view(f));
    assert(facts_view(p.facts@) == ev + system_facts(r));
    assert(facts_view(p.facts@).len() == p.facts@.len());
    if fi >= ev.len() {
        lemma_system_fact_shape(r, fi - ev.len());
        assert(fact_view(f) == system_facts(r)[fi - ev.len()]);
        let j = choose|j: int| 1 <= j < 9 && #[trigger] reserved_entry(j).0 == system_facts(r)[fi - ev.len()].1.predicate;
        assert(reserved_entry(j).0 == x.predicate);
        assert(false);
    }
    assert(fact_view(f) == ev[fi]);
    lemma_evidence_at(&input.evidence, fi);
    assert(!crate::action::is_reserved(x.predicate));
    assert(admitted_for(&p.authority.predicate_admit, x.predicate) == release_admission(x.predicate));
    let s = p.authority.predicate_admit.spec_get(x.predicate)->0;
    assert(crate::report::admitted_set(&p.authority, x.predicate) == s);
    assert(s.view_seq() == release_admission(x.predicate)->0);
    assert(s.has(f.authority@));
    assert(is_v2(p));
    assert(p.evaluation_time->0@ == input.evaluation_time@);
    assert(eligible(p, input.evaluation_time@, f));
    assert(crate::temporal::time_reason(f, input.evaluation_time@) is None);
    assert(crate::temporal::observed(f) == ev[fi].3->0);
    fi
}


proof fn lemma_tests_support(input: &ReleaseAuthorizationInput, r: &ActionRequest, p: &Program, nodes: Seq<ProofNode>)
    requires
        release_request_ok(input, r),
        effective_ok(r, p),
        node_ids_identify_atoms(),
        forall|k: int| 0 <= k < nodes.len() ==> node_justified(p, id_set(nodes), #[trigger] nodes[k]),
        id_set(nodes).contains(node_id_spec(atom_spec("tests_passed"@, seq![JsonV::Str(input.release.commit@)], false))),
    ensures
        exists|i: int| 0 <= i < input.evidence.tests@.len() && test_supports(input, #[trigger] input.evidence.tests@[i]),
{
    let t = input.release;
    let x = atom_spec("tests_passed"@, seq![JsonV::Str(input.release.commit@)], false);
    let fi = lemma_evidence_node(input, r, p, nodes, x);
    let e = input.evidence;
    let ev = evidence_facts(&e);
    lemma_evidence_at(&e, fi);
    lemma_release_names_distinct();
    let nt = e.tests@.len();
    let ns = e.security_reviews@.len();
    let na = e.artifacts@.len();
    assert(fi < nt);
    let i = fi;
    let y = e.tests@[i];
    assert(ev[fi].1.arguments[0] == x.arguments[0]);
    assert(y.authority@ == TOOL_REPORTED@) by {
        assert(seq![ev[fi].2][0] == seq![TOOL_REPORTED@][0]);
    }
    assert(test_supports(input, y));
}

proof fn lemma_review_support(input: &ReleaseAuthorizationInput, r: &ActionRequest, p: &Program, nodes: Seq<ProofNode>)
    requires
        release_request_ok(input, r),
        effective_ok(r, p),
        node_ids_identify_atoms(),
        forall|k: int| 0 <= k < nodes.len() ==> node_justified(p, id_set(nodes), #[trigger] nodes[k]),
        id_set(nodes).contains(node_id_spec(atom_spec("security_reviewed"@, seq![JsonV::Str(input.release.commit@)], false))),
    ensures
        exists|i: int| 0 <= i < input.evidence.security_reviews@.len() && review_supports(input, #[trigger] input.evidence.security_reviews@[i]),
{
    let t = input.release;
    let x = atom_spec("security_reviewed"@, seq![JsonV::Str(input.release.commit@)], false);
    let fi = lemma_evidence_node(input, r, p, nodes, x);
    let e = input.evidence;
    let ev = evidence_facts(&e);
    lemma_evidence_at(&e, fi);
    lemma_release_names_distinct();
    let nt = e.tests@.len();
    let ns = e.security_reviews@.len();
    let na = e.artifacts@.len();
    assert(nt <= fi < nt + ns);
    let i = fi - nt;
    let y = e.security_reviews@[i];
    assert(ev[fi].1.arguments[0] == x.arguments[0]);
    assert(y.authority@ == HUMAN_AUTHORIZED@) by {
        assert(seq![ev[fi].2][0] == seq![HUMAN_AUTHORIZED@][0]);
    }
    assert(review_supports(input, y));
}

proof fn lemma_artifact_support(input: &ReleaseAuthorizationInput, r: &ActionRequest, p: &Program, nodes: Seq<ProofNode>)
    requires
        release_request_ok(input, r),
        effective_ok(r, p),
        node_ids_identify_atoms(),
        forall|k: int| 0 <= k < nodes.len() ==> node_justified(p, id_set(nodes), #[trigger] nodes[k]),
        id_set(nodes).contains(node_id_spec(atom_spec("artifact_built"@, seq![JsonV::Str(input.release.commit@), JsonV::Str(input.release.artifact_digest@)], false))),
    ensures
        exists|i: int| 0 <= i < input.evidence.artifacts@.len() && artifact_supports(input, #[trigger] input.evidence.artifacts@[i]),
{
    let t = input.release;
    let x = atom_spec("artifact_built"@, seq![JsonV::Str(input.release.commit@), JsonV::Str(input.release.artifact_digest@)], false);
    let fi = lemma_evidence_node(input, r, p, nodes, x);
    let e = input.evidence;
    let ev = evidence_facts(&e);
    lemma_evidence_at(&e, fi);
    lemma_release_names_distinct();
    let nt = e.tests@.len();
    let ns = e.security_reviews@.len();
    let na = e.artifacts@.len();
    assert(nt + ns <= fi < nt + ns + na);
    let i = fi - nt - ns;
    let y = e.artifacts@[i];
    assert(ev[fi].1.arguments[0] == x.arguments[0]);
    assert(ev[fi].1.arguments[1] == x.arguments[1]);
    assert(y.authority@ == TOOL_REPORTED@) by {
        assert(seq![ev[fi].2][0] == seq![TOOL_REPORTED@][0]);
    }
    assert(artifact_supports(input, y));
}

proof fn lemma_approval_support(input: &ReleaseAuthorizationInput, r: &ActionRequest, p: &Program, nodes: Seq<ProofNode>)
    requires
        release_request_ok(input, r),
        effective_ok(r, p),
        node_ids_identify_atoms(),
        forall|k: int| 0 <= k < nodes.len() ==> node_justified(p, id_set(nodes), #[trigger] nodes[k]),
        id_set(nodes).contains(node_id_spec(atom_spec("release_approved"@, str_args(seq![input.release.version@, input.release.commit@, input.release.environment@, input.release.artifact_digest@, input.release.tool@, input.release.required_approver@]), false))),
    ensures
        exists|i: int| 0 <= i < input.evidence.approvals@.len() && approval_supports(input, #[trigger] input.evidence.approvals@[i]),
{
    let t = input.release;
    let x = atom_spec("release_approved"@, str_args(seq![input.release.version@, input.release.commit@, input.release.environment@, input.release.artifact_digest@, input.release.tool@, input.release.required_approver@]), false);
    let fi = lemma_evidence_node(input, r, p, nodes, x);
    let e = input.evidence;
    let ev = evidence_facts(&e);
    lemma_evidence_at(&e, fi);
    lemma_release_names_distinct();
    let nt = e.tests@.len();
    let ns = e.security_reviews@.len();
    let na = e.artifacts@.len();
    assert(nt + ns + na <= fi);
    let i = fi - nt - ns - na;
    let y = e.approvals@[i];
    assert(ev[fi].1.arguments[0] == x.arguments[0]);
    assert(ev[fi].1.arguments[1] == x.arguments[1]);
    assert(ev[fi].1.arguments[2] == x.arguments[2]);
    assert(ev[fi].1.arguments[3] == x.arguments[3]);
    assert(ev[fi].1.arguments[4] == x.arguments[4]);
    assert(ev[fi].1.arguments[5] == x.arguments[5]);
    assert(y.authority@ == HUMAN_AUTHORIZED@) by {
        assert(seq![ev[fi].2][0] == seq![HUMAN_AUTHORIZED@][0]);
    }
    assert(approval_supports(input, y));
}


/// A node of a sound release proof whose atom has a reserved predicate
/// other than `action_authorized` is a binding fact of the request.
proof fn lemma_binding_node(
    input: &ReleaseAuthorizationInput,
    r: &ActionRequest,
    p: &Program,
    nodes: Seq<ProofNode>,
    x: AtomV,
    j: int,
) -> (si: int)
    requires
        release_request_ok(input, r),
        effective_ok(r, p),
        node_ids_identify_atoms(),
        forall|k: int| 0 <= k < nodes.len() ==> node_justified(p, id_set(nodes), #[trigger] nodes[k]),
        id_set(nodes).contains(node_id_spec(x)),
        1 <= j < 9,
        reserved_entry(j).0 == x.predicate,
    ensures
        0 <= si < system_facts(r).len(),
        system_facts(r)[si].1 == x,
{
    let ev = evidence_facts(&input.evidence);
    let ids = node_ids(nodes);
    let id = node_id_spec(x);
    assert(ids.contains(id));
    let k = ids.index_of(id);
    assert(ids[k] == nodes[k].id@);
    let n = nodes[k];
    assert(node_justified(p, id_set(nodes), n));
    assert(n.atom@ == x);
    lemma_evidence_predicates_free();
    if n.kind == ProofNodeKind::Derivation {
        let a = choose|a: Seq<AtomV>|
            a.len() == n.premises@.len() && (forall|m: int| 0 <= m < a.len() ==> node_id_spec(#[trigger] a[m]) == n.premises@[m]@)
                && #[trigger] rule_justifies(p, n.source_id->0@, a, n.atom@);
        let i = choose|i: int| 0 <= i < p.rules@.len() && #[trigger] p.rules@[i].id@ == n.source_id->0@ && rule_yields(p.rules@[i], a, x);
        assert(rules_view(p.rules@).len() == p.rules@.len());
        assert(release_rules(input).len() == 4);
        assert(rules_view(p.rules@)[i] == release_rules(input)[i]);
        assert(rule_view(p.rules@[i]).2 == p.rules@[i].head@);
        let b = match_chain(atom_views(p.rules@[i].when@), a, Map::empty())->0;
        assert(instantiate_spec(p.rules@[i].head@, b) == x);
        assert(release_rules(input)[i].2.predicate == reserved_entry(0).0) by {
            if i == 0 {} else if i == 1 {} else if i == 2 {} else {}
        }
        lemma_reserved_distinct(j, 0);
    }
    let fi = choose|i: int|
        0 <= i < p.facts@.len() && #[trigger] p.facts@[i].id@ == n.source_id->0@ && fact_supports(p, p.facts@[i], x, n.authority->0@, n.temporal);
    let f = p.facts@[fi];
    assert(facts_view(p.facts@)[fi] == fact_view(f));
    assert(facts_view(p.facts@) == ev + system_facts(r));
    assert(facts_view(p.facts@).len() == p.facts@.len());
    if fi < ev.len() {
        lemma_evidence_at(&input.evidence, fi);
        assert(ev[fi] == fact_view(f));
    }
    fi - ev.len()
}

/// A binding fact of a request compiled from a release input that names a
/// mission constraint binds one of the release's constraints to its value.
proof fn lemma_constraint_binding(input: &ReleaseAuthorizationInput, r: &ActionRequest, si: int)
    requires
        release_request_ok(input, r),
        0 <= si < system_facts(r).len(),
        system_facts(r)[si].1.predicate == reserved_entry(5).0,
    ensures
        system_facts(r)[si].1.arguments.len() == 3,
        exists|j: int|
            0 <= j < 4 && system_facts(r)[si].1.arguments[1] == JsonV::Str(
                #[trigger] crate::release::release_bindings_json(&input.release)->Object_0[j],
            ) && system_facts(r)[si].1.arguments[2] == crate::release::release_bindings_json(&input.release)->Object_1[j],
{
    crate::action::lemma_system_facts(r);
    let f = crate::action::fixed_facts(r);
    let c = crate::action::constraint_facts(r);
    let t = crate::action::tool_facts(r);
    let g = crate::action::argument_facts(r);
    let e = crate::action::effect_facts(r);
    let x = system_facts(r)[si];
    if si < f.len() {
        assert(x == f[si]);
        let j = if si == 0 { 1int } else if si == 1 { 2int } else if si == 2 { 3int } else { 4int };
        assert(reserved_entry(j).0 == x.1.predicate);
        lemma_reserved_distinct(j, 5);
    } else if si < f.len() + c.len() {
        let i = si - f.len();
        assert(x == c[i]);
        let cs = r.mission.constraints;
        let entry = cs.entries()[i];
        let keys = crate::release::release_bindings_json(&input.release)->Object_0;
        let vals = crate::release::release_bindings_json(&input.release)->Object_1;
        assert(crate::action::map_json(&cs) == crate::release::release_bindings_json(&input.release));
        assert(cs.keys() == keys);
        assert(cs.entries().map_values(|e: (String, crate::json::JsonValue)| e.1@) == vals);
        assert(cs.keys()[i] == entry.0@);
        assert(cs.entries().map_values(|e: (String, crate::json::JsonValue)| e.1@)[i] == entry.1@);
        assert(x.1.arguments[1] == JsonV::Str(keys[i]));
        assert(c.len() == cs.entries().len());
        assert(cs.keys().len() == cs.entries().len());
        assert(keys.len() == 4);
        assert(0 <= i < 4);
        assert(vals[i] is Str) by {
            if i == 0 {} else if i == 1 {} else if i == 2 {} else {}
        }
        assert(x.1.arguments[2] == JsonV::Str(crate::action::canonical_value_spec(entry.1@)));
        assert(x.1.arguments[2] == vals[i]);
        assert(system_facts(r)[si].1.arguments[1] == JsonV::Str(keys[i]));
    } else if si < f.len() + c.len() + t.len() {
        assert(x == t[si - f.len() - c.len()]);
        lemma_reserved_distinct(6, 5);
    } else if si < f.len() + c.len() + t.len() + g.len() {
        assert(x == g[si - f.len() - c.len() - t.len()]);
        lemma_reserved_distinct(7, 5);
    } else {
        assert(x == e[si - f.len() - c.len() - t.len() - g.len()]);
        lemma_reserved_distinct(8, 5);
    }
}

/// A binding fact of a request that names the action's tool carries the tool.
proof fn lemma_tool_binding(r: &ActionRequest, si: int)
    requires
        0 <= si < system_facts(r).len(),
        system_facts(r)[si].1.predicate == reserved_entry(6).0,
    ensures
        system_facts(r)[si].1.arguments.len() == 2,
        system_facts(r)[si].1.arguments[1] == JsonV::Str(r.action.tool@),
{
    crate::action::lemma_system_facts(r);
    let f = crate::action::fixed_facts(r);
    let c = crate::action::constraint_facts(r);
    let t = crate::action::tool_facts(r);
    let g = crate::action::argument_facts(r);
    let e = crate::action::effect_facts(r);
    let x = system_facts(r)[si];
    if si < f.len() {
        assert(x == f[si]);
        let j = if si == 0 { 1int } else if si == 1 { 2int } else if si == 2 { 3int } else { 4int };
        assert(reserved_entry(j).0 == x.1.predicate);
        lemma_reserved_distinct(j, 6);
    } else if si < f.len() + c.len() {
        assert(x == c[si - f.len()]);
        lemma_reserved_distinct(5, 6);
    } else if si < f.len() + c.len() + t.len() {
        assert(x == t[si - f.len() - c.len()]);
    } else if si < f.len() + c.len() + t.len() + g.len() {
        assert(x == g[si - f.len() - c.len() - t.len()]);
        lemma_reserved_distinct(7, 6);
    } else {
        assert(x == e[si - f.len() - c.len() - t.len() - g.len()]);
        lemma_reserved_distinct(8, 6);
    }
}

/// A mission-constraint premise of a sound release proof that names one of
/// the release's constraint keys binds that key's value.
proof fn lemma_constraint_premise(
    input: &ReleaseAuthorizationInput,
    r: &ActionRequest,
    p: &Program,
    nodes: Seq<ProofNode>,
    x: AtomV,
    j: int,
)
    requires
        release_request_ok(input, r),
        effective_ok(r, p),
        node_ids_identify_atoms(),
        forall|k: int| 0 <= k < nodes.len() ==> node_justified(p, id_set(nodes), #[trigger] nodes[k]),
        id_set(nodes).contains(node_id_spec(x)),
        x.predicate == reserved_entry(5).0,
        x.arguments.len() == 3,
        0 <= j < 4,
        x.arguments[1] == JsonV::Str(crate::release::release_bindings_json(&input.release)->Object_0[j]),
    ensures
        x.arguments[2] == crate::release::release_bindings_json(&input.release)->Object_1[j],
{
    let si = lemma_binding_node(input, r, p, nodes, x, 5);
    lemma_constraint_binding(input, r, si);
    let keys = crate::release::release_bindings_json(&input.release)->Object_0;
    let i = choose|i: int| 0 <= i < 4 && system_facts(r)[si].1.arguments[1] == JsonV::Str(#[trigger] keys[i])
        && system_facts(r)[si].1.arguments[2] == crate::release::release_bindings_json(&input.release)->Object_1[i];
    reveal_strlit("artifact_digest");
    reveal_strlit("commit");
    reveal_strlit("environment");
    reveal_strlit("version");
    assert(keys[i] == keys[j]);
    assert(keys[i].len() == keys[j].len());
}

/// A tool premise of a sound release proof binds the action's tool.
proof fn lemma_tool_premise(input: &ReleaseAuthorizationInput, r: &ActionRequest, p: &Program, nodes: Seq<ProofNode>, x: AtomV)
    requires
        release_request_ok(input, r),
        effective_ok(r, p),
        node_ids_identify_atoms(),
        forall|k: int| 0 <= k < nodes.len() ==> node_justified(p, id_set(nodes), #[trigger] nodes[k]),
        id_set(nodes).contains(node_id_spec(x)),
        x.predicate == reserved_entry(6).0,
    ensures
        x.arguments.len() == 2,
        x.arguments[1] == JsonV::Str(input.release.tool@),
{
    let si = lemma_binding_node(input, r, p, nodes, x, 6);
    lemma_tool_binding(r, si);
}

/// No fact of the effective program of a release request concludes
/// `action_authorized`: evidence facts have evidence predicates, binding
/// facts other reserved ones.
proof fn lemma_no_authorizing_fact(input: &ReleaseAuthorizationInput, r: &ActionRequest, p: &Program, fi: int)
    requires
        release_request_ok(input, r),
        effective_ok(r, p),
        0 <= fi < p.facts@.len(),
    ensures
        p.facts@[fi].atom@.predicate != "action_authorized"@,
{
    let ev = evidence_facts(&input.evidence);
    lemma_evidence_predicates_free();
    assert(reserved_entry(0).0 == "action_authorized"@);
    assert(facts_view(p.facts@)[fi] == fact_view(p.facts@[fi]));
    assert(facts_view(p.facts@) == ev + system_facts(r));
    assert(facts_view(p.facts@).len() == p.facts@.len());
    if fi < ev.len() {
        lemma_evidence_at(&input.evidence, fi);
    } else {
        lemma_system_fact_shape(r, fi - ev.len());
        let j = choose|j: int| 1 <= j < 9 && #[trigger] reserved_entry(j).0 == system_facts(r)[fi - ev.len()].1.predicate;
        if reserved_entry(j).0 == reserved_entry(0).0 {
            lemma_reserved_distinct(j, 0);
        }
    }
}

/// Two arguments a pattern argument stands for under the same bindings are equal.
proof fn lemma_fixed_same(x: JsonV, v1: JsonV, v2: JsonV, b: Map<Seq<char>, JsonV>)
    requires
        crate::engine::arg_fixed(x, v1, b),
        crate::engine::arg_fixed(x, v2, b),
    ensures
        v1 == v2,
{
}

/// A rule of a release request's effective program that derives
/// `action_authorized` of the action is the authorizing rule: its body
/// matches the premises.
proof fn lemma_authorizing_rule(input: &ReleaseAuthorizationInput, r: &ActionRequest, p: &Program, rule_id: Seq<char>, prem: Seq<AtomV>)
    requires
        release_request_ok(input, r),
        effective_ok(r, p),
        rule_justifies(p, rule_id, prem, crate::action::authorization_query_spec(r.action.id@)),
    ensures
        prem.len() == 17,
        match_chain(authorize_rule_view(input).1, prem, Map::empty()) is Some,
{
    let q = crate::action::authorization_query_spec(r.action.id@);
    let j = choose|j: int| 0 <= j < p.rules@.len() && #[trigger] p.rules@[j].id@ == rule_id && rule_yields(p.rules@[j], prem, q);
    assert(rules_view(p.rules@).len() == p.rules@.len());
    assert(release_rules(input).len() == 4);
    assert(rules_view(p.rules@)[j] == release_rules(input)[j]);
    assert(rule_view(p.rules@[j]) == release_rules(input)[j]);
    let b0 = match_chain(atom_views(p.rules@[j].when@), prem, Map::empty())->0;
    assert(instantiate_spec(p.rules@[j].head@, b0) == q);
    if j != 0 {
        assert(release_rules(input)[j].2.negated) by {
            if j == 1 {
            } else if j == 2 {
            } else {
            }
        }
        assert(false);
    }
    assert(atom_views(p.rules@[0].when@) == authorize_rule_view(input).1);
}

/// The premises on which a sound release proof derives `action_authorized`
/// of the action: those of the authorizing rule, whose evidence premises
/// are exactly the release's tests, security review, artifact, and approval
/// atoms (the mission constraints and the tool call bind the release's
/// terms, whatever their spelling; the required approver is taken as
/// written).
#[verifier::rlimit(40)]
proof fn lemma_authorizing_premises(
    input: &ReleaseAuthorizationInput,
    r: &ActionRequest,
    p: &Program,
    nodes: Seq<ProofNode>,
    rule_id: Seq<char>,
    prem: Seq<AtomV>,
)
    requires
        release_request_ok(input, r),
        effective_ok(r, p),
        !crate::validate::is_variable(JsonV::Str(input.release.required_approver@)),
        node_ids_identify_atoms(),
        forall|k: int| 0 <= k < nodes.len() ==> node_justified(p, id_set(nodes), #[trigger] nodes[k]),
        forall|m: int| 0 <= m < prem.len() ==> id_set(nodes).contains(node_id_spec(#[trigger] prem[m])),
        rule_justifies(p, rule_id, prem, crate::action::authorization_query_spec(r.action.id@)),
    ensures
        prem.len() == 17,
        prem[13] == atom_spec("tests_passed"@, seq![JsonV::Str(input.release.commit@)], false),
        prem[14] == atom_spec("security_reviewed"@, seq![JsonV::Str(input.release.commit@)], false),
        prem[15] == atom_spec(
            "artifact_built"@,
            seq![JsonV::Str(input.release.commit@), JsonV::Str(input.release.artifact_digest@)],
            false,
        ),
        prem[16] == atom_spec(
            "release_approved"@,
            str_args(
                seq![
                    input.release.version@,
                    input.release.commit@,
                    input.release.environment@,
                    input.release.artifact_digest@,
                    input.release.tool@,
                    input.release.required_approver@,
                ],
            ),
            false,
        ),
{
    let t = input.release;
    lemma_authorizing_rule(input, r, p, rule_id, prem);
    let body = authorize_rule_view(input).1;
    let b = match_chain(body, prem, Map::empty())->0;
    crate::engine::lemma_match_chain_fixed(body, prem, Map::empty());
    let keys = crate::release::release_bindings_json(&t)->Object_0;
    let vals = crate::release::release_bindings_json(&t)->Object_1;
    reveal_strlit("artifact_digest");
    reveal_strlit("commit");
    reveal_strlit("environment");
    reveal_strlit("version");
    lemma_evidence_predicates_free();
    assert(reserved_entry(5).0 == "mission_constraint"@);
    assert(reserved_entry(6).0 == "action_tool"@);
    // each constraint premise binds its key's value
    assert(body[3].arguments[1] == JsonV::Str(keys[1]) && body[4].arguments[1] == JsonV::Str(keys[3])
        && body[5].arguments[1] == JsonV::Str(keys[2]) && body[6].arguments[1] == JsonV::Str(keys[0]));
    assert(prem[3].arguments[1] == body[3].arguments[1]) by {
        assert(crate::engine::arg_fixed(body[3].arguments[1], prem[3].arguments[1], b));
    }
    assert(prem[4].arguments[1] == body[4].arguments[1]) by {
        assert(crate::engine::arg_fixed(body[4].arguments[1], prem[4].arguments[1], b));
    }
    assert(prem[5].arguments[1] == body[5].arguments[1]) by {
        assert(crate::engine::arg_fixed(body[5].arguments[1], prem[5].arguments[1], b));
    }
    assert(prem[6].arguments[1] == body[6].arguments[1]) by {
        assert(crate::engine::arg_fixed(body[6].arguments[1], prem[6].arguments[1], b));
    }
    assert(body[3].predicate == reserved_entry(5).0);
    lemma_constraint_premise(input, r, p, nodes, prem[3], 1);
    lemma_constraint_premise(input, r, p, nodes, prem[4], 3);
    lemma_constraint_premise(input, r, p, nodes, prem[5], 2);
    lemma_constraint_premise(input, r, p, nodes, prem[6], 0);
    lemma_tool_premise(input, r, p, nodes, prem[7]);
    let c = JsonV::Str(t.commit@);
    let d = JsonV::Str(t.artifact_digest@);
    let x13 = atom_spec("tests_passed"@, seq![c], false);
    let x14 = atom_spec("security_reviewed"@, seq![c], false);
    let x15 = atom_spec("artifact_built"@, seq![c, d], false);
    let x16 = atom_spec(
        "release_approved"@,
        str_args(seq![t.version@, t.commit@, t.environment@, t.artifact_digest@, t.tool@, t.required_approver@]),
        false,
    );
    assert(prem[13].arguments =~= x13.arguments) by {
        lemma_fixed_same(body[3].arguments[2], prem[3].arguments[2], prem[13].arguments[0], b);
    }
    assert(prem[14].arguments =~= x14.arguments) by {
        lemma_fixed_same(body[3].arguments[2], prem[3].arguments[2], prem[14].arguments[0], b);
    }
    assert(prem[15].arguments =~= x15.arguments) by {
        lemma_fixed_same(body[3].arguments[2], prem[3].arguments[2], prem[15].arguments[0], b);
        lemma_fixed_same(body[6].arguments[2], prem[6].arguments[2], prem[15].arguments[1], b);
    }
    assert(prem[16].arguments =~= x16.arguments) by {
        lemma_fixed_same(body[4].arguments[2], prem[4].arguments[2], prem[16].arguments[0], b);
        lemma_fixed_same(body[3].arguments[2], prem[3].arguments[2], prem[16].arguments[1], b);
        lemma_fixed_same(body[5].arguments[2], prem[5].arguments[2], prem[16].arguments[2], b);
        lemma_fixed_same(body[6].arguments[2], prem[6].arguments[2], prem[16].arguments[3], b);
        lemma_fixed_same(body[7].arguments[1], prem[7].arguments[1], prem[16].arguments[4], b);
        assert(crate::engine::arg_fixed(body[16].arguments[5], prem[16].arguments[5], b));
    }
}

/// An authorized release stands on exact evidence: for the action request a
/// release input compiles to, an `authorized` decision means the input holds
/// a tool-reported passing test run and a human-authorized passed security
/// review of the release's commit, a tool-reported artifact of that commit
/// with the release's digest, and a human-authorized approval of exactly this
/// version, commit, environment, artifact, and tool by the required
/// approver, each observed by the evaluation time and not expired at it. So
/// evidence for another commit, a mismatched artifact, a stale approval, or
/// an authority the policy does not admit cannot authorize the deployment.
/// Stated where node ids tell atoms apart and the required approver does not
/// read as a rule variable (a `$` followed by a name), which would let any
/// approver's approval stand in.
pub proof fn law_authorized_release_is_supported(input: &ReleaseAuthorizationInput, r: &ActionRequest, a: &AuthorizationResult)
    requires
        release_request_ok(input, r),
        !crate::validate::is_variable(JsonV::Str(input.release.required_approver@)),
        authorization_ok(r, a),
        a.status == AuthorizationStatus::Authorized,
        node_ids_identify_atoms(),
    ensures
        release_supported(input),
{
    let p = choose|p: Program| #[trigger] effective_ok(r, &p) && program_valid(&p) && check_result_ok(&p, &a.reasoning);
    assert(effective_ok(r, &p) && program_valid(&p) && check_result_ok(&p, &a.reasoning));
    let q = p.query@;
    assert(a.reasoning.status == Status::Proved);
    let pr = a.reasoning.proof->0;
    assert(proof_sound(&p, &pr, q));
    let nodes = pr.nodes@;
    let k = choose|k: int| 0 <= k < nodes.len() && #[trigger] nodes[k].id@ == pr.root@ && atom_key(nodes[k].atom@) == atom_key(q);
    let n = nodes[k];
    assert(node_justified(&p, id_set(nodes), n));
    assert(node_id_spec(n.atom@) == node_id_spec(q));
    assert(n.atom@ == q);
    if n.kind == ProofNodeKind::Fact {
        let fi = choose|i: int|
            0 <= i < p.facts@.len() && #[trigger] p.facts@[i].id@ == n.source_id->0@ && fact_supports(&p, p.facts@[i], q, n.authority->0@, n.temporal);
        lemma_no_authorizing_fact(input, r, &p, fi);
    }
    let prem = choose|a: Seq<AtomV>|
        a.len() == n.premises@.len() && (forall|m: int| 0 <= m < a.len() ==> node_id_spec(#[trigger] a[m]) == n.premises@[m]@)
            && #[trigger] rule_justifies(&p, n.source_id->0@, a, n.atom@);
    assert forall|m: int| 0 <= m < prem.len() implies id_set(nodes).contains(node_id_spec(#[trigger] prem[m])) by {
        assert(id_set(nodes).contains(n.premises@[m]@));
    }
    lemma_authorizing_premises(input, r, &p, nodes, n.source_id->0@, prem);
    lemma_tests_support(input, r, &p, nodes);
    lemma_review_support(input, r, &p, nodes);
    lemma_artifact_support(input, r, &p, nodes);
    lemma_approval_support(input, r, &p, nodes);
}

} // verus!
