//! What checking, validation and authorization promise of every input: a
//! fact that is not yet valid never takes part in a proof, a declared integer
//! position only ever holds an integer, and a denial always names the denial
//! it derived.
use vstd::prelude::*;

use crate::action::{authorization_ok, authorization_query_spec, effective_ok, ActionRequest, AuthorizationResult, AuthorizationStatus};
use crate::certificate::ProofNodeKind;
use crate::json::JsonV;
use crate::model::{Program, ScalarType};
use crate::program::{is_v2, program_valid};
use crate::reasoning::{check_result_ok, node_justified, id_set, CheckResult};
use crate::report::fact_ids;
use crate::text::{seq_lt, strings_view};
use crate::validate::{is_variable, number_is_i64};

verus! {

/// The fact at position `i` only becomes valid after the evaluation time.
pub open spec fn not_yet_valid(p: &Program, i: int) -> bool {
    &&& p.evaluation_time is Some
    &&& p.facts@[i].valid_from is Some
    &&& seq_lt(p.evaluation_time->0@, p.facts@[i].valid_from->0@)
}

/// The fact at position `i` is not in force at the evaluation time: it was
/// observed after it, becomes valid after it, or stopped being valid at or
/// before it.
pub open spec fn out_of_time(p: &Program, i: int) -> bool {
    let e = p.evaluation_time->0@;
    let f = p.facts@[i];
    &&& p.evaluation_time is Some
    &&& {
        ||| f.observed_at is Some && seq_lt(e, f.observed_at->0@)
        ||| f.valid_from is Some && seq_lt(e, f.valid_from->0@)
        ||| f.valid_until is Some && crate::text::seq_le(f.valid_until->0@, e)
    }
}

/// No fact node of the nodes names the fact id `x` as its source.
pub open spec fn never_cited(nodes: Seq<crate::certificate::ProofNode>, x: Seq<char>) -> bool {
    forall|k: int|
        0 <= k < nodes.len() && (#[trigger] nodes[k]).kind == ProofNodeKind::Fact ==> !(nodes[k].source_id is Some
            && nodes[k].source_id->0@ == x)
}

/// A fact outside its time is not in force.
proof fn lemma_not_yet_valid_ineligible(p: &Program, i: int)
    requires
        0 <= i < p.facts@.len(),
        out_of_time(p, i),
    ensures
        !crate::temporal::eligible(p, p.evaluation_time->0@, p.facts@[i]),
{
}

/// The facts have distinct ids: a fact id names one fact.
proof fn lemma_one_fact(p: &Program, i: int, j: int)
    requires
        crate::collections::all_distinct(fact_ids(p.facts@)),
        0 <= i < p.facts@.len(),
        0 <= j < p.facts@.len(),
        p.facts@[i].id@ == p.facts@[j].id@,
    ensures
        i == j,
{
    assert(fact_ids(p.facts@)[i] == p.facts@[i].id@);
    assert(fact_ids(p.facts@)[j] == p.facts@[j].id@);
}

/// A sound proof of a program v2 never cites a fact that is not yet valid.
proof fn lemma_sound_proof_skips(p: &Program, pr: &crate::certificate::Proof, q: crate::model::AtomV, i: int)
    requires
        crate::collections::all_distinct(fact_ids(p.facts@)),
        is_v2(p),
        crate::reasoning::proof_sound(p, pr, q),
        0 <= i < p.facts@.len(),
        out_of_time(p, i),
    ensures
        never_cited(pr.nodes@, p.facts@[i].id@),
{
    let nodes = pr.nodes@;
    assert forall|k: int|
        0 <= k < nodes.len() && (#[trigger] nodes[k]).kind == ProofNodeKind::Fact implies !(nodes[k].source_id is Some
            && nodes[k].source_id->0@ == p.facts@[i].id@) by {
        assert(node_justified(p, id_set(nodes), nodes[k]));
        if nodes[k].source_id is Some && nodes[k].source_id->0@ == p.facts@[i].id@ {
            let n = nodes[k];
            let j = choose|j: int|
                0 <= j < p.facts@.len() && #[trigger] p.facts@[j].id@ == n.source_id->0@ && crate::reasoning::fact_supports(
                    p,
                    p.facts@[j],
                    n.atom@,
                    n.authority->0@,
                    n.temporal,
                );
            lemma_one_fact(p, i, j);
            lemma_not_yet_valid_ineligible(p, i);
        }
    }
}

/// In a program v2, a fact outside its time (observed after the evaluation
/// time, valid only from a later time, or valid only until a time at or
/// before it) is withheld by the check: its id is not among the eligible
/// fact ids of the temporal report, and no fact node of the proof or the
/// disproof cites it.
pub proof fn law_out_of_time_fact_is_withheld(p: &Program, r: &CheckResult, i: int)
    requires
        program_valid(p),
        check_result_ok(p, r),
        is_v2(p),
        0 <= i < p.facts@.len(),
        out_of_time(p, i),
    ensures
        r.temporal matches Some(t) && !strings_view(t.eligible_fact_ids@).contains(p.facts@[i].id@),
        r.proof matches Some(pr) ==> never_cited(pr.nodes@, p.facts@[i].id@),
        r.disproof matches Some(d) ==> never_cited(d.nodes@, p.facts@[i].id@),
{
    crate::program::lemma_fact_ids_distinct(p);
    let t = r.temporal->0;
    let e = p.evaluation_time->0@;
    let x = p.facts@[i].id@;
    if strings_view(t.eligible_fact_ids@).contains(x) {
        assert(crate::temporal::eligible_id(p, e, x));
        let j = choose|j: int| 0 <= j < p.facts@.len() && #[trigger] p.facts@[j].id@ == x && crate::temporal::eligible(p, e, p.facts@[j]);
        lemma_one_fact(p, i, j);
        lemma_not_yet_valid_ineligible(p, i);
    }
    match r.proof {
        Some(pr) => {
            lemma_sound_proof_skips(p, &pr, p.query@, i);
        },
        None => {},
    }
    match r.disproof {
        Some(d) => {
            lemma_sound_proof_skips(p, &d, crate::engine::complement_spec(p.query@), i);
        },
        None => {},
    }
}

/// In a program v2, a fact whose `valid_from` is later than the evaluation
/// time is withheld by the check: its id is not among the eligible fact ids
/// of the temporal report, and no fact node of the proof or the disproof
/// cites it.
pub proof fn law_not_yet_valid_fact_is_withheld(p: &Program, r: &CheckResult, i: int)
    requires
        program_valid(p),
        check_result_ok(p, r),
        is_v2(p),
        0 <= i < p.facts@.len(),
        not_yet_valid(p, i),
    ensures
        r.temporal matches Some(t) && !strings_view(t.eligible_fact_ids@).contains(p.facts@[i].id@),
        r.proof matches Some(pr) ==> never_cited(pr.nodes@, p.facts@[i].id@),
        r.disproof matches Some(d) ==> never_cited(d.nodes@, p.facts@[i].id@),
{
    law_out_of_time_fact_is_withheld(p, r, i);
}

/// The authority policy does not admit the authority of the fact at
/// position `i` for its predicate: the predicate's own admission list, if it
/// has one, and otherwise the default list, lacks that authority.
pub open spec fn not_admitted(p: &Program, i: int) -> bool {
    let f = p.facts@[i];
    let pred = f.atom.predicate@;
    if p.authority.predicate_admit.has_key(pred) {
        !p.authority.predicate_admit.spec_get(pred)->0.has(f.authority@)
    } else {
        !p.authority.default_admit.has(f.authority@)
    }
}

/// A fact whose authority the policy does not admit for its predicate is
/// withheld by the check: its id is not among the admitted fact ids of the
/// authority report, and no fact node of the proof or the disproof cites it.
pub proof fn law_unadmitted_fact_is_withheld(p: &Program, r: &CheckResult, i: int)
    requires
        program_valid(p),
        check_result_ok(p, r),
        0 <= i < p.facts@.len(),
        not_admitted(p, i),
    ensures
        !strings_view(r.authority.admitted_fact_ids@).contains(p.facts@[i].id@),
        r.proof matches Some(pr) ==> never_cited(pr.nodes@, p.facts@[i].id@),
        r.disproof matches Some(d) ==> never_cited(d.nodes@, p.facts@[i].id@),
{
    crate::program::lemma_fact_ids_distinct(p);
    let x = p.facts@[i].id@;
    assert(!crate::report::admits(&p.authority, p.facts@[i]));
    if strings_view(r.authority.admitted_fact_ids@).contains(x) {
        assert(crate::report::admitted_id(p, x));
        let j = choose|j: int| 0 <= j < p.facts@.len() && #[trigger] p.facts@[j].id@ == x && crate::report::admits(&p.authority, p.facts@[j]);
        lemma_one_fact(p, i, j);
    }
    match r.proof {
        Some(pr) => {
            lemma_proof_skips_unadmitted(p, &pr, p.query@, i);
        },
        None => {},
    }
    match r.disproof {
        Some(d) => {
            lemma_proof_skips_unadmitted(p, &d, crate::engine::complement_spec(p.query@), i);
        },
        None => {},
    }
}

/// A sound proof never cites a fact the authority policy does not admit.
proof fn lemma_proof_skips_unadmitted(p: &Program, pr: &crate::certificate::Proof, q: crate::model::AtomV, i: int)
    requires
        crate::collections::all_distinct(fact_ids(p.facts@)),
        crate::reasoning::proof_sound(p, pr, q),
        0 <= i < p.facts@.len(),
        !crate::report::admits(&p.authority, p.facts@[i]),
    ensures
        never_cited(pr.nodes@, p.facts@[i].id@),
{
    let nodes = pr.nodes@;
    assert forall|k: int|
        0 <= k < nodes.len() && (#[trigger] nodes[k]).kind == ProofNodeKind::Fact implies !(nodes[k].source_id is Some
            && nodes[k].source_id->0@ == p.facts@[i].id@) by {
        assert(node_justified(p, id_set(nodes), nodes[k]));
        if nodes[k].source_id is Some && nodes[k].source_id->0@ == p.facts@[i].id@ {
            let n = nodes[k];
            let j = choose|j: int|
                0 <= j < p.facts@.len() && #[trigger] p.facts@[j].id@ == n.source_id->0@ && crate::reasoning::fact_supports(
                    p,
                    p.facts@[j],
                    n.atom@,
                    n.authority->0@,
                    n.temporal,
                );
            lemma_one_fact(p, i, j);
        }
    }
}

/// The argument is a constant that the ontology declares at an integer
/// position of its atom's predicate.
pub open spec fn integer_position(p: &Program, a: crate::model::AtomV, k: int) -> bool {
    &&& p.ontology.predicates.has_key(a.predicate)
    &&& 0 <= k < p.ontology.predicates.spec_get(a.predicate)->0.arguments@.len()
    &&& p.ontology.predicates.spec_get(a.predicate)->0.arguments@[k] == ScalarType::Integer
    &&& 0 <= k < a.arguments.len()
    &&& !is_variable(a.arguments[k])
}

/// The argument is a constant that the ontology declares at a position of
/// type `t` of its atom's predicate.
pub open spec fn typed_position(p: &Program, a: crate::model::AtomV, k: int, t: ScalarType) -> bool {
    &&& p.ontology.predicates.has_key(a.predicate)
    &&& 0 <= k < p.ontology.predicates.spec_get(a.predicate)->0.arguments@.len()
    &&& p.ontology.predicates.spec_get(a.predicate)->0.arguments@[k] == t
    &&& 0 <= k < a.arguments.len()
    &&& !is_variable(a.arguments[k])
}

/// The value is what a declared scalar type admits: a string for a string
/// position, a JSON number that fits in `i64` for an integer position, and
/// a boolean for a boolean position.
pub open spec fn of_scalar_type(v: JsonV, t: ScalarType) -> bool {
    match t {
        ScalarType::String => v matches JsonV::Str(_),
        ScalarType::Integer => v matches JsonV::Number(n) && number_is_i64(n),
        ScalarType::Boolean => v matches JsonV::Bool(_),
    }
}

/// A valid program's facts and query hold, at every declared position, a
/// constant of the declared scalar type; its rules may hold a variable there.
pub proof fn law_constants_have_declared_types(p: &Program)
    requires
        program_valid(p),
    ensures
        forall|i: int, k: int, t: ScalarType|
            0 <= i < p.facts@.len() && #[trigger] typed_position(p, p.facts@[i].atom@, k, t) ==> of_scalar_type(
                p.facts@[i].atom@.arguments[k],
                t,
            ),
        forall|i: int, k: int|
            0 <= i < p.facts@.len() && 0 <= k < p.facts@[i].atom@.arguments.len() ==> !is_variable(
                #[trigger] p.facts@[i].atom@.arguments[k],
            ),
        forall|j: int, w: int, k: int, t: ScalarType|
            0 <= j < p.rules@.len() && 0 <= w < p.rules@[j].when@.len() && #[trigger] typed_position(
                p,
                p.rules@[j].when@[w]@,
                k,
                t,
            ) ==> of_scalar_type(p.rules@[j].when@[w]@.arguments[k], t),
        forall|j: int, k: int, t: ScalarType|
            0 <= j < p.rules@.len() && #[trigger] typed_position(p, p.rules@[j].head@, k, t) ==> of_scalar_type(
                p.rules@[j].head@.arguments[k],
                t,
            ),
        forall|k: int, t: ScalarType| #[trigger] typed_position(p, p.query@, k, t) ==> of_scalar_type(p.query@.arguments[k], t),
{
    assert forall|i: int, k: int, t: ScalarType|
        0 <= i < p.facts@.len() && #[trigger] typed_position(p, p.facts@[i].atom@, k, t) implies of_scalar_type(
            p.facts@[i].atom@.arguments[k],
            t,
        ) by {
        assert(crate::program::fact_ok(p, p.facts@[i]));
        assert(crate::validate::arg_ok(p.facts@[i].atom@.arguments[k], t, false));
    }
    assert forall|i: int, k: int|
        0 <= i < p.facts@.len() && 0 <= k < p.facts@[i].atom@.arguments.len() implies !is_variable(
            #[trigger] p.facts@[i].atom@.arguments[k],
        ) by {
        assert(crate::program::fact_ok(p, p.facts@[i]));
        let a = p.facts@[i].atom@;
        let d = p.ontology.predicates.spec_get(a.predicate)->0;
        assert(crate::validate::arg_ok(a.arguments[k], d.arguments@[k], false));
    }
    assert forall|j: int, w: int, k: int, t: ScalarType|
        0 <= j < p.rules@.len() && 0 <= w < p.rules@[j].when@.len() && #[trigger] typed_position(
            p,
            p.rules@[j].when@[w]@,
            k,
            t,
        ) implies of_scalar_type(p.rules@[j].when@[w]@.arguments[k], t) by {
        assert(crate::program::rule_ok(p, p.rules@[j]));
        assert(crate::validate::atom_ok(p.rules@[j].when@[w]@, &p.ontology, true));
        assert(crate::validate::arg_ok(p.rules@[j].when@[w]@.arguments[k], t, true));
    }
    assert forall|j: int, k: int, t: ScalarType|
        0 <= j < p.rules@.len() && #[trigger] typed_position(p, p.rules@[j].head@, k, t) implies of_scalar_type(
            p.rules@[j].head@.arguments[k],
            t,
        ) by {
        assert(crate::program::rule_ok(p, p.rules@[j]));
        assert(crate::validate::arg_ok(p.rules@[j].head@.arguments[k], t, true));
    }
    assert forall|k: int, t: ScalarType| #[trigger] typed_position(p, p.query@, k, t) implies of_scalar_type(
        p.query@.arguments[k],
        t,
    ) by {
        assert(crate::validate::arg_ok(p.query@.arguments[k], t, false));
    }
}

/// The value is a JSON number that fits in `i64`.
pub open spec fn i64_number(v: JsonV) -> bool {
    v matches JsonV::Number(n) && number_is_i64(n)
}

/// A valid program holds an integer wherever its ontology declares one: every
/// constant argument at a declared integer position, in a fact, in a rule's
/// body or head, or in the query, is a JSON number that fits in `i64` (never
/// a string, a boolean or null).
pub proof fn law_declared_integers_are_integers(p: &Program)
    requires
        program_valid(p),
    ensures
        forall|i: int, k: int|
            0 <= i < p.facts@.len() && #[trigger] integer_position(p, p.facts@[i].atom@, k) ==> i64_number(
                p.facts@[i].atom@.arguments[k],
            ),
        forall|j: int, w: int, k: int|
            0 <= j < p.rules@.len() && 0 <= w < p.rules@[j].when@.len() && #[trigger] integer_position(
                p,
                p.rules@[j].when@[w]@,
                k,
            ) ==> i64_number(p.rules@[j].when@[w]@.arguments[k]),
        forall|j: int, k: int|
            0 <= j < p.rules@.len() && #[trigger] integer_position(p, p.rules@[j].head@, k) ==> i64_number(
                p.rules@[j].head@.arguments[k],
            ),
        forall|k: int| #[trigger] integer_position(p, p.query@, k) ==> i64_number(p.query@.arguments[k]),
{
    assert forall|i: int, k: int|
        0 <= i < p.facts@.len() && #[trigger] integer_position(p, p.facts@[i].atom@, k) implies i64_number(
            p.facts@[i].atom@.arguments[k],
        ) by {
        assert(crate::program::fact_ok(p, p.facts@[i]));
        assert(crate::validate::arg_ok(p.facts@[i].atom@.arguments[k], ScalarType::Integer, false));
    }
    assert forall|j: int, w: int, k: int|
        0 <= j < p.rules@.len() && 0 <= w < p.rules@[j].when@.len() && #[trigger] integer_position(
            p,
            p.rules@[j].when@[w]@,
            k,
        ) implies i64_number(p.rules@[j].when@[w]@.arguments[k]) by {
        assert(crate::program::rule_ok(p, p.rules@[j]));
        assert(crate::validate::atom_ok(p.rules@[j].when@[w]@, &p.ontology, true));
        assert(crate::validate::arg_ok(p.rules@[j].when@[w]@.arguments[k], ScalarType::Integer, true));
    }
    assert forall|j: int, k: int|
        0 <= j < p.rules@.len() && #[trigger] integer_position(p, p.rules@[j].head@, k) implies i64_number(
            p.rules@[j].head@.arguments[k],
        ) by {
        assert(crate::program::rule_ok(p, p.rules@[j]));
        assert(crate::validate::arg_ok(p.rules@[j].head@.arguments[k], ScalarType::Integer, true));
    }
    assert forall|k: int| #[trigger] integer_position(p, p.query@, k) implies i64_number(p.query@.arguments[k]) by {
        assert(crate::validate::arg_ok(p.query@.arguments[k], ScalarType::Integer, false));
    }
}

/// A denial names what was derived: when an authorization is denied, its
/// first issue has code `explicit_denial`, says that the policy derives
/// explicit denial for this exact action, names the negation of the
/// request's authorization query `action_authorized(<action id>)`, and cites
/// no fact ids.
pub proof fn law_denial_names_the_derived_denial(r: &ActionRequest, a: &AuthorizationResult)
    requires
        authorization_ok(r, a),
        a.status == AuthorizationStatus::Denied,
    ensures
        a.issues@.len() > 0,
        a.issues@[0].code@ == "explicit_denial"@,
        a.issues@[0].message@ == "The policy derives explicit denial for this exact action."@,
        a.issues@[0].atom matches Some(x) && x@ == crate::engine::complement_spec(authorization_query_spec(r.action.id@)),
        a.issues@[0].fact_ids@.len() == 0,
{
    let p = choose|p: Program| #[trigger] effective_ok(r, &p) && program_valid(&p) && check_result_ok(&p, &a.reasoning);
    assert(a.reasoning.query@ == authorization_query_spec(r.action.id@));
    let iv = crate::action::issues_view(a.issues@);
    assert(iv == crate::action::issues_spec(&a.reasoning, a.status));
    assert(crate::action::status_issues(&a.reasoning, a.status).len() == 1);
    assert(iv.len() > 0);
    assert(iv[0] == crate::action::status_issues(&a.reasoning, a.status)[0]);
    assert(iv[0] == crate::action::issue_view(a.issues@[0]));
    assert(strings_view(a.issues@[0].fact_ids@).len() == a.issues@[0].fact_ids@.len());
}

/// An authorization's decision is the reasoning's outcome for the request:
/// authorized exactly when the authorization query is proved (and the
/// reasoning carries its proof), denied exactly when its negation is
/// proved alone, conflicted exactly when both are, and insufficient
/// evidence exactly when neither is.
pub proof fn law_decision_follows_the_reasoning(r: &ActionRequest, a: &AuthorizationResult)
    requires
        authorization_ok(r, a),
    ensures
        (a.status == AuthorizationStatus::Authorized) == (a.reasoning.proof is Some && a.reasoning.disproof is None),
        (a.status == AuthorizationStatus::Denied) == (a.reasoning.proof is None && a.reasoning.disproof is Some),
        (a.status == AuthorizationStatus::Conflicted) == (a.reasoning.proof is Some && a.reasoning.disproof is Some),
        (a.status == AuthorizationStatus::InsufficientEvidence) == (a.reasoning.proof is None && a.reasoning.disproof is None),
        a.reasoning.query@ == authorization_query_spec(r.action.id@),
{
    let p = choose|p: Program| #[trigger] effective_ok(r, &p) && program_valid(&p) && check_result_ok(&p, &a.reasoning);
}

/// A conflicted authorization names the conflict: its first issue has code
/// `conflicting_authorization`, names the authorization query, and cites the
/// facts behind the conflict.
pub proof fn law_conflict_names_the_query(r: &ActionRequest, a: &AuthorizationResult)
    requires
        authorization_ok(r, a),
        a.status == AuthorizationStatus::Conflicted,
    ensures
        a.issues@.len() > 0,
        a.issues@[0].code@ == "conflicting_authorization"@,
        a.issues@[0].atom matches Some(x) && x@ == authorization_query_spec(r.action.id@),
        a.reasoning.conflict matches Some(c) && strings_view(a.issues@[0].fact_ids@) == strings_view(c.fact_ids@),
{
    let p = choose|p: Program| #[trigger] effective_ok(r, &p) && program_valid(&p) && check_result_ok(&p, &a.reasoning);
    let iv = crate::action::issues_view(a.issues@);
    assert(iv == crate::action::issues_spec(&a.reasoning, a.status));
    assert(crate::action::status_issues(&a.reasoning, a.status).len() == 1);
    assert(iv[0] == crate::action::status_issues(&a.reasoning, a.status)[0]);
    assert(iv[0] == crate::action::issue_view(a.issues@[0]));
}

/// An authorization without enough evidence names what is missing: when the
/// reasoning lists missing premises, the first issues name each of them in
/// order with code `missing_requirement`; when it lists none, the first
/// issue has code `no_authorization_derivation` and names the query.
pub proof fn law_insufficient_evidence_names_the_missing(r: &ActionRequest, a: &AuthorizationResult)
    requires
        authorization_ok(r, a),
        a.status == AuthorizationStatus::InsufficientEvidence,
    ensures
        a.issues@.len() >= a.reasoning.missing@.len(),
        forall|k: int|
            0 <= k < a.reasoning.missing@.len() ==> (#[trigger] a.issues@[k]).code@ == "missing_requirement"@ && (a.issues@[k].atom matches Some(
                x,
            ) && x@ == a.reasoning.missing@[k]@),
        a.reasoning.missing@.len() == 0 ==> a.issues@.len() > 0 && a.issues@[0].code@ == "no_authorization_derivation"@ && (
        a.issues@[0].atom matches Some(x) && x@ == authorization_query_spec(r.action.id@)),
{
    let p = choose|p: Program| #[trigger] effective_ok(r, &p) && program_valid(&p) && check_result_ok(&p, &a.reasoning);
    let iv = crate::action::issues_view(a.issues@);
    let si = crate::action::status_issues(&a.reasoning, a.status);
    assert(iv == crate::action::issues_spec(&a.reasoning, a.status));
    assert(si.len() >= a.reasoning.missing@.len());
    assert forall|k: int| 0 <= k < a.reasoning.missing@.len() implies (#[trigger] a.issues@[k]).code@ == "missing_requirement"@ && (
    a.issues@[k].atom matches Some(x) && x@ == a.reasoning.missing@[k]@) by {
        assert(iv[k] == si[k]);
        assert(iv[k] == crate::action::issue_view(a.issues@[k]));
    }
    if a.reasoning.missing@.len() == 0 {
        assert(iv[0] == si[0]);
        assert(iv[0] == crate::action::issue_view(a.issues@[0]));
    }
}

} // verus!
