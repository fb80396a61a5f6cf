//! A valid program has one check result: any two results that meet what
//! `check` states of its result for that program serialize alike and have
//! the same status.
use vstd::prelude::*;

use crate::certificate::{Proof, ProofNode, ProofNodeKind};
use crate::model::Program;
use crate::reasoning::{check_exact, check_result_ok, fact_source, node_view, proof_view, rounds_ok, CheckResult};
use crate::result_json::{check_result_json, node_json, proof_json};
use crate::text::strings_view;

verus! {

/// A fixpoint is reached in one number of rounds.
proof fn lemma_rounds_unique(p: &Program, r1: nat, r2: nat)
    requires
        rounds_ok(p, r1),
        rounds_ok(p, r2),
    ensures
        r1 == r2,
{
    let ord = crate::reasoning::rule_order_spec(p);
    let init = crate::reasoning::initial_entries(p);
    if r1 < r2 {
        assert(crate::reasoning::derive_round_spec(p, ord, crate::reasoning::trace(p, ord, init, (r1 - 1) as nat), r1).len() > 0);
    }
    if r2 < r1 {
        assert(crate::reasoning::derive_round_spec(p, ord, crate::reasoning::trace(p, ord, init, (r2 - 1) as nat), r2).len() > 0);
    }
}

/// Nodes with the same contents serialize alike.
proof fn lemma_node_json(a: ProofNode, b: ProofNode)
    requires
        node_view(a) == node_view(b),
    ensures
        node_json(a) == node_json(b),
{
    assert(crate::result_json::opt_str(a.source_id) == crate::result_json::opt_str(b.source_id));
    assert(crate::result_json::opt_str(a.authority) == crate::result_json::opt_str(b.authority));
    match (a.temporal, b.temporal) {
        (Some(x), Some(y)) => {
            assert(crate::result_json::opt_str(x.valid_from) == crate::result_json::opt_str(y.valid_from));
            assert(crate::result_json::opt_str(x.valid_until) == crate::result_json::opt_str(y.valid_until));
            assert(x.supersedes@.len() == strings_view(x.supersedes@).len());
            assert(y.supersedes@.len() == strings_view(y.supersedes@).len());
            assert(crate::result_json::fact_temporal_json(x) == crate::result_json::fact_temporal_json(y));
        },
        _ => {},
    }
}

/// Proofs with the same contents serialize alike.
proof fn lemma_proof_json(a: Proof, b: Proof)
    requires
        proof_view(a) == proof_view(b),
    ensures
        proof_json(a) == proof_json(b),
{
    let va = a.nodes@.map_values(|n: ProofNode| node_view(n));
    let vb = b.nodes@.map_values(|n: ProofNode| node_view(n));
    assert(a.nodes@.len() == va.len() && b.nodes@.len() == vb.len());
    let ja = a.nodes@.map_values(|n: ProofNode| node_json(n));
    let jb = b.nodes@.map_values(|n: ProofNode| node_json(n));
    assert forall|k: int| 0 <= k < ja.len() implies ja[k] == jb[k] by {
        assert(va[k] == vb[k]);
        lemma_node_json(a.nodes@[k], b.nodes@[k]);
    }
    assert(ja =~= jb);
}

/// Nodes with the same contents name the same fact sources.
proof fn lemma_fact_sources(a: Seq<ProofNode>, b: Seq<ProofNode>, x: Seq<char>)
    requires
        a.map_values(|n: ProofNode| node_view(n)) == b.map_values(|n: ProofNode| node_view(n)),
    ensures
        fact_source(a, x) == fact_source(b, x),
{
    let va = a.map_values(|n: ProofNode| node_view(n));
    let vb = b.map_values(|n: ProofNode| node_view(n));
    assert(a.len() == va.len() && b.len() == vb.len());
    if fact_source(a, x) {
        let k = choose|k: int|
            0 <= k < a.len() && (#[trigger] a[k]).kind == ProofNodeKind::Fact && a[k].source_id is Some && a[k].source_id->0@ == x;
        assert(va[k] == vb[k]);
        assert(b[k].kind == ProofNodeKind::Fact && b[k].source_id is Some && b[k].source_id->0@ == x);
    }
    if fact_source(b, x) {
        let k = choose|k: int|
            0 <= k < b.len() && (#[trigger] b[k]).kind == ProofNodeKind::Fact && b[k].source_id is Some && b[k].source_id->0@ == x;
        assert(va[k] == vb[k]);
        assert(a[k].kind == ProofNodeKind::Fact && a[k].source_id is Some && a[k].source_id->0@ == x);
    }
}

/// Authority reports of one program serialize alike.
proof fn lemma_authority_json(p: &Program, a1: crate::report::AuthorityReport, a2: crate::report::AuthorityReport)
    requires
        crate::collections::all_distinct(crate::report::fact_ids(p.facts@)),
        crate::report::authority_report_ok(p, &a1),
        crate::report::authority_report_ok(p, &a2),
    ensures
        crate::result_json::authority_json(&a1) == crate::result_json::authority_json(&a2),
{
    crate::compare::lemma_authority_unique(p, &a1, &a2);
    let w1 = a1.withheld@.map_values(|w: crate::report::WithheldFact| crate::result_json::withheld_json(w));
    let w2 = a2.withheld@.map_values(|w: crate::report::WithheldFact| crate::result_json::withheld_json(w));
    assert(a1.withheld@.len() == crate::compare::withheld_views(a1.withheld@).len());
    assert(a2.withheld@.len() == crate::compare::withheld_views(a2.withheld@).len());
    assert forall|k: int| 0 <= k < w1.len() implies w1[k] == w2[k] by {
        assert(crate::compare::withheld_views(a1.withheld@)[k] == crate::compare::withheld_views(a2.withheld@)[k]);
    }
    assert(w1 =~= w2);
}

/// Temporal reports of one program serialize alike.
proof fn lemma_temporal_json(p: &Program, e: Seq<char>, t1: crate::temporal::TemporalReport, t2: crate::temporal::TemporalReport)
    requires
        crate::collections::all_distinct(crate::report::fact_ids(p.facts@)),
        crate::temporal::temporal_report_ok(p, e, &t1),
        crate::temporal::temporal_report_ok(p, e, &t2),
    ensures
        crate::result_json::temporal_report_json(&t1) == crate::result_json::temporal_report_json(&t2),
{
    crate::compare::lemma_temporal_unique(p, e, &t1, &t2);
    let v1 = t1.withheld@.map_values(|w: crate::temporal::TemporallyWithheldFact| crate::result_json::time_withheld_json(w));
    let v2 = t2.withheld@.map_values(|w: crate::temporal::TemporallyWithheldFact| crate::result_json::time_withheld_json(w));
    assert(t1.withheld@.len() == crate::compare::time_withheld_views(t1.withheld@).len());
    assert(t2.withheld@.len() == crate::compare::time_withheld_views(t2.withheld@).len());
    assert forall|k: int| 0 <= k < v1.len() implies v1[k] == v2[k] by {
        assert(crate::compare::time_withheld_views(t1.withheld@)[k] == crate::compare::time_withheld_views(t2.withheld@)[k]);
        assert(t1.withheld@[k].superseded_by@.len() == strings_view(t1.withheld@[k].superseded_by@).len());
        assert(t2.withheld@[k].superseded_by@.len() == strings_view(t2.withheld@[k].superseded_by@).len());
    }
    assert(v1 =~= v2);
}

/// Conflict witnesses of proofs with the same contents serialize alike.
proof fn lemma_conflict_json(
    q: crate::model::AtomV,
    c1: crate::reasoning::ConflictWitness,
    c2: crate::reasoning::ConflictWitness,
    p1: Proof,
    d1: Proof,
    p2: Proof,
    d2: Proof,
)
    requires
        crate::reasoning::conflict_ok(&c1, q, &p1, &d1),
        crate::reasoning::conflict_ok(&c2, q, &p2, &d2),
        proof_view(p1) == proof_view(p2),
        proof_view(d1) == proof_view(d2),
    ensures
        crate::result_json::conflict_json(c1) == crate::result_json::conflict_json(c2),
{
    let n1 = p1.nodes@ + d1.nodes@;
    let n2 = p2.nodes@ + d2.nodes@;
    assert(p1.nodes@.len() == proof_view(p1).nodes.len() && p2.nodes@.len() == proof_view(p2).nodes.len());
    assert(d1.nodes@.len() == proof_view(d1).nodes.len() && d2.nodes@.len() == proof_view(d2).nodes.len());
    assert(n1.map_values(|n: ProofNode| node_view(n)) =~= n2.map_values(|n: ProofNode| node_view(n))) by {
        assert forall|k: int| 0 <= k < n1.len() implies node_view(#[trigger] n1[k]) == node_view(n2[k]) by {
            if k < p1.nodes@.len() {
                assert(proof_view(p1).nodes[k] == proof_view(p2).nodes[k]);
                assert(n1[k] == p1.nodes@[k] && n2[k] == p2.nodes@[k]);
                assert(proof_view(p1).nodes[k] == node_view(p1.nodes@[k]));
                assert(proof_view(p2).nodes[k] == node_view(p2.nodes@[k]));
            } else {
                let j = k - p1.nodes@.len();
                assert(proof_view(d1).nodes[j] == proof_view(d2).nodes[j]);
                assert(n1[k] == d1.nodes@[j] && n2[k] == d2.nodes@[j]);
                assert(proof_view(d1).nodes[j] == node_view(d1.nodes@[j]));
                assert(proof_view(d2).nodes[j] == node_view(d2.nodes@[j]));
            }
        }
    }
    assert forall|x: Seq<char>| strings_view(c1.fact_ids@).contains(x) <==> strings_view(c2.fact_ids@).contains(x) by {
        lemma_fact_sources(n1, n2, x);
    }
    crate::collections::lemma_sorted_same_members(strings_view(c1.fact_ids@), strings_view(c2.fact_ids@));
}

/// Atoms with the same contents serialize alike.
proof fn lemma_atoms_json(a: Seq<crate::model::Atom>, b: Seq<crate::model::Atom>)
    requires
        crate::reasoning::atoms_view(a) == crate::reasoning::atoms_view(b),
    ensures
        crate::model::atoms_json(a) == crate::model::atoms_json(b),
{
    assert(a.len() == crate::reasoning::atoms_view(a).len());
    assert(b.len() == crate::reasoning::atoms_view(b).len());
    assert forall|k: int| 0 <= k < a.len() implies crate::model::atoms_json(a)[k] == crate::model::atoms_json(b)[k] by {
        assert(crate::reasoning::atoms_view(a)[k] == crate::reasoning::atoms_view(b)[k]);
        assert(crate::reasoning::atoms_view(a)[k] == a[k]@);
        assert(crate::reasoning::atoms_view(b)[k] == b[k]@);
        assert(crate::model::atoms_json(a)[k] == crate::model::atom_json(a[k]@));
        assert(crate::model::atoms_json(b)[k] == crate::model::atom_json(b[k]@));
    }
    assert(crate::model::atoms_json(a) =~= crate::model::atoms_json(b));
}

/// Results whose parts serialize alike serialize alike.
proof fn lemma_result_json(r1: &CheckResult, r2: &CheckResult)
    requires
        r1.schema@ == r2.schema@,
        r1.status == r2.status,
        r1.query@ == r2.query@,
        r1.program_digest@ == r2.program_digest@,
        r1.ontology.id@ == r2.ontology.id@,
        r1.ontology.version@ == r2.ontology.version@,
        r1.ontology.digest@ == r2.ontology.digest@,
        crate::result_json::authority_json(&r1.authority) == crate::result_json::authority_json(&r2.authority),
        r1.temporal is Some == r2.temporal is Some,
        r1.temporal matches Some(x) ==> crate::result_json::temporal_report_json(&x) == crate::result_json::temporal_report_json(
            &r2.temporal->0,
        ),
        crate::result_json::opt_proof_json(r1.proof) == crate::result_json::opt_proof_json(r2.proof),
        crate::result_json::opt_proof_json(r1.disproof) == crate::result_json::opt_proof_json(r2.disproof),
        r1.conflict is Some == r2.conflict is Some,
        r1.conflict matches Some(x) ==> crate::result_json::conflict_json(x) == crate::result_json::conflict_json(r2.conflict->0),
        crate::model::atoms_json(r1.missing@) == crate::model::atoms_json(r2.missing@),
        strings_view(r1.assumptions@) == strings_view(r2.assumptions@),
        r1.metrics == r2.metrics,
    ensures
        check_result_json(r1) == check_result_json(r2),
{
    let t1 = crate::certificate::opt_members(
        "temporal"@,
        match r1.temporal { Some(x) => Some(crate::result_json::temporal_report_json(&x)), None => None },
    );
    let t2 = crate::certificate::opt_members(
        "temporal"@,
        match r2.temporal { Some(x) => Some(crate::result_json::temporal_report_json(&x)), None => None },
    );
    assert(t1 == t2);
    let c1 = match r1.conflict { Some(x) => crate::result_json::conflict_json(x), None => crate::json::JsonV::Null };
    let c2 = match r2.conflict { Some(x) => crate::result_json::conflict_json(x), None => crate::json::JsonV::Null };
    assert(c1 == c2);
    assert(crate::result_json::ontology_ref_json(r1.ontology) == crate::result_json::ontology_ref_json(r2.ontology));
    assert(crate::result_json::metrics_json(r1.metrics) == crate::result_json::metrics_json(r2.metrics));
    assert(crate::json::strings_json(strings_view(r1.assumptions@)) == crate::json::strings_json(strings_view(r2.assumptions@)));
    let v1 = seq![
        crate::json::JsonV::Str(r1.schema@),
        crate::json::JsonV::Str(crate::result_json::status_name(r1.status)),
        crate::model::atom_json(r1.query@),
        crate::json::JsonV::Str(r1.program_digest@),
        crate::result_json::ontology_ref_json(r1.ontology),
        crate::result_json::authority_json(&r1.authority),
    ] + t1.1 + seq![
        crate::result_json::opt_proof_json(r1.proof),
        crate::result_json::opt_proof_json(r1.disproof),
        c1,
        crate::json::JsonV::Array(crate::model::atoms_json(r1.missing@)),
        crate::json::JsonV::Array(crate::json::strings_json(strings_view(r1.assumptions@))),
        crate::result_json::metrics_json(r1.metrics),
    ];
    let v2 = seq![
        crate::json::JsonV::Str(r2.schema@),
        crate::json::JsonV::Str(crate::result_json::status_name(r2.status)),
        crate::model::atom_json(r2.query@),
        crate::json::JsonV::Str(r2.program_digest@),
        crate::result_json::ontology_ref_json(r2.ontology),
        crate::result_json::authority_json(&r2.authority),
    ] + t2.1 + seq![
        crate::result_json::opt_proof_json(r2.proof),
        crate::result_json::opt_proof_json(r2.disproof),
        c2,
        crate::json::JsonV::Array(crate::model::atoms_json(r2.missing@)),
        crate::json::JsonV::Array(crate::json::strings_json(strings_view(r2.assumptions@))),
        crate::result_json::metrics_json(r2.metrics),
    ];
    assert(v1 == v2);
    assert(check_result_json(r1) matches crate::json::JsonV::Object(k, v) && v == v1);
    assert(check_result_json(r1) == crate::json::JsonV::Object(
        seq!["schema"@, "status"@, "query"@, "program_digest"@, "ontology"@, "authority"@] + t1.0 + seq![
            "proof"@,
            "disproof"@,
            "conflict"@,
            "missing"@,
            "assumptions"@,
            "metrics"@,
        ],
        v1,
    ));
    assert(check_result_json(r2) matches crate::json::JsonV::Object(k, v) && v == v2);
    assert(check_result_json(r2) == crate::json::JsonV::Object(
        seq!["schema"@, "status"@, "query"@, "program_digest"@, "ontology"@, "authority"@] + t2.0 + seq![
            "proof"@,
            "disproof"@,
            "conflict"@,
            "missing"@,
            "assumptions"@,
            "metrics"@,
        ],
        v2,
    ));
}

/// A valid program has one check result: two results that meet what
/// `check` states of its result for the program have the same status and
/// the same proofs, and serialize alike.
#[verifier::rlimit(100)]
#[verifier::spinoff_prover]
pub proof fn law_check_is_deterministic(p: &Program, r1: &CheckResult, r2: &CheckResult)
    requires
        crate::program::program_valid(p),
        check_result_ok(p, r1),
        check_exact(p, r1),
        check_result_ok(p, r2),
        check_exact(p, r2),
    ensures
        r1.status == r2.status,
        r1.proof is Some == r2.proof is Some,
        r1.proof matches Some(x) ==> proof_view(x) == proof_view(r2.proof->0),
        r1.disproof matches Some(x) ==> proof_view(x) == proof_view(r2.disproof->0),
        check_result_json(r1) == check_result_json(r2),
{
    crate::program::lemma_fact_ids_distinct(p);
    lemma_rounds_unique(p, r1.metrics.rounds as nat, r2.metrics.rounds as nat);
    assert(r1.metrics == r2.metrics);
    lemma_authority_json(p, r1.authority, r2.authority);
    match (r1.temporal, r2.temporal) {
        (Some(t1), Some(t2)) => {
            lemma_temporal_json(p, p.evaluation_time->0@, t1, t2);
        },
        _ => {},
    }
    match (r1.proof, r2.proof) {
        (Some(x), Some(y)) => {
            lemma_proof_json(x, y);
        },
        _ => {},
    }
    match (r1.disproof, r2.disproof) {
        (Some(x), Some(y)) => {
            lemma_proof_json(x, y);
        },
        _ => {},
    }
    match (r1.conflict, r2.conflict) {
        (Some(c1), Some(c2)) => {
            lemma_conflict_json(p.query@, c1, c2, r1.proof->0, r1.disproof->0, r2.proof->0, r2.disproof->0);
        },
        _ => {},
    }
    if r1.proof is None {
        lemma_atoms_json(r1.missing@, r2.missing@);
    } else {
        assert(crate::model::atoms_json(r1.missing@) =~= crate::model::atoms_json(r2.missing@));
    }
    lemma_result_json(r1, r2);
}

} // verus!
