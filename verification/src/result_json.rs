use vstd::prelude::*;

use crate::certificate::{add_opt_value, kind_name, opt_members, opt_string_value, Proof, ProofNode};
use crate::json::{array_of, json_views, lemma_json_views_push, string_array, string_value, strings_json, JsonV, JsonValue, ObjectBuilder};
use crate::model::{atom_json, atoms_json, atoms_to_json, Atom};
use crate::reasoning::{CheckResult, ConflictWitness, Metrics, OntologyRef, Status};
use crate::report::{AuthorityReport, WithheldFact};
use crate::temporal::{FactTemporal, TemporalReport, TemporallyWithheldFact};
use crate::text::{decimal, decimal_string, strings_view};

verus! {

pub open spec fn opt_str(v: Option<String>) -> Option<JsonV> {
    match v {
        Some(s) => Some(JsonV::Str(s@)),
        None => None,
    }
}

pub open spec fn number(n: usize) -> JsonV {
    JsonV::Number(decimal(n as nat))
}

pub fn number_value(n: usize) -> (j: JsonValue)
    ensures
        j@ == number(n),
{
    JsonValue::Number(decimal_string(n as u64))
}

pub open spec fn status_name(s: Status) -> Seq<char> {
    match s {
        Status::Proved => "proved"@,
        Status::Disproved => "disproved"@,
        Status::Inconsistent => "inconsistent"@,
        Status::Unknown => "unknown"@,
    }
}

pub fn status_text(s: Status) -> (t: &'static str)
    ensures
        t@ == status_name(s),
{
    match s {
        Status::Proved => "proved",
        Status::Disproved => "disproved",
        Status::Inconsistent => "inconsistent",
        Status::Unknown => "unknown",
    }
}

/// A withheld fact as serde_json writes it.
pub open spec fn withheld_json(w: WithheldFact) -> JsonV {
    JsonV::Object(
        seq!["fact_id"@, "atom"@, "authority"@, "admitted_authorities"@, "reason"@],
        seq![
            JsonV::Str(w.fact_id@),
            atom_json(w.atom@),
            JsonV::Str(w.authority@),
            JsonV::Array(strings_json(strings_view(w.admitted_authorities@))),
            JsonV::Str(w.reason@),
        ],
    )
}

fn withheld_to_json(w: &WithheldFact) -> (j: JsonValue)
    ensures
        j@ == withheld_json(*w),
{
    let mut b = ObjectBuilder::new();
    b.add("fact_id", string_value(w.fact_id.as_str()));
    b.add("atom", w.atom.to_json());
    b.add("authority", string_value(w.authority.as_str()));
    b.add("admitted_authorities", string_array(w.admitted_authorities.as_slice()));
    b.add("reason", string_value(w.reason.as_str()));
    let j = b.finish();
    proof {
        assert(b.key_views() =~= seq!["fact_id"@, "atom"@, "authority"@, "admitted_authorities"@, "reason"@]);
        assert(b.value_views() =~= seq![
            JsonV::Str(w.fact_id@),
            atom_json(w.atom@),
            JsonV::Str(w.authority@),
            JsonV::Array(strings_json(strings_view(w.admitted_authorities@))),
            JsonV::Str(w.reason@),
        ]);
    }
    j
}

/// An authority report as serde_json writes it.
pub open spec fn authority_json(r: &AuthorityReport) -> JsonV {
    JsonV::Object(
        seq!["policy_digest"@, "admitted_fact_ids"@, "withheld"@],
        seq![
            JsonV::Str(r.policy_digest@),
            JsonV::Array(strings_json(strings_view(r.admitted_fact_ids@))),
            JsonV::Array(r.withheld@.map_values(|w: WithheldFact| withheld_json(w))),
        ],
    )
}

pub fn authority_to_json(r: &AuthorityReport) -> (j: JsonValue)
    ensures
        j@ == authority_json(r),
{
    let mut items: Vec<JsonValue> = Vec::new();
    let mut i: usize = 0;
    while i < r.withheld.len()
        invariant
            i <= r.withheld@.len(),
            json_views(items@) == r.withheld@.take(i as int).map_values(|w: WithheldFact| withheld_json(w)),
        decreases r.withheld.len() - i,
    {
        let ghost before = items@;
        let v = withheld_to_json(&r.withheld[i]);
        items.push(v);
        proof {
            lemma_json_views_push(before, v);
            assert(r.withheld@.take(i + 1).map_values(|w: WithheldFact| withheld_json(w)) =~= r.withheld@.take(i as int).map_values(
                |w: WithheldFact| withheld_json(w),
            ).push(withheld_json(r.withheld@[i as int])));
        }
        i += 1;
    }
    proof {
        assert(r.withheld@.take(r.withheld@.len() as int) =~= r.withheld@);
    }
    let mut b = ObjectBuilder::new();
    b.add("policy_digest", string_value(r.policy_digest.as_str()));
    b.add("admitted_fact_ids", string_array(r.admitted_fact_ids.as_slice()));
    b.add("withheld", array_of(items));
    let j = b.finish();
    proof {
        assert(b.key_views() =~= seq!["policy_digest"@, "admitted_fact_ids"@, "withheld"@]);
        assert(b.value_views() =~= seq![
            JsonV::Str(r.policy_digest@),
            JsonV::Array(strings_json(strings_view(r.admitted_fact_ids@))),
            JsonV::Array(r.withheld@.map_values(|w: WithheldFact| withheld_json(w))),
        ]);
    }
    j
}

pub open spec fn nonempty_strings(name: Seq<char>, v: Seq<String>) -> (Seq<Seq<char>>, Seq<JsonV>) {
    opt_members(name, if v.len() > 0 { Some(JsonV::Array(strings_json(strings_view(v)))) } else { None })
}

pub fn nonempty_string_array(v: &Vec<String>) -> (r: Option<JsonValue>)
    ensures
        match r { Some(x) => Some(x@), None => None } == (if v@.len() > 0 { Some(JsonV::Array(strings_json(strings_view(v@)))) } else { None::<JsonV> }),
{
    if v.len() > 0 {
        Some(string_array(v.as_slice()))
    } else {
        None
    }
}

/// A temporally withheld fact as serde_json writes it.
pub open spec fn time_withheld_json(w: TemporallyWithheldFact) -> JsonV {
    let s = nonempty_strings("superseded_by"@, w.superseded_by@);
    JsonV::Object(
        seq!["fact_id"@, "atom"@, "reason"@] + s.0,
        seq![JsonV::Str(w.fact_id@), atom_json(w.atom@), JsonV::Str(w.reason@)] + s.1,
    )
}

fn time_withheld_to_json(w: &TemporallyWithheldFact) -> (j: JsonValue)
    ensures
        j@ == time_withheld_json(*w),
{
    let mut b = ObjectBuilder::new();
    b.add("fact_id", string_value(w.fact_id.as_str()));
    b.add("atom", w.atom.to_json());
    b.add("reason", string_value(w.reason.as_str()));
    let ghost k0 = b.key_views();
    let ghost v0 = b.value_views();
    add_opt_value(&mut b, "superseded_by", nonempty_string_array(&w.superseded_by));
    let j = b.finish();
    proof {
        assert(k0 =~= seq!["fact_id"@, "atom"@, "reason"@]);
        assert(v0 =~= seq![JsonV::Str(w.fact_id@), atom_json(w.atom@), JsonV::Str(w.reason@)]);
    }
    j
}

/// A temporal report as serde_json writes it.
pub open spec fn temporal_report_json(r: &TemporalReport) -> JsonV {
    JsonV::Object(
        seq!["evaluation_time"@, "eligible_fact_ids"@, "withheld"@],
        seq![
            JsonV::Str(r.evaluation_time@),
            JsonV::Array(strings_json(strings_view(r.eligible_fact_ids@))),
            JsonV::Array(r.withheld@.map_values(|w: TemporallyWithheldFact| time_withheld_json(w))),
        ],
    )
}

fn temporal_report_to_json(r: &TemporalReport) -> (j: JsonValue)
    ensures
        j@ == temporal_report_json(r),
{
    let mut items: Vec<JsonValue> = Vec::new();
    let mut i: usize = 0;
    while i < r.withheld.len()
        invariant
            i <= r.withheld@.len(),
            json_views(items@) == r.withheld@.take(i as int).map_values(|w: TemporallyWithheldFact| time_withheld_json(w)),
        decreases r.withheld.len() - i,
    {
        let ghost before = items@;
        let v = time_withheld_to_json(&r.withheld[i]);
        items.push(v);
        proof {
            lemma_json_views_push(before, v);
            assert(r.withheld@.take(i + 1).map_values(|w: TemporallyWithheldFact| time_withheld_json(w)) =~= r.withheld@.take(
                i as int,
            ).map_values(|w: TemporallyWithheldFact| time_withheld_json(w)).push(time_withheld_json(r.withheld@[i as int])));
        }
        i += 1;
    }
    proof {
        assert(r.withheld@.take(r.withheld@.len() as int) =~= r.withheld@);
    }
    let mut b = ObjectBuilder::new();
    b.add("evaluation_time", string_value(r.evaluation_time.as_str()));
    b.add("eligible_fact_ids", string_array(r.eligible_fact_ids.as_slice()));
    b.add("withheld", array_of(items));
    let j = b.finish();
    proof {
        assert(b.key_views() =~= seq!["evaluation_time"@, "eligible_fact_ids"@, "withheld"@]);
        assert(b.value_views() =~= seq![
            JsonV::Str(r.evaluation_time@),
            JsonV::Array(strings_json(strings_view(r.eligible_fact_ids@))),
            JsonV::Array(r.withheld@.map_values(|w: TemporallyWithheldFact| time_withheld_json(w))),
        ]);
    }
    j
}

/// A lifecycle record as serde_json writes it.
pub open spec fn fact_temporal_json(t: FactTemporal) -> JsonV {
    let f = opt_members("valid_from"@, opt_str(t.valid_from));
    let u = opt_members("valid_until"@, opt_str(t.valid_until));
    let s = nonempty_strings("supersedes"@, t.supersedes@);
    JsonV::Object(seq!["observed_at"@] + f.0 + u.0 + s.0, seq![JsonV::Str(t.observed_at@)] + f.1 + u.1 + s.1)
}

fn fact_temporal_to_json(t: &FactTemporal) -> (j: JsonValue)
    ensures
        j@ == fact_temporal_json(*t),
{
    let mut b = ObjectBuilder::new();
    b.add("observed_at", string_value(t.observed_at.as_str()));
    let ghost k0 = b.key_views();
    let ghost v0 = b.value_views();
    add_opt_value(&mut b, "valid_from", opt_string_value(&t.valid_from));
    add_opt_value(&mut b, "valid_until", opt_string_value(&t.valid_until));
    add_opt_value(&mut b, "supersedes", nonempty_string_array(&t.supersedes));
    let j = b.finish();
    proof {
        assert(k0 =~= seq!["observed_at"@]);
        assert(v0 =~= seq![JsonV::Str(t.observed_at@)]);
    }
    j
}

/// A proof node as serde_json writes it.
pub open spec fn node_json(n: ProofNode) -> JsonV {
    let src = opt_members("source_id"@, opt_str(n.source_id));
    let au = opt_members("authority"@, opt_str(n.authority));
    let tm = opt_members("temporal"@, match n.temporal { Some(t) => Some(fact_temporal_json(t)), None => None });
    JsonV::Object(
        seq!["id"@, "kind"@, "atom"@] + src.0 + au.0 + tm.0 + seq!["premises"@],
        seq![JsonV::Str(n.id@), JsonV::Str(kind_name(n.kind)), atom_json(n.atom@)] + src.1 + au.1 + tm.1 + seq![
            JsonV::Array(strings_json(strings_view(n.premises@))),
        ],
    )
}

fn node_to_json(n: &ProofNode) -> (j: JsonValue)
    ensures
        j@ == node_json(*n),
{
    let mut b = ObjectBuilder::new();
    b.add("id", string_value(n.id.as_str()));
    let kind = match n.kind {
        crate::certificate::ProofNodeKind::Fact => "fact",
        crate::certificate::ProofNodeKind::Derivation => "derivation",
    };
    b.add("kind", string_value(kind));
    b.add("atom", n.atom.to_json());
    let ghost k0 = b.key_views();
    let ghost v0 = b.value_views();
    add_opt_value(&mut b, "source_id", opt_string_value(&n.source_id));
    add_opt_value(&mut b, "authority", opt_string_value(&n.authority));
    let tv = match &n.temporal {
        Some(t) => Some(fact_temporal_to_json(t)),
        None => None,
    };
    add_opt_value(&mut b, "temporal", tv);
    let ghost k1 = b.key_views();
    let ghost v1 = b.value_views();
    b.add("premises", string_array(n.premises.as_slice()));
    let j = b.finish();
    proof {
        assert(k0 =~= seq!["id"@, "kind"@, "atom"@]);
        assert(v0 =~= seq![JsonV::Str(n.id@), JsonV::Str(kind_name(n.kind)), atom_json(n.atom@)]);
        assert(b.key_views() =~= k1 + seq!["premises"@]);
        assert(b.value_views() =~= v1 + seq![JsonV::Array(strings_json(strings_view(n.premises@)))]);
    }
    j
}

/// A proof as serde_json writes it.
pub open spec fn proof_json(p: Proof) -> JsonV {
    JsonV::Object(
        seq!["root"@, "nodes"@, "digest"@],
        seq![JsonV::Str(p.root@), JsonV::Array(p.nodes@.map_values(|n: ProofNode| node_json(n))), JsonV::Str(p.digest@)],
    )
}

fn proof_to_json(p: &Proof) -> (j: JsonValue)
    ensures
        j@ == proof_json(*p),
{
    let mut items: Vec<JsonValue> = Vec::new();
    let mut i: usize = 0;
    while i < p.nodes.len()
        invariant
            i <= p.nodes@.len(),
            json_views(items@) == p.nodes@.take(i as int).map_values(|n: ProofNode| node_json(n)),
        decreases p.nodes.len() - i,
    {
        let ghost before = items@;
        let v = node_to_json(&p.nodes[i]);
        items.push(v);
        proof {
            lemma_json_views_push(before, v);
            assert(p.nodes@.take(i + 1).map_values(|n: ProofNode| node_json(n)) =~= p.nodes@.take(i as int).map_values(
                |n: ProofNode| node_json(n),
            ).push(node_json(p.nodes@[i as int])));
        }
        i += 1;
    }
    proof {
        assert(p.nodes@.take(p.nodes@.len() as int) =~= p.nodes@);
    }
    let mut b = ObjectBuilder::new();
    b.add("root", string_value(p.root.as_str()));
    b.add("nodes", array_of(items));
    b.add("digest", string_value(p.digest.as_str()));
    let j = b.finish();
    proof {
        assert(b.key_views() =~= seq!["root"@, "nodes"@, "digest"@]);
        assert(b.value_views() =~= seq![
            JsonV::Str(p.root@),
            JsonV::Array(p.nodes@.map_values(|n: ProofNode| node_json(n))),
            JsonV::Str(p.digest@),
        ]);
    }
    j
}

pub open spec fn opt_proof_json(p: Option<Proof>) -> JsonV {
    match p {
        Some(x) => proof_json(x),
        None => JsonV::Null,
    }
}

fn opt_proof_to_json(p: &Option<Proof>) -> (j: JsonValue)
    ensures
        j@ == opt_proof_json(*p),
{
    match p {
        Some(x) => proof_to_json(x),
        None => JsonValue::Null,
    }
}

/// A conflict witness as serde_json writes it.
pub open spec fn conflict_json(w: ConflictWitness) -> JsonV {
    JsonV::Object(
        seq!["query"@, "complement"@, "fact_ids"@, "proof_digests"@],
        seq![
            atom_json(w.query@),
            atom_json(w.complement@),
            JsonV::Array(strings_json(strings_view(w.fact_ids@))),
            JsonV::Array(strings_json(strings_view(w.proof_digests@))),
        ],
    )
}

fn conflict_to_json(w: &Option<ConflictWitness>) -> (j: JsonValue)
    ensures
        j@ == match *w { Some(x) => conflict_json(x), None => JsonV::Null },
{
    match w {
        Some(x) => {
            let mut b = ObjectBuilder::new();
            b.add("query", x.query.to_json());
            b.add("complement", x.complement.to_json());
            b.add("fact_ids", string_array(x.fact_ids.as_slice()));
            b.add("proof_digests", string_array(x.proof_digests.as_slice()));
            let j = b.finish();
            proof {
                assert(b.key_views() =~= seq!["query"@, "complement"@, "fact_ids"@, "proof_digests"@]);
                assert(b.value_views() =~= seq![
                    atom_json(x.query@),
                    atom_json(x.complement@),
                    JsonV::Array(strings_json(strings_view(x.fact_ids@))),
                    JsonV::Array(strings_json(strings_view(x.proof_digests@))),
                ]);
            }
            j
        },
        None => JsonValue::Null,
    }
}

/// Metrics as serde_json writes them.
pub open spec fn metrics_json(m: Metrics) -> JsonV {
    JsonV::Object(
        seq!["facts_supplied"@, "facts_admitted"@, "facts_withheld"@, "facts_derived"@, "rules_evaluated"@, "rounds"@],
        seq![
            number(m.facts_supplied),
            number(m.facts_admitted),
            number(m.facts_withheld),
            number(m.facts_derived),
            number(m.rules_evaluated),
            number(m.rounds),
        ],
    )
}

fn metrics_to_json(m: &Metrics) -> (j: JsonValue)
    ensures
        j@ == metrics_json(*m),
{
    let mut b = ObjectBuilder::new();
    b.add("facts_supplied", number_value(m.facts_supplied));
    b.add("facts_admitted", number_value(m.facts_admitted));
    b.add("facts_withheld", number_value(m.facts_withheld));
    b.add("facts_derived", number_value(m.facts_derived));
    b.add("rules_evaluated", number_value(m.rules_evaluated));
    b.add("rounds", number_value(m.rounds));
    let j = b.finish();
    proof {
        assert(b.key_views() =~= seq!["facts_supplied"@, "facts_admitted"@, "facts_withheld"@, "facts_derived"@, "rules_evaluated"@, "rounds"@]);
        assert(b.value_views() =~= seq![
            number(m.facts_supplied),
            number(m.facts_admitted),
            number(m.facts_withheld),
            number(m.facts_derived),
            number(m.rules_evaluated),
            number(m.rounds),
        ]);
    }
    j
}

pub open spec fn ontology_ref_json(o: OntologyRef) -> JsonV {
    JsonV::Object(seq!["id"@, "version"@, "digest"@], seq![JsonV::Str(o.id@), JsonV::Str(o.version@), JsonV::Str(o.digest@)])
}

/// A check result as serde_json writes it; the temporal report is left out
/// when absent, and absent proofs and witness are written as null.
pub open spec fn check_result_json(r: &CheckResult) -> JsonV {
    let t = opt_members("temporal"@, match r.temporal { Some(x) => Some(temporal_report_json(&x)), None => None });
    JsonV::Object(
        seq!["schema"@, "status"@, "query"@, "program_digest"@, "ontology"@, "authority"@] + t.0 + seq![
            "proof"@,
            "disproof"@,
            "conflict"@,
            "missing"@,
            "assumptions"@,
            "metrics"@,
        ],
        seq![
            JsonV::Str(r.schema@),
            JsonV::Str(status_name(r.status)),
            atom_json(r.query@),
            JsonV::Str(r.program_digest@),
            ontology_ref_json(r.ontology),
            authority_json(&r.authority),
        ] + t.1 + seq![
            opt_proof_json(r.proof),
            opt_proof_json(r.disproof),
            match r.conflict { Some(x) => conflict_json(x), None => JsonV::Null },
            JsonV::Array(atoms_json(r.missing@)),
            JsonV::Array(strings_json(strings_view(r.assumptions@))),
            metrics_json(r.metrics),
        ],
    )
}

pub fn check_result_to_json(r: &CheckResult) -> (j: JsonValue)
    ensures
        j@ == check_result_json(r),
{
    let mut b = ObjectBuilder::new();
    b.add("schema", string_value(r.schema.as_str()));
    b.add("status", string_value(status_text(r.status)));
    b.add("query", r.query.to_json());
    b.add("program_digest", string_value(r.program_digest.as_str()));
    let mut o = ObjectBuilder::new();
    o.add("id", string_value(r.ontology.id.as_str()));
    o.add("version", string_value(r.ontology.version.as_str()));
    o.add("digest", string_value(r.ontology.digest.as_str()));
    proof {
        assert(o.key_views() =~= seq!["id"@, "version"@, "digest"@]);
        assert(o.value_views() =~= seq![JsonV::Str(r.ontology.id@), JsonV::Str(r.ontology.version@), JsonV::Str(r.ontology.digest@)]);
    }
    b.add("ontology", o.finish());
    b.add("authority", authority_to_json(&r.authority));
    let ghost k0 = b.key_views();
    let ghost v0 = b.value_views();
    let tv = match &r.temporal {
        Some(x) => Some(temporal_report_to_json(x)),
        None => None,
    };
    add_opt_value(&mut b, "temporal", tv);
    let ghost k1 = b.key_views();
    let ghost v1 = b.value_views();
    b.add("proof", opt_proof_to_json(&r.proof));
    b.add("disproof", opt_proof_to_json(&r.disproof));
    b.add("conflict", conflict_to_json(&r.conflict));
    b.add("missing", atoms_to_json(&r.missing));
    b.add("assumptions", string_array(r.assumptions.as_slice()));
    b.add("metrics", metrics_to_json(&r.metrics));
    let j = b.finish();
    proof {
        assert(k0 =~= seq!["schema"@, "status"@, "query"@, "program_digest"@, "ontology"@, "authority"@]);
        assert(v0 =~= seq![
            JsonV::Str(r.schema@),
            JsonV::Str(status_name(r.status)),
            atom_json(r.query@),
            JsonV::Str(r.program_digest@),
            ontology_ref_json(r.ontology),
            authority_json(&r.authority),
        ]);
        assert(b.key_views() =~= k1 + seq!["proof"@, "disproof"@, "conflict"@, "missing"@, "assumptions"@, "metrics"@]);
        assert(b.value_views() =~= v1 + seq![
            opt_proof_json(r.proof),
            opt_proof_json(r.disproof),
            match r.conflict { Some(x) => conflict_json(x), None => JsonV::Null },
            JsonV::Array(atoms_json(r.missing@)),
            JsonV::Array(strings_json(strings_view(r.assumptions@))),
            metrics_json(r.metrics),
        ]);
    }
    j
}

} // verus!
