use vstd::prelude::*;

use crate::model::{atom_eq, opt_view, AtomV};
use crate::reasoning::{conflict_ok, ConflictWitness};
use crate::report::{authority_report_ok, describes_some_withheld, describes_withheld, withheld_ids, AuthorityReport, WithheldFact};
use crate::temporal::{
    describes_some_time_withheld, describes_time_withheld, temporal_report_ok, time_withheld_ids, FactTemporal,
    TemporalReport, TemporallyWithheldFact,
};
use crate::text::{str_eq, strings_view};

verus! {

/// Whether two lists of strings hold the same strings in the same order.
pub fn strings_eq(a: &Vec<String>, b: &Vec<String>) -> (r: bool)
    ensures
        r == (strings_view(a@) == strings_view(b@)),
{
    if a.len() != b.len() {
        return false;
    }
    let mut i: usize = 0;
    while i < a.len()
        invariant
            a@.len() == b@.len(),
            i <= a@.len(),
            forall|k: int| 0 <= k < i ==> a@[k]@ == b@[k]@,
        decreases a.len() - i,
    {
        if !str_eq(a[i].as_str(), b[i].as_str()) {
            assert(strings_view(a@)[i as int] != strings_view(b@)[i as int]);
            return false;
        }
        i += 1;
    }
    assert(strings_view(a@) =~= strings_view(b@));
    true
}

pub fn opt_string_eq(a: &Option<String>, b: &Option<String>) -> (r: bool)
    ensures
        r == (opt_view(*a) == opt_view(*b)),
{
    match (a, b) {
        (Some(x), Some(y)) => str_eq(x.as_str(), y.as_str()),
        (None, None) => true,
        _ => false,
    }
}

/// Whether two optional lifecycle records have the same contents.
pub fn temporal_eq(a: &Option<FactTemporal>, b: &Option<FactTemporal>) -> (r: bool)
    ensures
        r == (crate::certificate::temporal_view(*a) == crate::certificate::temporal_view(*b)),
{
    match (a, b) {
        (Some(x), Some(y)) => {
            str_eq(x.observed_at.as_str(), y.observed_at.as_str()) && opt_string_eq(&x.valid_from, &y.valid_from)
                && opt_string_eq(&x.valid_until, &y.valid_until) && strings_eq(&x.supersedes, &y.supersedes)
        },
        (None, None) => true,
        _ => false,
    }
}

pub open spec fn withheld_view(w: WithheldFact) -> (Seq<char>, AtomV, Seq<char>, Seq<Seq<char>>, Seq<char>) {
    (w.fact_id@, w.atom@, w.authority@, strings_view(w.admitted_authorities@), w.reason@)
}

pub open spec fn withheld_views(s: Seq<WithheldFact>) -> Seq<(Seq<char>, AtomV, Seq<char>, Seq<Seq<char>>, Seq<char>)> {
    s.map_values(|w: WithheldFact| withheld_view(w))
}

/// The contents of an authority report.
pub open spec fn authority_view(r: &AuthorityReport) -> (Seq<char>, Seq<Seq<char>>, Seq<(Seq<char>, AtomV, Seq<char>, Seq<Seq<char>>, Seq<char>)>) {
    (r.policy_digest@, strings_view(r.admitted_fact_ids@), withheld_views(r.withheld@))
}

fn withheld_eq(a: &WithheldFact, b: &WithheldFact) -> (r: bool)
    ensures
        r == (withheld_view(*a) == withheld_view(*b)),
{
    str_eq(a.fact_id.as_str(), b.fact_id.as_str()) && atom_eq(&a.atom, &b.atom) && str_eq(a.authority.as_str(), b.authority.as_str())
        && strings_eq(&a.admitted_authorities, &b.admitted_authorities) && str_eq(a.reason.as_str(), b.reason.as_str())
}

/// Whether two authority reports have the same contents.
pub fn authority_eq(a: &AuthorityReport, b: &AuthorityReport) -> (r: bool)
    ensures
        r == (authority_view(a) == authority_view(b)),
{
    if !str_eq(a.policy_digest.as_str(), b.policy_digest.as_str()) || !strings_eq(&a.admitted_fact_ids, &b.admitted_fact_ids) {
        return false;
    }
    if a.withheld.len() != b.withheld.len() {
        assert(withheld_views(a.withheld@).len() != withheld_views(b.withheld@).len());
        return false;
    }
    let mut i: usize = 0;
    while i < a.withheld.len()
        invariant
            a.withheld@.len() == b.withheld@.len(),
            i <= a.withheld@.len(),
            forall|k: int| 0 <= k < i ==> withheld_view(#[trigger] a.withheld@[k]) == withheld_view(b.withheld@[k]),
        decreases a.withheld.len() - i,
    {
        if !withheld_eq(&a.withheld[i], &b.withheld[i]) {
            assert(withheld_views(a.withheld@)[i as int] != withheld_views(b.withheld@)[i as int]);
            return false;
        }
        i += 1;
    }
    assert(withheld_views(a.withheld@) =~= withheld_views(b.withheld@));
    true
}

/// A report with the contents of a correct report is correct.
pub proof fn lemma_authority_view_ok(p: &crate::model::Program, a: &AuthorityReport, b: &AuthorityReport)
    requires
        authority_report_ok(p, a),
        authority_view(a) == authority_view(b),
    ensures
        authority_report_ok(p, b),
{
    assert(withheld_views(a.withheld@) == withheld_views(b.withheld@));
    assert(a.withheld@.len() == withheld_views(a.withheld@).len());
    assert(b.withheld@.len() == withheld_views(b.withheld@).len());
    assert(withheld_ids(b.withheld@) =~= withheld_ids(a.withheld@)) by {
        assert forall|k: int| 0 <= k < b.withheld@.len() implies #[trigger] withheld_ids(b.withheld@)[k] == withheld_ids(a.withheld@)[k] by {
            assert(withheld_views(a.withheld@)[k] == withheld_views(b.withheld@)[k]);
        }
    }
    assert forall|k: int| 0 <= k < b.withheld@.len() implies describes_some_withheld(p, #[trigger] b.withheld@[k]) by {
        assert(withheld_views(a.withheld@)[k] == withheld_views(b.withheld@)[k]);
        assert(describes_some_withheld(p, a.withheld@[k]));
        let i = choose|i: int| 0 <= i < p.facts@.len() && #[trigger] describes_withheld(&p.authority, p.facts@[i], a.withheld@[k]);
        assert(describes_withheld(&p.authority, p.facts@[i], b.withheld@[k]));
    }
}

pub open spec fn time_withheld_view(w: TemporallyWithheldFact) -> (Seq<char>, AtomV, Seq<char>, Seq<Seq<char>>) {
    (w.fact_id@, w.atom@, w.reason@, strings_view(w.superseded_by@))
}

pub open spec fn time_withheld_views(s: Seq<TemporallyWithheldFact>) -> Seq<(Seq<char>, AtomV, Seq<char>, Seq<Seq<char>>)> {
    s.map_values(|w: TemporallyWithheldFact| time_withheld_view(w))
}

/// The contents of an optional temporal report.
pub open spec fn temporal_report_view(r: Option<TemporalReport>) -> Option<(Seq<char>, Seq<Seq<char>>, Seq<(Seq<char>, AtomV, Seq<char>, Seq<Seq<char>>)>)> {
    match r {
        Some(t) => Some((t.evaluation_time@, strings_view(t.eligible_fact_ids@), time_withheld_views(t.withheld@))),
        None => None,
    }
}

fn time_withheld_eq(a: &TemporallyWithheldFact, b: &TemporallyWithheldFact) -> (r: bool)
    ensures
        r == (time_withheld_view(*a) == time_withheld_view(*b)),
{
    str_eq(a.fact_id.as_str(), b.fact_id.as_str()) && atom_eq(&a.atom, &b.atom) && str_eq(a.reason.as_str(), b.reason.as_str())
        && strings_eq(&a.superseded_by, &b.superseded_by)
}

/// Whether two optional temporal reports have the same contents.
pub fn temporal_report_eq(a: &Option<TemporalReport>, b: &Option<TemporalReport>) -> (r: bool)
    ensures
        r == (temporal_report_view(*a) == temporal_report_view(*b)),
{
    match (a, b) {
        (Some(x), Some(y)) => {
            if !str_eq(x.evaluation_time.as_str(), y.evaluation_time.as_str()) || !strings_eq(&x.eligible_fact_ids, &y.eligible_fact_ids) {
                return false;
            }
            if x.withheld.len() != y.withheld.len() {
                assert(time_withheld_views(x.withheld@).len() != time_withheld_views(y.withheld@).len());
                return false;
            }
            let mut i: usize = 0;
            while i < x.withheld.len()
                invariant
                    temporal_report_view(*a) == Some((x.evaluation_time@, strings_view(x.eligible_fact_ids@), time_withheld_views(x.withheld@))),
                    temporal_report_view(*b) == Some((y.evaluation_time@, strings_view(y.eligible_fact_ids@), time_withheld_views(y.withheld@))),
                    x.withheld@.len() == y.withheld@.len(),
                    i <= x.withheld@.len(),
                    forall|k: int| 0 <= k < i ==> time_withheld_view(#[trigger] x.withheld@[k]) == time_withheld_view(y.withheld@[k]),
                decreases x.withheld.len() - i,
            {
                if !time_withheld_eq(&x.withheld[i], &y.withheld[i]) {
                    assert(time_withheld_views(x.withheld@)[i as int] != time_withheld_views(y.withheld@)[i as int]);
                    assert(time_withheld_views(x.withheld@) != time_withheld_views(y.withheld@));
                    return false;
                }
                i += 1;
            }
            assert(time_withheld_views(x.withheld@) =~= time_withheld_views(y.withheld@));
            true
        },
        (None, None) => true,
        _ => false,
    }
}

/// A temporal report with the contents of a correct report is correct.
pub proof fn lemma_temporal_view_ok(p: &crate::model::Program, e: Seq<char>, a: TemporalReport, b: TemporalReport)
    requires
        temporal_report_ok(p, e, &a),
        temporal_report_view(Some(a)) == temporal_report_view(Some(b)),
    ensures
        temporal_report_ok(p, e, &b),
{
    assert(time_withheld_views(a.withheld@) == time_withheld_views(b.withheld@));
    assert(a.withheld@.len() == time_withheld_views(a.withheld@).len());
    assert(b.withheld@.len() == time_withheld_views(b.withheld@).len());
    assert(time_withheld_ids(b.withheld@) =~= time_withheld_ids(a.withheld@)) by {
        assert forall|k: int| 0 <= k < b.withheld@.len() implies #[trigger] time_withheld_ids(b.withheld@)[k] == time_withheld_ids(a.withheld@)[k] by {
            assert(time_withheld_views(a.withheld@)[k] == time_withheld_views(b.withheld@)[k]);
        }
    }
    assert forall|k: int| 0 <= k < b.withheld@.len() implies describes_some_time_withheld(p, e, #[trigger] b.withheld@[k]) by {
        assert(time_withheld_views(a.withheld@)[k] == time_withheld_views(b.withheld@)[k]);
        assert(describes_some_time_withheld(p, e, a.withheld@[k]));
        let i = choose|i: int| 0 <= i < p.facts@.len() && #[trigger] describes_time_withheld(p, e, p.facts@[i], a.withheld@[k]);
        assert(describes_time_withheld(p, e, p.facts@[i], b.withheld@[k]));
    }
}

/// The contents of a conflict witness.
pub open spec fn conflict_view(w: &ConflictWitness) -> (AtomV, AtomV, Seq<Seq<char>>, Seq<Seq<char>>) {
    (w.query@, w.complement@, strings_view(w.fact_ids@), strings_view(w.proof_digests@))
}

/// Whether two conflict witnesses have the same contents.
pub fn conflict_eq(a: &ConflictWitness, b: &ConflictWitness) -> (r: bool)
    ensures
        r == (conflict_view(a) == conflict_view(b)),
{
    atom_eq(&a.query, &b.query) && atom_eq(&a.complement, &b.complement) && strings_eq(&a.fact_ids, &b.fact_ids)
        && strings_eq(&a.proof_digests, &b.proof_digests)
}

/// A witness with the contents of a correct witness is correct.
pub proof fn lemma_conflict_view_ok(
    a: &ConflictWitness,
    b: &ConflictWitness,
    q: AtomV,
    proof: &crate::certificate::Proof,
    disproof: &crate::certificate::Proof,
)
    requires
        conflict_ok(a, q, proof, disproof),
        conflict_view(a) == conflict_view(b),
    ensures
        conflict_ok(b, q, proof, disproof),
{
}

/// Two entries that describe facts with the same id, among facts with
/// distinct ids, describe the same fact.
proof fn lemma_same_fact(p: &crate::model::Program, i: int, j: int)
    requires
        crate::collections::all_distinct(crate::report::fact_ids(p.facts@)),
        0 <= i < p.facts@.len(),
        0 <= j < p.facts@.len(),
        p.facts@[i].id@ == p.facts@[j].id@,
    ensures
        i == j,
{
    assert(crate::report::fact_ids(p.facts@)[i] == p.facts@[i].id@);
    assert(crate::report::fact_ids(p.facts@)[j] == p.facts@[j].id@);
}

/// A program has one authority report.
pub proof fn lemma_authority_unique(p: &crate::model::Program, a: &AuthorityReport, b: &AuthorityReport)
    requires
        crate::collections::all_distinct(crate::report::fact_ids(p.facts@)),
        authority_report_ok(p, a),
        authority_report_ok(p, b),
    ensures
        authority_view(a) == authority_view(b),
{
    crate::collections::lemma_sorted_same_members(strings_view(a.admitted_fact_ids@), strings_view(b.admitted_fact_ids@));
    crate::collections::lemma_sorted_same_members(withheld_ids(a.withheld@), withheld_ids(b.withheld@));
    assert(withheld_views(a.withheld@) =~= withheld_views(b.withheld@)) by {
        assert(withheld_ids(a.withheld@).len() == withheld_ids(b.withheld@).len());
        assert forall|k: int| 0 <= k < a.withheld@.len() implies #[trigger] withheld_views(a.withheld@)[k] == withheld_views(
            b.withheld@,
        )[k] by {
            let wa = a.withheld@[k];
            let wb = b.withheld@[k];
            assert(withheld_ids(a.withheld@)[k] == wa.fact_id@);
            assert(withheld_ids(b.withheld@)[k] == wb.fact_id@);
            assert(describes_some_withheld(p, wa));
            assert(describes_some_withheld(p, wb));
            let i = choose|i: int| 0 <= i < p.facts@.len() && #[trigger] describes_withheld(&p.authority, p.facts@[i], wa);
            let j = choose|j: int| 0 <= j < p.facts@.len() && #[trigger] describes_withheld(&p.authority, p.facts@[j], wb);
            lemma_same_fact(p, i, j);
        }
    }
}

/// A program has one temporal report at a time.
pub proof fn lemma_temporal_unique(p: &crate::model::Program, e: Seq<char>, a: &TemporalReport, b: &TemporalReport)
    requires
        crate::collections::all_distinct(crate::report::fact_ids(p.facts@)),
        temporal_report_ok(p, e, a),
        temporal_report_ok(p, e, b),
    ensures
        temporal_report_view(Some(*a)) == temporal_report_view(Some(*b)),
{
    crate::collections::lemma_sorted_same_members(strings_view(a.eligible_fact_ids@), strings_view(b.eligible_fact_ids@));
    crate::collections::lemma_sorted_same_members(time_withheld_ids(a.withheld@), time_withheld_ids(b.withheld@));
    assert(time_withheld_views(a.withheld@) =~= time_withheld_views(b.withheld@)) by {
        assert(time_withheld_ids(a.withheld@).len() == time_withheld_ids(b.withheld@).len());
        assert forall|k: int| 0 <= k < a.withheld@.len() implies #[trigger] time_withheld_views(a.withheld@)[k]
            == time_withheld_views(b.withheld@)[k] by {
            let wa = a.withheld@[k];
            let wb = b.withheld@[k];
            assert(time_withheld_ids(a.withheld@)[k] == wa.fact_id@);
            assert(time_withheld_ids(b.withheld@)[k] == wb.fact_id@);
            assert(describes_some_time_withheld(p, e, wa));
            assert(describes_some_time_withheld(p, e, wb));
            let i = choose|i: int| 0 <= i < p.facts@.len() && #[trigger] describes_time_withheld(p, e, p.facts@[i], wa);
            let j = choose|j: int| 0 <= j < p.facts@.len() && #[trigger] describes_time_withheld(p, e, p.facts@[j], wb);
            lemma_same_fact(p, i, j);
            crate::collections::lemma_sorted_same_members(strings_view(wa.superseded_by@), strings_view(wb.superseded_by@));
        }
    }
}

/// A proof and a disproof have one conflict witness.
pub proof fn lemma_conflict_unique(a: &ConflictWitness, b: &ConflictWitness, q: AtomV, proof: &crate::certificate::Proof, disproof: &crate::certificate::Proof)
    requires
        conflict_ok(a, q, proof, disproof),
        conflict_ok(b, q, proof, disproof),
    ensures
        conflict_view(a) == conflict_view(b),
{
    crate::collections::lemma_sorted_same_members(strings_view(a.fact_ids@), strings_view(b.fact_ids@));
}

} // verus!
