use vstd::prelude::*;

use crate::collections::{all_distinct, is_sort_order, occurs, select_marked, selects, sort_order, strictly_sorted};
use crate::json::strings_view;
use crate::model::{opt_view, Atom, Fact, Program, PROGRAM_SCHEMA_V2};
use crate::report::{admits, authority_admits, collect_fact_ids, fact_ids, ids_at, lemma_selected_ids};
use crate::text::{join_sep, join_with, push_str, seq_le, seq_lt, str_eq, str_lt, string_from_chars, strings_contain};

verus! {

/// The lifecycle of a fact, as a proof certificate carries it in program v2.
pub struct FactTemporal {
    pub observed_at: String,
    pub valid_from: Option<String>,
    pub valid_until: Option<String>,
    pub supersedes: Vec<String>,
}

/// An admitted fact that is not in force at the evaluation time.
pub struct TemporallyWithheldFact {
    pub fact_id: String,
    pub atom: Atom,
    pub reason: String,
    pub superseded_by: Vec<String>,
}

/// Which admitted facts are in force at the evaluation time.
pub struct TemporalReport {
    pub evaluation_time: String,
    pub eligible_fact_ids: Vec<String>,
    pub withheld: Vec<TemporallyWithheldFact>,
}

/// The observation time of a fact (present in every validated program v2 fact).
pub open spec fn observed(f: Fact) -> Seq<char> {
    match f.observed_at {
        Some(o) => o@,
        None => Seq::empty(),
    }
}

/// Why time alone withholds a fact at evaluation time `e`: observed after
/// `e`, valid only from after `e`, or valid only until `e` or earlier (the
/// validity interval is half open).
pub open spec fn time_reason(f: Fact, e: Seq<char>) -> Option<Seq<char>> {
    if seq_lt(e, observed(f)) {
        Some("observed_at "@ + observed(f) + " is after evaluation_time "@ + e)
    } else if f.valid_from is Some && seq_lt(e, f.valid_from->0@) {
        Some("valid_from "@ + f.valid_from->0@ + " is after evaluation_time "@ + e)
    } else if f.valid_until is Some && seq_le(f.valid_until->0@, e) {
        Some("valid_until "@ + f.valid_until->0@ + " is at or before evaluation_time "@ + e)
    } else {
        None
    }
}

/// Admitted by authority and not withheld by time.
pub open spec fn base_eligible(p: &Program, f: Fact, e: Seq<char>) -> bool {
    admits(&p.authority, f) && time_reason(f, e) is None
}

/// `g` supersedes `f`: both are base-eligible and `g` names `f`.
pub open spec fn supersedes_fact(p: &Program, e: Seq<char>, g: Fact, f: Fact) -> bool {
    &&& base_eligible(p, g, e)
    &&& base_eligible(p, f, e)
    &&& strings_view(g.supersedes@).contains(f.id@)
}

/// Some fact of the program supersedes `f`.
pub open spec fn superseded(p: &Program, e: Seq<char>, f: Fact) -> bool {
    exists|j: int| 0 <= j < p.facts@.len() && #[trigger] supersedes_fact(p, e, p.facts@[j], f)
}

/// In force at `e`: base-eligible and superseded by no base-eligible fact.
pub open spec fn eligible(p: &Program, e: Seq<char>, f: Fact) -> bool {
    base_eligible(p, f, e) && !superseded(p, e, f)
}

/// `x` is the id of a fact in force at `e`.
pub open spec fn eligible_id(p: &Program, e: Seq<char>, x: Seq<char>) -> bool {
    exists|i: int| 0 <= i < p.facts@.len() && #[trigger] p.facts@[i].id@ == x && eligible(p, e, p.facts@[i])
}

/// `x` is the id of an admitted fact not in force at `e`.
pub open spec fn time_withheld_id(p: &Program, e: Seq<char>, x: Seq<char>) -> bool {
    exists|i: int|
        0 <= i < p.facts@.len() && #[trigger] p.facts@[i].id@ == x && admits(&p.authority, p.facts@[i])
            && !eligible(p, e, p.facts@[i])
}

/// `y` is the id of a fact that supersedes `f`.
pub open spec fn superseder_id(p: &Program, e: Seq<char>, f: Fact, y: Seq<char>) -> bool {
    exists|j: int| 0 <= j < p.facts@.len() && #[trigger] p.facts@[j].id@ == y && supersedes_fact(p, e, p.facts@[j], f)
}

/// `w` reports the admitted fact `f` as not in force at `e`, with its
/// superseders in ascending order and the reason: the time reason if there is
/// one, otherwise the list of superseders.
pub open spec fn describes_time_withheld(p: &Program, e: Seq<char>, f: Fact, w: TemporallyWithheldFact) -> bool {
    &&& admits(&p.authority, f)
    &&& !eligible(p, e, f)
    &&& w.fact_id@ == f.id@
    &&& w.atom@ == f.atom@
    &&& strictly_sorted(strings_view(w.superseded_by@))
    &&& forall|y: Seq<char>| #[trigger] strings_view(w.superseded_by@).contains(y) <==> superseder_id(p, e, f, y)
    &&& w.reason@ == match time_reason(f, e) {
        Some(r) => r,
        None => "superseded by "@ + join_sep(strings_view(w.superseded_by@), ", "@),
    }
}

/// `w` describes some fact of the program that is not in force at `e`.
pub open spec fn describes_some_time_withheld(p: &Program, e: Seq<char>, w: TemporallyWithheldFact) -> bool {
    exists|i: int| 0 <= i < p.facts@.len() && #[trigger] describes_time_withheld(p, e, p.facts@[i], w)
}

pub open spec fn time_withheld_ids(w: Seq<TemporallyWithheldFact>) -> Seq<Seq<char>> {
    w.map_values(|x: TemporallyWithheldFact| x.fact_id@)
}

/// The temporal report at `e`: the ids in force, and a record for every
/// admitted fact not in force, each list in ascending id order.
pub open spec fn temporal_report_ok(p: &Program, e: Seq<char>, r: &TemporalReport) -> bool {
    &&& r.evaluation_time@ == e
    &&& strictly_sorted(strings_view(r.eligible_fact_ids@))
    &&& forall|x: Seq<char>| #[trigger] strings_view(r.eligible_fact_ids@).contains(x) <==> eligible_id(p, e, x)
    &&& strictly_sorted(time_withheld_ids(r.withheld@))
    &&& forall|x: Seq<char>| #[trigger] time_withheld_ids(r.withheld@).contains(x) <==> time_withheld_id(p, e, x)
    &&& forall|k: int| 0 <= k < r.withheld@.len() ==> describes_some_time_withheld(p, e, #[trigger] r.withheld@[k])
}

/// Every fact carries an observation time, as program v2 requires.
pub open spec fn all_observed(facts: Seq<Fact>) -> bool {
    forall|i: int| 0 <= i < facts.len() ==> (#[trigger] facts[i]).observed_at is Some
}

fn time_reason_exec(f: &Fact, e: &str) -> (r: Option<String>)
    requires
        f.observed_at is Some,
    ensures
        opt_view(r) == time_reason(*f, e@),
{
    let observed_at = match &f.observed_at {
        Some(o) => o,
        None => {
            return None;
        },
    };
    if str_lt(e, observed_at.as_str()) {
        let mut out: Vec<char> = Vec::new();
        push_str(&mut out, "observed_at ");
        push_str(&mut out, observed_at.as_str());
        push_str(&mut out, " is after evaluation_time ");
        push_str(&mut out, e);
        return Some(string_from_chars(out.as_slice()));
    }
    if let Some(from) = &f.valid_from {
        if str_lt(e, from.as_str()) {
            let mut out: Vec<char> = Vec::new();
            push_str(&mut out, "valid_from ");
            push_str(&mut out, from.as_str());
            push_str(&mut out, " is after evaluation_time ");
            push_str(&mut out, e);
            return Some(string_from_chars(out.as_slice()));
        }
    }
    if let Some(until) = &f.valid_until {
        if str_lt(until.as_str(), e) || str_eq(until.as_str(), e) {
            let mut out: Vec<char> = Vec::new();
            push_str(&mut out, "valid_until ");
            push_str(&mut out, until.as_str());
            push_str(&mut out, " is at or before evaluation_time ");
            push_str(&mut out, e);
            return Some(string_from_chars(out.as_slice()));
        }
    }
    None
}

/// For each fact, whether it is base-eligible at `e`.
fn base_flags(program: &Program, e: &str) -> (flags: Vec<bool>)
    requires
        all_observed(program.facts@),
    ensures
        flags@.len() == program.facts@.len(),
        forall|i: int| 0 <= i < flags@.len() ==> #[trigger] flags@[i] == base_eligible(program, program.facts@[i], e@),
{
    let mut flags: Vec<bool> = Vec::new();
    let mut i: usize = 0;
    while i < program.facts.len()
        invariant
            all_observed(program.facts@),
            i <= program.facts@.len(),
            flags@.len() == i,
            forall|k: int| 0 <= k < i ==> #[trigger] flags@[k] == base_eligible(program, program.facts@[k], e@),
        decreases program.facts.len() - i,
    {
        let f = &program.facts[i];
        let b = authority_admits(&program.authority, f) && time_reason_exec(f, e).is_none();
        flags.push(b);
        i += 1;
    }
    flags
}

/// For each fact, whether some base-eligible fact supersedes it.
fn superseded_flags(program: &Program, e: &str, base: &Vec<bool>) -> (flags: Vec<bool>)
    requires
        base@.len() == program.facts@.len(),
        forall|i: int| 0 <= i < base@.len() ==> #[trigger] base@[i] == base_eligible(program, program.facts@[i], e@),
    ensures
        flags@.len() == program.facts@.len(),
        forall|i: int| 0 <= i < flags@.len() ==> #[trigger] flags@[i] == superseded(program, e@, program.facts@[i]),
{
    let facts = &program.facts;
    let mut flags: Vec<bool> = Vec::new();
    let mut i: usize = 0;
    while i < facts.len()
        invariant
            facts == &program.facts,
            base@.len() == facts@.len(),
            forall|k: int| 0 <= k < base@.len() ==> #[trigger] base@[k] == base_eligible(program, facts@[k], e@),
            i <= facts@.len(),
            flags@.len() == i,
            forall|k: int| 0 <= k < i ==> #[trigger] flags@[k] == superseded(program, e@, facts@[k]),
        decreases facts.len() - i,
    {
        let mut found = false;
        let mut j: usize = 0;
        while j < facts.len()
            invariant
                facts == &program.facts,
                base@.len() == facts@.len(),
                forall|k: int| 0 <= k < base@.len() ==> #[trigger] base@[k] == base_eligible(program, facts@[k], e@),
                i < facts@.len(),
                j <= facts@.len(),
                found == exists|m: int| 0 <= m < j && #[trigger] supersedes_fact(program, e@, facts@[m], facts@[i as int]),
            decreases facts.len() - j,
        {
            if base[i] && base[j] && strings_contain(&facts[j].supersedes, facts[i].id.as_str()) {
                assert(supersedes_fact(program, e@, facts@[j as int], facts@[i as int]));
                found = true;
            }
            j += 1;
        }
        flags.push(found);
        i += 1;
    }
    flags
}

/// The superseders of fact `i`, in ascending id order.
fn superseders_of(
    program: &Program,
    e: &str,
    i: usize,
    order: &Vec<usize>,
    base: &Vec<bool>,
) -> (out: Vec<String>)
    requires
        i < program.facts@.len(),
        is_sort_order(fact_ids(program.facts@), order@),
        base@.len() == program.facts@.len(),
        forall|k: int| 0 <= k < base@.len() ==> #[trigger] base@[k] == base_eligible(program, program.facts@[k], e@),
    ensures
        strictly_sorted(strings_view(out@)),
        forall|y: Seq<char>| #[trigger] strings_view(out@).contains(y) <==> superseder_id(program, e@, program.facts@[i as int], y),
{
    let facts = &program.facts;
    let mut marks: Vec<bool> = Vec::new();
    let mut j: usize = 0;
    while j < facts.len()
        invariant
            facts == &program.facts,
            i < facts@.len(),
            base@.len() == facts@.len(),
            forall|k: int| 0 <= k < base@.len() ==> #[trigger] base@[k] == base_eligible(program, facts@[k], e@),
            j <= facts@.len(),
            marks@.len() == j,
            forall|m: int| 0 <= m < j ==> #[trigger] marks@[m] == supersedes_fact(program, e@, facts@[m], facts@[i as int]),
        decreases facts.len() - j,
    {
        let b = base[i] && base[j] && strings_contain(&facts[j].supersedes, facts[i].id.as_str());
        marks.push(b);
        j += 1;
    }
    let sel = select_marked(order, &marks, Ghost(fact_ids(facts@)));
    let out = ids_at(facts, &sel);
    proof {
        lemma_selected_ids(facts@, marks@, sel@, strings_view(out@));
        assert forall|y: Seq<char>| #[trigger] strings_view(out@).contains(y) <==> superseder_id(program, e@, facts@[i as int], y) by {
            if strings_view(out@).contains(y) {
                let m = choose|m: int| 0 <= m < facts@.len() && #[trigger] facts@[m].id@ == y && marks@[m];
                assert(supersedes_fact(program, e@, facts@[m], facts@[i as int]));
            }
            if superseder_id(program, e@, facts@[i as int], y) {
                let m = choose|m: int| 0 <= m < facts@.len() && #[trigger] facts@[m].id@ == y && supersedes_fact(program, e@, facts@[m], facts@[i as int]);
                assert(marks@[m]);
            }
        }
    }
    out
}


/// Reports, for program v2, which admitted facts are in force at the
/// evaluation time and why each other admitted fact is not; `None` for v1.
pub fn build_temporal_report(program: &Program) -> (r: Option<TemporalReport>)
    requires
        all_distinct(fact_ids(program.facts@)),
        program.schema@ == PROGRAM_SCHEMA_V2@ ==> program.evaluation_time is Some && all_observed(program.facts@),
    ensures
        r is Some <==> program.schema@ == PROGRAM_SCHEMA_V2@,
        r matches Some(t) ==> temporal_report_ok(program, program.evaluation_time->0@, &t),
{
    if !str_eq(program.schema.as_str(), PROGRAM_SCHEMA_V2) {
        return None;
    }
    let e: String = match &program.evaluation_time {
        Some(t) => t.clone(),
        None => {
            return None;
        },
    };
    let ghost ev = e@;
    let facts = &program.facts;
    let ids = collect_fact_ids(facts);
    let order = sort_order(&ids);
    let base = base_flags(program, e.as_str());
    let sup = superseded_flags(program, e.as_str(), &base);
    let mut elig: Vec<bool> = Vec::new();
    let mut held: Vec<bool> = Vec::new();
    let mut i: usize = 0;
    while i < facts.len()
        invariant
            facts == &program.facts,
            base@.len() == facts@.len(),
            sup@.len() == facts@.len(),
            forall|k: int| 0 <= k < base@.len() ==> #[trigger] base@[k] == base_eligible(program, facts@[k], ev),
            forall|k: int| 0 <= k < sup@.len() ==> #[trigger] sup@[k] == superseded(program, ev, facts@[k]),
            i <= facts@.len(),
            elig@.len() == i,
            held@.len() == i,
            forall|k: int| 0 <= k < i ==> #[trigger] elig@[k] == eligible(program, ev, facts@[k]),
            forall|k: int| 0 <= k < i ==> #[trigger] held@[k] == (admits(&program.authority, facts@[k]) && !eligible(program, ev, facts@[k])),
        decreases facts.len() - i,
    {
        let el = base[i] && !sup[i];
        elig.push(el);
        held.push(authority_admits(&program.authority, &facts[i]) && !el);
        i += 1;
    }
    let sel_e = select_marked(&order, &elig, Ghost(fact_ids(facts@)));
    let eligible_fact_ids = ids_at(facts, &sel_e);
    proof {
        lemma_selected_ids(facts@, elig@, sel_e@, strings_view(eligible_fact_ids@));
        assert forall|x: Seq<char>| #[trigger] strings_view(eligible_fact_ids@).contains(x) <==> eligible_id(program, ev, x) by {
            if strings_view(eligible_fact_ids@).contains(x) {
                let m = choose|m: int| 0 <= m < facts@.len() && #[trigger] facts@[m].id@ == x && elig@[m];
                assert(eligible(program, ev, facts@[m]));
            }
            if eligible_id(program, ev, x) {
                let m = choose|m: int| 0 <= m < facts@.len() && #[trigger] facts@[m].id@ == x && eligible(program, ev, facts@[m]);
                assert(elig@[m]);
            }
        }
    }
    let sel_w = select_marked(&order, &held, Ghost(fact_ids(facts@)));
    let mut withheld: Vec<TemporallyWithheldFact> = Vec::new();
    let mut k: usize = 0;
    while k < sel_w.len()
        invariant
            facts == &program.facts,
            e@ == ev,
            ev == program.evaluation_time->0@,
            program.schema@ == PROGRAM_SCHEMA_V2@ ==> all_observed(program.facts@),
            program.schema@ == PROGRAM_SCHEMA_V2@,
            is_sort_order(fact_ids(facts@), order@),
            base@.len() == facts@.len(),
            forall|m: int| 0 <= m < base@.len() ==> #[trigger] base@[m] == base_eligible(program, facts@[m], ev),
            selects(fact_ids(facts@), held@, sel_w@),
            held@.len() == facts@.len(),
            forall|m: int| 0 <= m < held@.len() ==> #[trigger] held@[m] == (admits(&program.authority, facts@[m]) && !eligible(program, ev, facts@[m])),
            k <= sel_w@.len(),
            withheld@.len() == k,
            forall|a: int| 0 <= a < k ==> #[trigger] time_withheld_ids(withheld@)[a] == facts@[sel_w@[a] as int].id@,
            forall|a: int| 0 <= a < k ==> describes_time_withheld(program, ev, facts@[sel_w@[a] as int], #[trigger] withheld@[a]),
        decreases sel_w.len() - k,
    {
        let idx = sel_w[k];
        assert(sel_w@[k as int] < facts@.len() && held@[sel_w@[k as int] as int]);
        let f = &facts[idx];
        let superseded_by = superseders_of(program, e.as_str(), idx, &order, &base);
        let reason = match time_reason_exec(f, e.as_str()) {
            Some(r) => r,
            None => {
                let list = join_with(&superseded_by, ", ");
                let mut out: Vec<char> = Vec::new();
                push_str(&mut out, "superseded by ");
                push_str(&mut out, list.as_str());
                string_from_chars(out.as_slice())
            },
        };
        let w = TemporallyWithheldFact {
            fact_id: f.id.clone(),
            atom: f.atom.duplicate(),
            reason,
            superseded_by,
        };
        let ghost before = withheld@;
        withheld.push(w);
        proof {
            assert(describes_time_withheld(program, ev, facts@[idx as int], w));
            assert forall|a: int| 0 <= a < k + 1 implies #[trigger] time_withheld_ids(withheld@)[a] == facts@[sel_w@[a] as int].id@ by {
                if a < k {
                    assert(time_withheld_ids(before)[a] == facts@[sel_w@[a] as int].id@);
                    assert(withheld@[a] == before[a]);
                }
            }
            assert forall|a: int| 0 <= a < k + 1 implies describes_time_withheld(program, ev, facts@[sel_w@[a] as int], #[trigger] withheld@[a]) by {
                if a < k {
                    assert(withheld@[a] == before[a]);
                }
            }
        }
        k += 1;
    }
    let r = TemporalReport { evaluation_time: e, eligible_fact_ids, withheld };
    proof {
        let wids = time_withheld_ids(r.withheld@);
        lemma_selected_ids(facts@, held@, sel_w@, wids);
        assert forall|x: Seq<char>| #[trigger] wids.contains(x) <==> time_withheld_id(program, ev, x) by {
            if wids.contains(x) {
                let m = choose|m: int| 0 <= m < facts@.len() && #[trigger] facts@[m].id@ == x && held@[m];
                assert(admits(&program.authority, facts@[m]) && !eligible(program, ev, facts@[m]));
            }
            if time_withheld_id(program, ev, x) {
                let m = choose|m: int| 0 <= m < facts@.len() && #[trigger] facts@[m].id@ == x && admits(&program.authority, facts@[m]) && !eligible(program, ev, facts@[m]);
                assert(held@[m]);
            }
        }
        assert forall|a: int| 0 <= a < r.withheld@.len() implies describes_some_time_withheld(program, ev, #[trigger] r.withheld@[a]) by {
            assert(describes_time_withheld(program, ev, facts@[sel_w@[a] as int], r.withheld@[a]));
        }
    }
    Some(r)
}

} // verus!
