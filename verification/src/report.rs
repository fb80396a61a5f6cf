use vstd::prelude::*;

use crate::collections::{all_distinct, is_sort_order, occurs, selects, sort_order, strictly_sorted, StrMap, StrSet};
use crate::json::{
    json_views, lemma_json_views_push, string_array, string_value, strings_json, strings_view,
    JsonV, JsonValue, ObjectBuilder,
};
use crate::model::{atom_json, clone_strings, AtomV, Atom, AuthorityPolicy, Fact, Program, set_json};
use crate::text::{debug_text, push_debug, push_str, seq_lt, string_from_chars};

verus! {

/// A fact whose authority class is not admitted for its predicate.
pub struct WithheldFact {
    pub fact_id: String,
    pub atom: Atom,
    pub authority: String,
    pub admitted_authorities: Vec<String>,
    pub reason: String,
}

/// Which facts the authority policy admits, and why others are withheld.
pub struct AuthorityReport {
    pub policy_digest: String,
    pub admitted_fact_ids: Vec<String>,
    pub withheld: Vec<WithheldFact>,
}

/// The authority classes admitted for a predicate: its own list if it has
/// one, the default list otherwise.
pub open spec fn admitted_set(policy: &AuthorityPolicy, predicate: Seq<char>) -> StrSet {
    match policy.predicate_admit.spec_get(predicate) {
        Some(s) => s,
        None => policy.default_admit,
    }
}

/// Whether the policy admits a fact's authority for its predicate.
pub open spec fn admits(policy: &AuthorityPolicy, f: Fact) -> bool {
    admitted_set(policy, f.atom.predicate@).has(f.authority@)
}

pub fn admitted_authorities<'a>(policy: &'a AuthorityPolicy, predicate: &str) -> (s: &'a StrSet)
    ensures
        *s == admitted_set(policy, predicate@),
{
    match policy.predicate_admit.get(predicate) {
        Some(s) => s,
        None => &policy.default_admit,
    }
}

pub fn authority_admits(policy: &AuthorityPolicy, fact: &Fact) -> (b: bool)
    ensures
        b == admits(policy, *fact),
{
    admitted_authorities(policy, fact.atom.predicate.as_str()).contains(fact.authority.as_str())
}

/// Why a fact is withheld by authority.
pub open spec fn authority_reason(f: Fact) -> Seq<char> {
    "authority "@ + debug_text(f.authority@) + " is not admitted for predicate "@ + debug_text(
        f.atom.predicate@,
    )
}

/// `w` reports fact `f` as withheld by `policy`.
pub open spec fn describes_withheld(policy: &AuthorityPolicy, f: Fact, w: WithheldFact) -> bool {
    &&& !admits(policy, f)
    &&& w.fact_id@ == f.id@
    &&& w.atom@ == f.atom@
    &&& w.authority@ == f.authority@
    &&& strings_view(w.admitted_authorities@) == admitted_set(policy, f.atom.predicate@).view_seq()
    &&& w.reason@ == authority_reason(f)
}

pub open spec fn fact_ids(facts: Seq<Fact>) -> Seq<Seq<char>> {
    facts.map_values(|f: Fact| f.id@)
}

pub open spec fn withheld_ids(w: Seq<WithheldFact>) -> Seq<Seq<char>> {
    w.map_values(|x: WithheldFact| x.fact_id@)
}

/// The authority report of a program: the policy digest, the admitted fact
/// ids, and a record for every withheld fact, each list in ascending id order.
pub open spec fn authority_report_ok(p: &Program, r: &AuthorityReport) -> bool {
    let facts = p.facts@;
    &&& r.policy_digest@ == crate::model::json_digest(crate::model::policy_json(&p.authority))
    &&& strictly_sorted(strings_view(r.admitted_fact_ids@))
    &&& forall|x: Seq<char>| #[trigger] strings_view(r.admitted_fact_ids@).contains(x) <==> admitted_id(p, x)
    &&& strictly_sorted(withheld_ids(r.withheld@))
    &&& forall|x: Seq<char>| #[trigger] withheld_ids(r.withheld@).contains(x) <==> withheld_id(p, x)
    &&& forall|k: int| 0 <= k < r.withheld@.len() ==> describes_some_withheld(p, #[trigger] r.withheld@[k])
}

/// The ids of the facts, in order.
pub fn collect_fact_ids(facts: &Vec<Fact>) -> (ids: Vec<String>)
    ensures
        strings_view(ids@) == fact_ids(facts@),
{
    let mut ids: Vec<String> = Vec::new();
    let mut i: usize = 0;
    while i < facts.len()
        invariant
            i <= facts@.len(),
            strings_view(ids@) == fact_ids(facts@.take(i as int)),
        decreases facts.len() - i,
    {
        let ghost before = ids@;
        ids.push(facts[i].id.clone());
        proof {
            assert(strings_view(ids@) =~= strings_view(before).push(facts@[i as int].id@));
            assert(fact_ids(facts@.take(i + 1)) =~= fact_ids(facts@.take(i as int)).push(facts@[i as int].id@));
        }
        i += 1;
    }
    proof {
        assert(facts@.take(facts@.len() as int) =~= facts@);
    }
    ids
}

fn authority_reason_exec(f: &Fact) -> (s: String)
    ensures
        s@ == authority_reason(*f),
{
    let mut out: Vec<char> = Vec::new();
    push_str(&mut out, "authority ");
    push_debug(&mut out, f.authority.as_str());
    push_str(&mut out, " is not admitted for predicate ");
    push_debug(&mut out, f.atom.predicate.as_str());
    string_from_chars(out.as_slice())
}

pub fn set_items(s: &StrSet) -> (v: Vec<String>)
    ensures
        strings_view(v@) == s.view_seq(),
{
    let mut out: Vec<String> = Vec::new();
    let mut i: usize = 0;
    while i < s.len()
        invariant
            i <= s.view_seq().len(),
            strings_view(out@) == s.view_seq().take(i as int),
        decreases s.view_seq().len() - i,
    {
        let ghost before = out@;
        out.push(s.get(i).clone());
        proof {
            assert(strings_view(out@) =~= strings_view(before).push(s.view_seq()[i as int]));
            assert(s.view_seq().take(i + 1) =~= s.view_seq().take(i as int).push(s.view_seq()[i as int]));
        }
        i += 1;
    }
    proof {
        assert(s.view_seq().take(s.view_seq().len() as int) =~= s.view_seq());
    }
    out
}

/// `x` is the id of a fact the policy admits.
pub open spec fn admitted_id(p: &Program, x: Seq<char>) -> bool {
    exists|i: int| 0 <= i < p.facts@.len() && #[trigger] p.facts@[i].id@ == x && admits(&p.authority, p.facts@[i])
}

/// `x` is the id of a fact the policy withholds.
pub open spec fn withheld_id(p: &Program, x: Seq<char>) -> bool {
    exists|i: int| 0 <= i < p.facts@.len() && #[trigger] p.facts@[i].id@ == x && !admits(&p.authority, p.facts@[i])
}

/// `w` describes a fact the policy withholds.
pub open spec fn describes_some_withheld(p: &Program, w: WithheldFact) -> bool {
    exists|i: int| 0 <= i < p.facts@.len() && #[trigger] describes_withheld(&p.authority, p.facts@[i], w)
}

/// Reports which facts the authority policy admits and which it withholds.
pub fn build_authority_report(program: &Program) -> (r: AuthorityReport)
    requires
        all_distinct(fact_ids(program.facts@)),
    ensures
        authority_report_ok(program, &r),
{
    let facts = &program.facts;
    let ids = collect_fact_ids(facts);
    let order = sort_order(&ids);
    let ghost kv = fact_ids(facts@);
    let mut admitted: Vec<String> = Vec::new();
    let mut withheld: Vec<WithheldFact> = Vec::new();
    let mut k: usize = 0;
    while k < order.len()
        invariant
            kv == fact_ids(facts@),
            facts == &program.facts,
            is_sort_order(kv, order@),
            k <= order@.len(),
            order@.len() == facts@.len(),
            strictly_sorted(strings_view(admitted@)),
            strictly_sorted(withheld_ids(withheld@)),
            forall|x: int, b: int| 0 <= x < admitted@.len() && k <= b < order@.len() ==> seq_lt(
                #[trigger] admitted@[x]@,
                #[trigger] kv[order@[b] as int],
            ),
            forall|x: int, b: int| 0 <= x < withheld@.len() && k <= b < order@.len() ==> seq_lt(
                #[trigger] withheld@[x].fact_id@,
                #[trigger] kv[order@[b] as int],
            ),
            forall|x: int| 0 <= x < admitted@.len() ==> admitted_id(program, #[trigger] admitted@[x]@),
            forall|x: int| 0 <= x < withheld@.len() ==> describes_some_withheld(program, #[trigger] withheld@[x]),
            forall|a: int| 0 <= a < k && admits(&program.authority, facts@[order@[a] as int]) ==> #[trigger] strings_view(admitted@).contains(kv[order@[a] as int]),
            forall|a: int| 0 <= a < k && !admits(&program.authority, facts@[order@[a] as int]) ==> #[trigger] withheld_ids(withheld@).contains(kv[order@[a] as int]),
        decreases order.len() - k,
    {
        let idx = order[k];
        let fact = &facts[idx];
        let set = admitted_authorities(&program.authority, fact.atom.predicate.as_str());
        let ghost before_a = admitted@;
        let ghost before_w = withheld@;
        let ghost cur = kv[idx as int];
        proof {
            assert(fact_ids(facts@)[idx as int] == facts@[idx as int].id@);
            assert forall|b: int| k < b < order@.len() implies seq_lt(cur, #[trigger] kv[order@[b] as int]) by {
                assert(seq_lt(kv[order@[k as int] as int], kv[order@[b] as int]));
            }
        }
        if set.contains(fact.authority.as_str()) {
            admitted.push(fact.id.clone());
            proof {
                assert(admits(&program.authority, facts@[idx as int]));
                assert(strings_view(admitted@) =~= strings_view(before_a).push(cur));
                assert forall|x: int, y: int| 0 <= x < y < strings_view(admitted@).len() implies seq_lt(
                    #[trigger] strings_view(admitted@)[x],
                    #[trigger] strings_view(admitted@)[y],
                ) by {
                    assert(strings_view(admitted@)[x] == admitted@[x]@);
                    assert(strings_view(admitted@)[y] == admitted@[y]@);
                    if y < before_a.len() {
                        assert(strings_view(before_a)[x] == before_a[x]@);
                        assert(strings_view(before_a)[y] == before_a[y]@);
                    } else {
                        assert(seq_lt(before_a[x]@, kv[order@[k as int] as int]));
                    }
                }
                assert forall|x: int, b: int| 0 <= x < admitted@.len() && k + 1 <= b < order@.len() implies seq_lt(
                    #[trigger] admitted@[x]@,
                    #[trigger] kv[order@[b] as int],
                ) by {
                    if x < before_a.len() {
                        assert(admitted@[x] == before_a[x]);
                    }
                }
                assert(admitted_id(program, cur));
                assert forall|x: int| 0 <= x < admitted@.len() implies admitted_id(program, #[trigger] admitted@[x]@) by {
                    if x < before_a.len() {
                        assert(admitted@[x] == before_a[x]);
                    }
                }
                assert forall|a: int| 0 <= a < k + 1 && admits(&program.authority, facts@[order@[a] as int]) implies #[trigger] strings_view(admitted@).contains(kv[order@[a] as int]) by {
                    if a == k {
                        assert(strings_view(admitted@)[before_a.len() as int] == cur);
                    } else {
                        assert(strings_view(before_a).contains(kv[order@[a] as int]));
                        let x = choose|x: int| 0 <= x < strings_view(before_a).len() && strings_view(before_a)[x] == kv[order@[a] as int];
                        assert(strings_view(admitted@)[x] == kv[order@[a] as int]);
                    }
                }
            }
        } else {
            let w = WithheldFact {
                fact_id: fact.id.clone(),
                atom: fact.atom.duplicate(),
                authority: fact.authority.clone(),
                admitted_authorities: set_items(set),
                reason: authority_reason_exec(fact),
            };
            withheld.push(w);
            proof {
                assert(!admits(&program.authority, facts@[idx as int]));
                assert(describes_withheld(&program.authority, facts@[idx as int], w));
                assert(withheld_ids(withheld@) =~= withheld_ids(before_w).push(cur));
                assert forall|x: int, y: int| 0 <= x < y < withheld_ids(withheld@).len() implies seq_lt(
                    #[trigger] withheld_ids(withheld@)[x],
                    #[trigger] withheld_ids(withheld@)[y],
                ) by {
                    assert(withheld_ids(withheld@)[x] == withheld@[x].fact_id@);
                    assert(withheld_ids(withheld@)[y] == withheld@[y].fact_id@);
                    if y < before_w.len() {
                        assert(withheld_ids(before_w)[x] == before_w[x].fact_id@);
                        assert(withheld_ids(before_w)[y] == before_w[y].fact_id@);
                    } else {
                        assert(seq_lt(before_w[x].fact_id@, kv[order@[k as int] as int]));
                    }
                }
                assert forall|x: int, b: int| 0 <= x < withheld@.len() && k + 1 <= b < order@.len() implies seq_lt(
                    #[trigger] withheld@[x].fact_id@,
                    #[trigger] kv[order@[b] as int],
                ) by {
                    if x < before_w.len() {
                        assert(withheld@[x] == before_w[x]);
                    }
                }
                assert(describes_some_withheld(program, w));
                assert forall|x: int| 0 <= x < withheld@.len() implies describes_some_withheld(program, #[trigger] withheld@[x]) by {
                    if x < before_w.len() {
                        assert(withheld@[x] == before_w[x]);
                    }
                }
                assert forall|a: int| 0 <= a < k + 1 && !admits(&program.authority, facts@[order@[a] as int]) implies #[trigger] withheld_ids(withheld@).contains(kv[order@[a] as int]) by {
                    if a == k {
                        assert(withheld_ids(withheld@)[before_w.len() as int] == cur);
                    } else {
                        assert(withheld_ids(before_w).contains(kv[order@[a] as int]));
                        let x = choose|x: int| 0 <= x < withheld_ids(before_w).len() && withheld_ids(before_w)[x] == kv[order@[a] as int];
                        assert(withheld_ids(withheld@)[x] == kv[order@[a] as int]);
                    }
                }
            }
        }
        k += 1;
    }
    let policy_json = crate::model::policy_to_json(&program.authority);
    let digest = crate::model::digest_json(&policy_json);
    let r = AuthorityReport { policy_digest: digest, admitted_fact_ids: admitted, withheld };
    proof {
        let fs = facts@;
        assert forall|x: Seq<char>| #[trigger] strings_view(r.admitted_fact_ids@).contains(x) implies admitted_id(program, x) by {
            let y = choose|y: int| 0 <= y < strings_view(r.admitted_fact_ids@).len() && strings_view(r.admitted_fact_ids@)[y] == x;
            assert(strings_view(r.admitted_fact_ids@)[y] == r.admitted_fact_ids@[y]@);
        }
        assert forall|x: Seq<char>| admitted_id(program, x) implies #[trigger] strings_view(r.admitted_fact_ids@).contains(x) by {
            let i = choose|i: int| 0 <= i < fs.len() && #[trigger] fs[i].id@ == x && admits(&program.authority, fs[i]);
            assert(occurs(order@, i));
            let a = choose|a: int| 0 <= a < order@.len() && order@[a] == i;
            assert(fact_ids(fs)[i] == fs[i].id@);
            assert(strings_view(r.admitted_fact_ids@).contains(kv[order@[a] as int]));
        }
        assert forall|x: Seq<char>| #[trigger] withheld_ids(r.withheld@).contains(x) implies withheld_id(program, x) by {
            let y = choose|y: int| 0 <= y < withheld_ids(r.withheld@).len() && withheld_ids(r.withheld@)[y] == x;
            assert(withheld_ids(r.withheld@)[y] == r.withheld@[y].fact_id@);
            assert(describes_some_withheld(program, r.withheld@[y]));
            let i = choose|i: int| 0 <= i < fs.len() && #[trigger] describes_withheld(&program.authority, fs[i], r.withheld@[y]);
            assert(fs[i].id@ == x);
        }
        assert forall|x: Seq<char>| withheld_id(program, x) implies #[trigger] withheld_ids(r.withheld@).contains(x) by {
            let i = choose|i: int| 0 <= i < fs.len() && #[trigger] fs[i].id@ == x && !admits(&program.authority, fs[i]);
            assert(occurs(order@, i));
            let a = choose|a: int| 0 <= a < order@.len() && order@[a] == i;
            assert(fact_ids(fs)[i] == fs[i].id@);
            assert(withheld_ids(r.withheld@).contains(kv[order@[a] as int]));
        }
    }
    r
}

} // verus!

verus! {

/// The ids of the facts at the given indices, in that order.
pub fn ids_at(facts: &Vec<Fact>, sel: &Vec<usize>) -> (ids: Vec<String>)
    requires
        forall|a: int| 0 <= a < sel@.len() ==> (#[trigger] sel@[a]) < facts@.len(),
    ensures
        strings_view(ids@).len() == sel@.len(),
        forall|a: int| 0 <= a < sel@.len() ==> #[trigger] strings_view(ids@)[a] == facts@[sel@[a] as int].id@,
{
    let mut ids: Vec<String> = Vec::new();
    let mut k: usize = 0;
    while k < sel.len()
        invariant
            k <= sel@.len(),
            forall|a: int| 0 <= a < sel@.len() ==> (#[trigger] sel@[a]) < facts@.len(),
            ids@.len() == k,
            forall|a: int| 0 <= a < k ==> (#[trigger] ids@[a])@ == facts@[sel@[a] as int].id@,
        decreases sel.len() - k,
    {
        ids.push(facts[sel[k]].id.clone());
        k += 1;
    }
    proof {
        assert forall|a: int| 0 <= a < sel@.len() implies #[trigger] strings_view(ids@)[a] == facts@[sel@[a] as int].id@ by {
            assert(ids@[a]@ == facts@[sel@[a] as int].id@);
        }
    }
    ids
}

/// Ids collected at the marked indices of a sort order ascend strictly, and
/// are exactly the ids of the marked facts.
pub proof fn lemma_selected_ids(facts: Seq<Fact>, flags: Seq<bool>, sel: Seq<usize>, ids: Seq<Seq<char>>)
    requires
        selects(fact_ids(facts), flags, sel),
        ids.len() == sel.len(),
        forall|a: int| 0 <= a < sel.len() ==> #[trigger] ids[a] == facts[sel[a] as int].id@,
    ensures
        strictly_sorted(ids),
        forall|x: Seq<char>| #[trigger] ids.contains(x) <==> exists|i: int|
            0 <= i < facts.len() && #[trigger] facts[i].id@ == x && flags[i],
{
    let kv = fact_ids(facts);
    assert forall|a: int, b: int| 0 <= a < b < ids.len() implies seq_lt(#[trigger] ids[a], #[trigger] ids[b]) by {
        assert(seq_lt(kv[sel[a] as int], kv[sel[b] as int]));
        assert(kv[sel[a] as int] == facts[sel[a] as int].id@);
        assert(kv[sel[b] as int] == facts[sel[b] as int].id@);
    }
    assert forall|x: Seq<char>| #[trigger] ids.contains(x) implies exists|i: int|
        0 <= i < facts.len() && #[trigger] facts[i].id@ == x && flags[i] by {
        let a = choose|a: int| 0 <= a < ids.len() && ids[a] == x;
        let i = sel[a] as int;
        assert(facts[i].id@ == x);
    }
    assert forall|x: Seq<char>| (exists|i: int| 0 <= i < facts.len() && #[trigger] facts[i].id@ == x && flags[i]) implies #[trigger] ids.contains(x) by {
        let i = choose|i: int| 0 <= i < facts.len() && #[trigger] facts[i].id@ == x && flags[i];
        assert(occurs(sel, i));
        let a = choose|a: int| 0 <= a < sel.len() && sel[a] == i;
        assert(ids[a] == x);
    }
}

} // verus!
