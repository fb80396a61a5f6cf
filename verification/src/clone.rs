use vstd::prelude::*;

use crate::collections::StrMap;
use crate::engine::atom_views;
use crate::model::{clone_opt_string, clone_set, clone_strings, opt_view, AtomV, Atom, Fact, Predicate, Rule, ScalarType};
use crate::text::strings_view;

verus! {

/// The contents of a fact.
pub open spec fn fact_view(f: Fact) -> (Seq<char>, AtomV, Seq<char>, Option<Seq<char>>, Option<Seq<char>>, Option<Seq<char>>, Seq<Seq<char>>) {
    (f.id@, f.atom@, f.authority@, opt_view(f.observed_at), opt_view(f.valid_from), opt_view(f.valid_until), strings_view(f.supersedes@))
}

/// The contents of a rule.
pub open spec fn rule_view(r: Rule) -> (Seq<char>, Seq<AtomV>, AtomV) {
    (r.id@, atom_views(r.when@), r.head@)
}

pub open spec fn facts_view(f: Seq<Fact>) -> Seq<(Seq<char>, AtomV, Seq<char>, Option<Seq<char>>, Option<Seq<char>>, Option<Seq<char>>, Seq<Seq<char>>)> {
    f.map_values(|x: Fact| fact_view(x))
}

pub open spec fn rules_view(r: Seq<Rule>) -> Seq<(Seq<char>, Seq<AtomV>, AtomV)> {
    r.map_values(|x: Rule| rule_view(x))
}

pub fn clone_fact(f: &Fact) -> (r: Fact)
    ensures
        fact_view(r) == fact_view(*f),
{
    Fact {
        id: f.id.clone(),
        atom: f.atom.duplicate(),
        authority: f.authority.clone(),
        observed_at: clone_opt_string(&f.observed_at),
        valid_from: clone_opt_string(&f.valid_from),
        valid_until: clone_opt_string(&f.valid_until),
        supersedes: clone_strings(&f.supersedes),
    }
}

pub fn clone_atoms(atoms: &Vec<Atom>) -> (r: Vec<Atom>)
    ensures
        atom_views(r@) == atom_views(atoms@),
{
    let mut out: Vec<Atom> = Vec::new();
    let mut i: usize = 0;
    while i < atoms.len()
        invariant
            i <= atoms@.len(),
            out@.len() == i,
            forall|k: int| 0 <= k < i ==> (#[trigger] out@[k])@ == atoms@[k]@,
        decreases atoms.len() - i,
    {
        out.push(atoms[i].duplicate());
        i += 1;
    }
    assert(atom_views(out@) =~= atom_views(atoms@)) by {
        assert forall|k: int| 0 <= k < out@.len() implies #[trigger] atom_views(out@)[k] == atom_views(atoms@)[k] by {
            assert(out@[k]@ == atoms@[k]@);
        }
    }
    out
}

pub fn clone_rule(r: &Rule) -> (c: Rule)
    ensures
        rule_view(c) == rule_view(*r),
{
    Rule { id: r.id.clone(), when: clone_atoms(&r.when), head: r.head.duplicate() }
}

/// Facts with the same contents serialise alike.
pub proof fn lemma_facts_json_view(a: Seq<Fact>, b: Seq<Fact>)
    requires
        facts_view(a) == facts_view(b),
    ensures
        crate::model::facts_json(a) == crate::model::facts_json(b),
{
    assert(facts_view(a).len() == a.len() && facts_view(b).len() == b.len());
    assert forall|i: int| 0 <= i < a.len() implies #[trigger] crate::model::facts_json(a)[i] == crate::model::facts_json(b)[i] by {
        let x = a[i];
        let y = b[i];
        assert(fact_view(x) == facts_view(a)[i]);
        assert(fact_view(y) == facts_view(b)[i]);
        assert(crate::model::opt_member("observed_at"@, x.observed_at) == crate::model::opt_member("observed_at"@, y.observed_at));
        assert(crate::model::opt_member("valid_from"@, x.valid_from) == crate::model::opt_member("valid_from"@, y.valid_from));
        assert(crate::model::opt_member("valid_until"@, x.valid_until) == crate::model::opt_member("valid_until"@, y.valid_until));
        assert(strings_view(x.supersedes@).len() == x.supersedes@.len());
        assert(strings_view(y.supersedes@).len() == y.supersedes@.len());
    }
    assert(crate::model::facts_json(a) =~= crate::model::facts_json(b));
}

/// Rules with the same contents serialise alike.
pub proof fn lemma_rules_json_view(a: Seq<Rule>, b: Seq<Rule>)
    requires
        rules_view(a) == rules_view(b),
    ensures
        crate::model::rules_json(a) == crate::model::rules_json(b),
{
    assert(rules_view(a).len() == a.len() && rules_view(b).len() == b.len());
    assert forall|i: int| 0 <= i < a.len() implies #[trigger] crate::model::rules_json(a)[i] == crate::model::rules_json(b)[i] by {
        let x = a[i];
        let y = b[i];
        assert(rule_view(x) == rules_view(a)[i]);
        assert(rule_view(y) == rules_view(b)[i]);
        assert(atom_views(x.when@).len() == x.when@.len());
        assert(atom_views(y.when@).len() == y.when@.len());
        assert(crate::model::atoms_json(x.when@) =~= crate::model::atoms_json(y.when@)) by {
            assert forall|k: int| 0 <= k < x.when@.len() implies #[trigger] crate::model::atoms_json(x.when@)[k] == crate::model::atoms_json(y.when@)[k] by {
                assert(atom_views(x.when@)[k] == x.when@[k]@);
                assert(atom_views(y.when@)[k] == y.when@[k]@);
            }
        }
    }
    assert(crate::model::rules_json(a) =~= crate::model::rules_json(b));
}

pub fn clone_facts(facts: &Vec<Fact>) -> (r: Vec<Fact>)
    ensures
        facts_view(r@) == facts_view(facts@),
{
    let mut out: Vec<Fact> = Vec::new();
    let mut i: usize = 0;
    while i < facts.len()
        invariant
            i <= facts@.len(),
            out@.len() == i,
            forall|k: int| 0 <= k < i ==> fact_view(#[trigger] out@[k]) == fact_view(facts@[k]),
        decreases facts.len() - i,
    {
        out.push(clone_fact(&facts[i]));
        i += 1;
    }
    assert(facts_view(out@) =~= facts_view(facts@)) by {
        assert forall|k: int| 0 <= k < out@.len() implies #[trigger] facts_view(out@)[k] == facts_view(facts@)[k] by {
            assert(fact_view(out@[k]) == fact_view(facts@[k]));
        }
    }
    out
}

pub fn clone_rules(rules: &Vec<Rule>) -> (r: Vec<Rule>)
    ensures
        rules_view(r@) == rules_view(rules@),
{
    let mut out: Vec<Rule> = Vec::new();
    let mut i: usize = 0;
    while i < rules.len()
        invariant
            i <= rules@.len(),
            out@.len() == i,
            forall|k: int| 0 <= k < i ==> rule_view(#[trigger] out@[k]) == rule_view(rules@[k]),
        decreases rules.len() - i,
    {
        out.push(clone_rule(&rules[i]));
        i += 1;
    }
    assert(rules_view(out@) =~= rules_view(rules@)) by {
        assert forall|k: int| 0 <= k < out@.len() implies #[trigger] rules_view(out@)[k] == rules_view(rules@)[k] by {
            assert(rule_view(out@[k]) == rule_view(rules@[k]));
        }
    }
    out
}

pub fn clone_scalars(v: &Vec<ScalarType>) -> (r: Vec<ScalarType>)
    ensures
        r@ == v@,
{
    let mut out: Vec<ScalarType> = Vec::new();
    let mut i: usize = 0;
    while i < v.len()
        invariant
            i <= v@.len(),
            out@ == v@.take(i as int),
        decreases v.len() - i,
    {
        out.push(v[i]);
        proof {
            assert(v@.take(i + 1) =~= v@.take(i as int).push(v@[i as int]));
        }
        i += 1;
    }
    assert(v@.take(v@.len() as int) =~= v@);
    out
}

/// A copy of the predicate declarations.
pub fn clone_predicates(m: &StrMap<Predicate>) -> (r: StrMap<Predicate>)
    ensures
        forall|k: Seq<char>| #[trigger] r.has_key(k) <==> m.has_key(k),
        forall|k: Seq<char>| r.has_key(k) ==> (#[trigger] r.spec_get(k))->0.arguments@ == m.spec_get(k)->0.arguments@,
        crate::model::predicates_json(&r) == crate::model::predicates_json(m),
{
    proof { use_type_invariant(m); }
    let mut r: StrMap<Predicate> = StrMap::new();
    let mut i: usize = 0;
    while i < m.len()
        invariant
            crate::collections::strictly_sorted(m.keys()),
            i <= m.entries().len(),
            forall|k: Seq<char>| #[trigger] r.has_key(k) <==> exists|j: int| 0 <= j < i && #[trigger] m.entries()[j].0@ == k,
            forall|k: Seq<char>| r.has_key(k) ==> (#[trigger] r.spec_get(k))->0.arguments@ == m.spec_get(k)->0.arguments@,
        decreases m.entries().len() - i,
    {
        let k = m.key_at(i);
        let v = m.value_at(i);
        proof { crate::collections::lemma_entry_spec_get(m, i as int); }
        r.insert(k.clone(), Predicate { arguments: clone_scalars(&v.arguments) });
        proof {
            assert forall|t: Seq<char>| #[trigger] r.has_key(t) <==> exists|j: int| 0 <= j < i + 1 && #[trigger] m.entries()[j].0@ == t by {
                if t == k@ {
                    assert(m.entries()[i as int].0@ == t);
                }
            }
        }
        i += 1;
    }
    proof {
        assert forall|k: Seq<char>| #[trigger] r.has_key(k) <==> m.has_key(k) by {
            if m.has_key(k) {
                crate::collections::lemma_spec_get_entry(m, k);
            }
            if r.has_key(k) {
                let j = choose|j: int| 0 <= j < m.entries().len() && #[trigger] m.entries()[j].0@ == k;
                assert(m.keys()[j] == k);
            }
        }
    }
    proof {
        use_type_invariant(&r);
        assert forall|x: Seq<char>| r.keys().contains(x) <==> m.keys().contains(x) by {
            assert(r.has_key(x) == m.has_key(x));
        }
        crate::collections::lemma_sorted_same_members(r.keys(), m.keys());
        let vr = r.entries().map_values(|e: (String, Predicate)| crate::model::predicate_json(&e.1));
        let vm = m.entries().map_values(|e: (String, Predicate)| crate::model::predicate_json(&e.1));
        assert(r.entries().len() == r.keys().len());
        assert(m.entries().len() == m.keys().len());
        assert(vr =~= vm) by {
            assert forall|i: int| 0 <= i < vr.len() implies vr[i] == vm[i] by {
                crate::collections::lemma_entry_spec_get(&r, i);
                crate::collections::lemma_entry_spec_get(m, i);
                assert(r.keys()[i] == r.entries()[i].0@);
                assert(m.keys()[i] == m.entries()[i].0@);
            }
        }
    }
    r
}

/// A copy of the per-predicate admissions.
pub fn clone_admissions(m: &StrMap<crate::collections::StrSet>) -> (r: StrMap<crate::collections::StrSet>)
    ensures
        forall|k: Seq<char>| #[trigger] r.has_key(k) <==> m.has_key(k),
        forall|k: Seq<char>| r.has_key(k) ==> (#[trigger] r.spec_get(k))->0.view_seq() == m.spec_get(k)->0.view_seq(),
        crate::model::admit_map_json(&r) == crate::model::admit_map_json(m),
{
    proof { use_type_invariant(m); }
    let mut r: StrMap<crate::collections::StrSet> = StrMap::new();
    let mut i: usize = 0;
    while i < m.len()
        invariant
            crate::collections::strictly_sorted(m.keys()),
            i <= m.entries().len(),
            forall|k: Seq<char>| #[trigger] r.has_key(k) <==> exists|j: int| 0 <= j < i && #[trigger] m.entries()[j].0@ == k,
            forall|k: Seq<char>| r.has_key(k) ==> (#[trigger] r.spec_get(k))->0.view_seq() == m.spec_get(k)->0.view_seq(),
        decreases m.entries().len() - i,
    {
        let k = m.key_at(i);
        let v = m.value_at(i);
        proof { crate::collections::lemma_entry_spec_get(m, i as int); }
        r.insert(k.clone(), clone_set(v));
        proof {
            assert forall|t: Seq<char>| #[trigger] r.has_key(t) <==> exists|j: int| 0 <= j < i + 1 && #[trigger] m.entries()[j].0@ == t by {
                if t == k@ {
                    assert(m.entries()[i as int].0@ == t);
                }
            }
        }
        i += 1;
    }
    proof {
        assert forall|k: Seq<char>| #[trigger] r.has_key(k) <==> m.has_key(k) by {
            if m.has_key(k) {
                crate::collections::lemma_spec_get_entry(m, k);
            }
            if r.has_key(k) {
                let j = choose|j: int| 0 <= j < m.entries().len() && #[trigger] m.entries()[j].0@ == k;
                assert(m.keys()[j] == k);
            }
        }
    }
    proof {
        use_type_invariant(&r);
        assert forall|x: Seq<char>| r.keys().contains(x) <==> m.keys().contains(x) by {
            assert(r.has_key(x) == m.has_key(x));
        }
        crate::collections::lemma_sorted_same_members(r.keys(), m.keys());
        let vr = r.entries().map_values(|e: (String, crate::collections::StrSet)| crate::model::set_json(&e.1));
        let vm = m.entries().map_values(|e: (String, crate::collections::StrSet)| crate::model::set_json(&e.1));
        assert(r.entries().len() == r.keys().len());
        assert(m.entries().len() == m.keys().len());
        assert(vr =~= vm) by {
            assert forall|i: int| 0 <= i < vr.len() implies vr[i] == vm[i] by {
                crate::collections::lemma_entry_spec_get(&r, i);
                crate::collections::lemma_entry_spec_get(m, i);
                assert(r.keys()[i] == r.entries()[i].0@);
                assert(m.keys()[i] == m.entries()[i].0@);
            }
        }
    }
    r
}

} // verus!
