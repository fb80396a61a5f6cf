use vstd::prelude::*;

use crate::certificate::{
    fact_temporal, node_id, node_id_spec, proof_digest, proof_digest_spec, temporal_of, temporal_view, Proof,
    ProofNode, ProofNodeKind,
};
use crate::collections::{all_distinct, is_sort_order, occurs, sort_order, strictly_sorted, StrMap, StrSet};
use crate::engine::{
    atom_views, atoms_at, instantiate, instantiate_spec, match_chain, satisfy, state_ok, Bindings,
};
use crate::json::JsonV;
use crate::model::{atom_key, AtomV, Atom, Fact, Program, Rule};
use crate::program::{is_v2, program_valid};
use crate::report::{admits, authority_admits, collect_fact_ids, fact_ids};
use crate::temporal::{eligible, FactTemporal, TemporalReport};
use crate::text::{strings_contain, strings_view};

verus! {

/// How an atom came to be known.
pub enum Derivation {
    Fact { fact_id: String, authority: String, temporal: Option<FactTemporal> },
    Rule { rule_id: String, premises: Vec<String> },
}

/// A known atom, how it is known, and the round that first derived it
/// (0 for supplied facts).
pub struct KnownAtom {
    pub atom: Atom,
    pub derivation: Derivation,
    pub round: usize,
}

/// The known atoms, by canonical key.
pub type Known = StrMap<KnownAtom>;

/// The contents of an optional lifecycle record.
pub type TemporalV = Option<(Seq<char>, Option<Seq<char>>, Option<Seq<char>>, Seq<Seq<char>>)>;

/// How an atom came to be known, as a value.
pub enum DerivationV {
    Fact(Seq<char>, Seq<char>, TemporalV),
    Rule(Seq<char>, Seq<Seq<char>>),
}

/// A known atom as a value.
pub struct KnownAtomV {
    pub atom: AtomV,
    pub derivation: DerivationV,
    pub round: nat,
}

pub open spec fn derivation_view(d: Derivation) -> DerivationV {
    match d {
        Derivation::Fact { fact_id, authority, temporal } => DerivationV::Fact(fact_id@, authority@, temporal_view(temporal)),
        Derivation::Rule { rule_id, premises } => DerivationV::Rule(rule_id@, strings_view(premises@)),
    }
}

pub open spec fn known_atom_view(k: KnownAtom) -> KnownAtomV {
    KnownAtomV { atom: k.atom@, derivation: derivation_view(k.derivation), round: k.round as nat }
}

/// Keyed known atoms as values, in order.
pub open spec fn keyed_view(s: Seq<(String, KnownAtom)>) -> Seq<(Seq<char>, KnownAtomV)> {
    s.map_values(|e: (String, KnownAtom)| (e.0@, known_atom_view(e.1)))
}

/// The known atoms as values, in ascending key order.
pub open spec fn entries_view(k: &Known) -> Seq<(Seq<char>, KnownAtomV)> {
    keyed_view(k.entries())
}

/// Some entry has key `k`.
pub open spec fn keyed_has<V>(s: Seq<(Seq<char>, V)>, k: Seq<char>) -> bool {
    exists|i: int| 0 <= i < s.len() && (#[trigger] s[i]).0 == k
}

/// The atoms of the entries, in order.
pub open spec fn keyed_atoms(s: Seq<(Seq<char>, KnownAtomV)>) -> Seq<AtomV> {
    s.map_values(|e: (Seq<char>, KnownAtomV)| e.1.atom)
}

/// One state of rule `ri` during a round: its conclusion is added, derived
/// from the entries at the state's positions, unless it is known or added.
pub open spec fn derive_step(
    p: &Program,
    ri: int,
    ents: Seq<(Seq<char>, KnownAtomV)>,
    round: nat,
    adds: Seq<(Seq<char>, KnownAtomV)>,
    st: crate::engine::StateV,
) -> Seq<(Seq<char>, KnownAtomV)> {
    let rule = p.rules@[ri];
    let atom = instantiate_spec(rule.head@, st.0);
    let key = atom_key(atom);
    if keyed_has(ents, key) || keyed_has(adds, key) {
        adds
    } else {
        adds.push(
            (
                key,
                KnownAtomV {
                    atom,
                    derivation: DerivationV::Rule(rule.id@, st.1.map_values(|j: usize| ents[j as int].0)),
                    round,
                },
            ),
        )
    }
}

/// The first `s` states of rule `ri`, after the additions `adds0`.
pub open spec fn derive_states(
    p: &Program,
    ri: int,
    ents: Seq<(Seq<char>, KnownAtomV)>,
    round: nat,
    adds0: Seq<(Seq<char>, KnownAtomV)>,
    states: Seq<crate::engine::StateV>,
    s: nat,
) -> Seq<(Seq<char>, KnownAtomV)>
    decreases s,
{
    if s == 0 {
        adds0
    } else {
        derive_step(p, ri, ents, round, derive_states(p, ri, ents, round, adds0, states, (s - 1) as nat), states[s - 1])
    }
}

/// The matches of rule `ri` against the entries.
pub open spec fn rule_states(p: &Program, ri: int, ents: Seq<(Seq<char>, KnownAtomV)>) -> Seq<crate::engine::StateV> {
    crate::engine::satisfy_spec(atom_views(p.rules@[ri].when@), keyed_atoms(ents), p.rules@[ri].when@.len())
}

/// The additions of a round after the first `a` rules of the order.
pub open spec fn derive_rules(
    p: &Program,
    order: Seq<usize>,
    ents: Seq<(Seq<char>, KnownAtomV)>,
    round: nat,
    a: nat,
) -> Seq<(Seq<char>, KnownAtomV)>
    decreases a,
{
    if a == 0 {
        Seq::empty()
    } else {
        let prev = derive_rules(p, order, ents, round, (a - 1) as nat);
        let ri = order[a - 1] as int;
        let sts = rule_states(p, ri, ents);
        derive_states(p, ri, ents, round, prev, sts, sts.len())
    }
}

/// What one round of forward chaining adds to the known atoms `ents`.
pub open spec fn derive_round_spec(p: &Program, order: Seq<usize>, ents: Seq<(Seq<char>, KnownAtomV)>, round: nat) -> Seq<
    (Seq<char>, KnownAtomV),
> {
    derive_rules(p, order, ents, round, order.len())
}

/// The keys of the entries, in order.
pub open spec fn keyed_keys<V>(e: Seq<(Seq<char>, V)>) -> Seq<Seq<char>> {
    e.map_values(|x: (Seq<char>, V)| x.0)
}

/// The entries as a map from keys to known atoms.
pub open spec fn keyed_map<V>(e: Seq<(Seq<char>, V)>) -> Map<Seq<char>, V> {
    Map::new(|k: Seq<char>| keyed_has(e, k), |k: Seq<char>| e[keyed_index(e, k)].1)
}

/// A position of an entry with key `k`.
pub open spec fn keyed_index<V>(e: Seq<(Seq<char>, V)>, k: Seq<char>) -> int {
    choose|i: int| 0 <= i < e.len() && (#[trigger] e[i]).0 == k
}

/// The known atoms as a map from keys to values.
pub open spec fn known_map(k: &Known) -> Map<Seq<char>, KnownAtomV> {
    Map::new(|x: Seq<char>| k.has_key(x), |x: Seq<char>| known_atom_view(k.spec_get(x)->0))
}

/// Entries with distinct keys map each key to its entry.
pub proof fn lemma_keyed_map_at<V>(e: Seq<(Seq<char>, V)>, i: int)
    requires
        keyed_keys(e).no_duplicates(),
        0 <= i < e.len(),
    ensures
        keyed_map(e).contains_key(e[i].0),
        keyed_map(e)[e[i].0] == e[i].1,
{
    let k = e[i].0;
    assert(keyed_has(e, k));
    let j = keyed_index(e, k);
    assert(0 <= j < e.len() && e[j].0 == k);
    assert(keyed_keys(e)[j] == e[j].0);
    assert(keyed_keys(e)[i] == e[i].0);
    assert(j == i);
    assert(keyed_map(e)[k] == e[j].1);
}

/// Entries in strictly ascending key order are fixed by the map they hold.
pub proof fn lemma_keyed_unique<V>(a: Seq<(Seq<char>, V)>, b: Seq<(Seq<char>, V)>)
    requires
        strictly_sorted(keyed_keys(a)),
        strictly_sorted(keyed_keys(b)),
        keyed_map(a) == keyed_map(b),
    ensures
        a == b,
{
    let ka = keyed_keys(a);
    let kb = keyed_keys(b);
    assert forall|x: Seq<char>| ka.contains(x) <==> kb.contains(x) by {
        if ka.contains(x) {
            let i = choose|i: int| 0 <= i < ka.len() && ka[i] == x;
            assert(a[i].0 == x);
            assert(keyed_map(a).contains_key(x));
            let j = choose|j: int| 0 <= j < b.len() && (#[trigger] b[j]).0 == x;
            assert(kb[j] == x);
        }
        if kb.contains(x) {
            let i = choose|i: int| 0 <= i < kb.len() && kb[i] == x;
            assert(b[i].0 == x);
            assert(keyed_map(b).contains_key(x));
            let j = choose|j: int| 0 <= j < a.len() && (#[trigger] a[j]).0 == x;
            assert(ka[j] == x);
        }
    }
    crate::collections::lemma_sorted_same_members(ka, kb);
    crate::collections::lemma_sorted_no_duplicates(ka);
    crate::collections::lemma_sorted_no_duplicates(kb);
    assert(a.len() == b.len());
    assert forall|i: int| 0 <= i < a.len() implies a[i] == b[i] by {
        assert(ka[i] == kb[i]);
        lemma_keyed_map_at(a, i);
        lemma_keyed_map_at(b, i);
    }
    assert(a =~= b);
}

/// The entries of a known map hold exactly its keys and values.
pub proof fn lemma_known_map_entries(k: &Known)
    requires
        strictly_sorted(k.keys()),
    ensures
        keyed_keys(entries_view(k)) == k.keys(),
        keyed_map(entries_view(k)) == known_map(k),
{
    let e = entries_view(k);
    assert(keyed_keys(e) =~= k.keys());
    crate::collections::lemma_sorted_no_duplicates(k.keys());
    assert forall|x: Seq<char>| #[trigger] keyed_map(e).contains_key(x) == known_map(k).contains_key(x) by {
        if k.has_key(x) {
            let i = choose|i: int| 0 <= i < k.keys().len() && k.keys()[i] == x;
            assert(e[i].0 == x);
        }
        if keyed_has(e, x) {
            let i = choose|i: int| 0 <= i < e.len() && (#[trigger] e[i]).0 == x;
            assert(k.keys()[i] == x);
        }
    }
    assert forall|x: Seq<char>| #[trigger] known_map(k).contains_key(x) implies keyed_map(e)[x] == known_map(k)[x] by {
        crate::collections::lemma_spec_get_entry(k, x);
        let i = k.keys().index_of(x);
        lemma_keyed_map_at(e, i);
    }
    assert(keyed_map(e) =~= known_map(k));
}

/// The known atoms after adding `adds` to `ents`, in ascending key order.
pub open spec fn merged(ents: Seq<(Seq<char>, KnownAtomV)>, adds: Seq<(Seq<char>, KnownAtomV)>) -> Seq<(Seq<char>, KnownAtomV)> {
    choose|e: Seq<(Seq<char>, KnownAtomV)>|
        strictly_sorted(keyed_keys(e)) && keyed_map(e) == keyed_map(ents).union_prefer_right(keyed_map(adds))
}

/// The known atoms after `r` rounds of forward chaining from `e0`.
pub open spec fn trace(p: &Program, order: Seq<usize>, e0: Seq<(Seq<char>, KnownAtomV)>, r: nat) -> Seq<(Seq<char>, KnownAtomV)>
    decreases r,
{
    if r == 0 {
        e0
    } else {
        let e = trace(p, order, e0, (r - 1) as nat);
        merged(e, derive_round_spec(p, order, e, r))
    }
}

/// Fact `f` supports `atom` with that authority and lifecycle record: it
/// states the atom, is admitted by the authority policy, and (in v2) is in
/// force at the evaluation time.
pub open spec fn fact_supports(
    p: &Program,
    f: Fact,
    atom: AtomV,
    authority: Seq<char>,
    temporal: Option<FactTemporal>,
) -> bool {
    &&& f.atom@ == atom
    &&& f.authority@ == authority
    &&& admits(&p.authority, f)
    &&& is_v2(p) ==> eligible(p, p.evaluation_time->0@, f)
    &&& temporal_view(temporal) == temporal_of(p, f)
}

/// The fact with id `fact_id` supports `atom`.
pub open spec fn fact_justifies(
    p: &Program,
    fact_id: Seq<char>,
    atom: AtomV,
    authority: Seq<char>,
    temporal: Option<FactTemporal>,
) -> bool {
    exists|i: int|
        0 <= i < p.facts@.len() && #[trigger] p.facts@[i].id@ == fact_id && fact_supports(
            p,
            p.facts@[i],
            atom,
            authority,
            temporal,
        )
}

/// Rule `r` applied to the premise atoms yields `atom`: the body matches the
/// premises in order, and the head under the resulting bindings is `atom`.
pub open spec fn rule_yields(r: Rule, premises: Seq<AtomV>, atom: AtomV) -> bool {
    &&& premises.len() == r.when@.len()
    &&& match match_chain(atom_views(r.when@), premises, Map::empty()) {
        Some(b) => instantiate_spec(r.head@, b) == atom,
        None => false,
    }
}

/// The rule with id `rule_id` applied to the premise atoms yields `atom`.
pub open spec fn rule_justifies(p: &Program, rule_id: Seq<char>, premises: Seq<AtomV>, atom: AtomV) -> bool {
    exists|j: int| 0 <= j < p.rules@.len() && #[trigger] p.rules@[j].id@ == rule_id && rule_yields(p.rules@[j], premises, atom)
}

/// The atoms known under the given keys.
pub open spec fn premise_atoms(known: &Known, premises: Seq<String>) -> Seq<AtomV> {
    premises.map_values(|k: String| known.spec_get(k@)->0.atom@)
}

/// The known atom under key `k` is stored under its own key and justified:
/// by a supporting fact, or by a rule applied to atoms known from earlier rounds.
pub open spec fn known_entry_ok(p: &Program, known: &Known, k: Seq<char>) -> bool {
    let ka = known.spec_get(k)->0;
    &&& k == atom_key(ka.atom@)
    &&& match ka.derivation {
        Derivation::Fact { fact_id, authority, temporal } => ka.round == 0 && fact_justifies(
            p,
            fact_id@,
            ka.atom@,
            authority@,
            temporal,
        ),
        Derivation::Rule { rule_id, premises } => {
            &&& ka.round > 0
            &&& forall|m: int| 0 <= m < premises@.len() ==> known.has_key(#[trigger] premises@[m]@)
                && known.spec_get(premises@[m]@)->0.round < ka.round
            &&& rule_justifies(p, rule_id@, premise_atoms(known, premises@), ka.atom@)
        },
    }
}

/// Every known atom is justified.
pub open spec fn known_ok(p: &Program, known: &Known) -> bool {
    forall|k: Seq<char>| #[trigger] known.has_key(k) ==> known_entry_ok(p, known, k)
}

/// `big` holds every entry of `small` unchanged.
pub open spec fn extends(small: &Known, big: &Known) -> bool {
    forall|k: Seq<char>| #[trigger] small.has_key(k) ==> big.has_key(k) && big.spec_get(k) == small.spec_get(k)
}

/// A justified entry stays justified when the map grows.
pub proof fn lemma_entry_ok_extends(p: &Program, small: &Known, big: &Known, k: Seq<char>)
    requires
        extends(small, big),
        small.has_key(k),
        known_entry_ok(p, small, k),
    ensures
        known_entry_ok(p, big, k),
{
    let ka = small.spec_get(k)->0;
    assert(big.spec_get(k) == small.spec_get(k));
    match ka.derivation {
        Derivation::Fact { .. } => {},
        Derivation::Rule { rule_id, premises } => {
            assert forall|m: int| 0 <= m < premises@.len() implies big.has_key(#[trigger] premises@[m]@)
                && big.spec_get(premises@[m]@)->0.round < ka.round by {
                assert(small.has_key(premises@[m]@));
            }
            assert(premise_atoms(big, premises@) =~= premise_atoms(small, premises@)) by {
                assert forall|m: int| 0 <= m < premises@.len() implies #[trigger] premise_atoms(big, premises@)[m]
                    == premise_atoms(small, premises@)[m] by {
                    assert(small.has_key(premises@[m]@));
                }
            }
        },
    }
}

/// With distinct fact ids, a fact's id is in the temporal report's eligible
/// list exactly when the fact is in force.
pub proof fn lemma_report_eligible(p: &Program, r: &TemporalReport, i: int)
    requires
        all_distinct(fact_ids(p.facts@)),
        0 <= i < p.facts@.len(),
        crate::temporal::temporal_report_ok(p, p.evaluation_time->0@, r),
    ensures
        strings_view(r.eligible_fact_ids@).contains(p.facts@[i].id@) == eligible(p, p.evaluation_time->0@, p.facts@[i]),
{
    let e = p.evaluation_time->0@;
    if crate::temporal::eligible_id(p, e, p.facts@[i].id@) {
        let k = choose|k: int| 0 <= k < p.facts@.len() && #[trigger] p.facts@[k].id@ == p.facts@[i].id@ && eligible(p, e, p.facts@[k]);
        assert(fact_ids(p.facts@)[k] == p.facts@[k].id@);
        assert(fact_ids(p.facts@)[i] == p.facts@[i].id@);
    }
}

/// With the program's temporal report, a fact's id is listed as eligible
/// exactly when the fact is in force.
pub proof fn lemma_report_eligible_opt(p: &Program, temporal: &Option<TemporalReport>, i: int)
    requires
        all_distinct(fact_ids(p.facts@)),
        0 <= i < p.facts@.len(),
        temporal matches Some(t) ==> crate::temporal::temporal_report_ok(p, p.evaluation_time->0@, &t),
    ensures
        temporal matches Some(t) ==> strings_view(t.eligible_fact_ids@).contains(p.facts@[i].id@) == eligible(
            p,
            p.evaluation_time->0@,
            p.facts@[i],
        ),
{
    if let Some(t) = temporal {
        lemma_report_eligible(p, t, i);
    }
}

/// A supplied fact as a known atom.
pub open spec fn fact_known(p: &Program, f: Fact) -> KnownAtomV {
    KnownAtomV { atom: f.atom@, derivation: DerivationV::Fact(f.id@, f.authority@, temporal_of(p, f)), round: 0 }
}

/// The known atoms from the first `a` facts in the given order: the first
/// participating fact for each atom.
pub open spec fn initial_map(p: &Program, order: Seq<usize>, a: nat) -> Map<Seq<char>, KnownAtomV>
    decreases a,
{
    if a == 0 {
        Map::empty()
    } else {
        let m = initial_map(p, order, (a - 1) as nat);
        let f = p.facts@[order[a - 1] as int];
        if participates_spec(p, f) && !m.contains_key(atom_key(f.atom@)) {
            m.insert(atom_key(f.atom@), fact_known(p, f))
        } else {
            m
        }
    }
}

/// The positions of the facts in ascending id order.
pub open spec fn fact_order(p: &Program) -> Seq<usize> {
    choose|o: Seq<usize>| is_sort_order(fact_ids(p.facts@), o)
}

/// The positions of the rules in ascending id order.
pub open spec fn rule_order_spec(p: &Program) -> Seq<usize> {
    choose|o: Seq<usize>| is_sort_order(rule_ids(p.rules@), o)
}

/// The known atoms before the first round, in ascending key order.
pub open spec fn initial_entries(p: &Program) -> Seq<(Seq<char>, KnownAtomV)> {
    choose|e: Seq<(Seq<char>, KnownAtomV)>|
        strictly_sorted(keyed_keys(e)) && keyed_map(e) == initial_map(p, fact_order(p), p.facts@.len())
}

/// Whether a fact takes part in reasoning: admitted, and in force in v2.
fn participates(program: &Program, temporal: &Option<TemporalReport>, index: usize) -> (b: bool)
    requires
        index < program.facts@.len(),
        all_distinct(fact_ids(program.facts@)),
        temporal is Some <==> is_v2(program),
        temporal matches Some(t) ==> crate::temporal::temporal_report_ok(program, program.evaluation_time->0@, &t),
    ensures
        b == (admits(&program.authority, program.facts@[index as int]) && (is_v2(program) ==> eligible(
            program,
            program.evaluation_time->0@,
            program.facts@[index as int],
        ))),
{
    let fact = &program.facts[index];
    if !authority_admits(&program.authority, fact) {
        return false;
    }
    match temporal {
        Some(report) => {
            proof { lemma_report_eligible(program, report, index as int); }
            strings_contain(&report.eligible_fact_ids, fact.id.as_str())
        },
        None => true,
    }
}

/// The supplied facts that take part in reasoning, in ascending id order;
/// the first such fact for each atom.
fn initial_known(program: &Program, temporal: &Option<TemporalReport>) -> (known: Known)
    requires
        all_distinct(fact_ids(program.facts@)),
        temporal is Some <==> is_v2(program),
        temporal matches Some(t) ==> crate::temporal::temporal_report_ok(program, program.evaluation_time->0@, &t),
    ensures
        known_ok(program, &known),
        forall|k: Seq<char>| #[trigger] known.has_key(k) ==> known.spec_get(k)->0.round == 0,
        known.entries().len() <= program.facts@.len(),
        facts_included(program, &known),
        entries_view(&known) == initial_entries(program),
{
    let facts = &program.facts;
    let ids = collect_fact_ids(facts);
    let order = sort_order(&ids);
    let mut known: Known = StrMap::new();
    proof {
        use_type_invariant(&known);
        assert(known_map(&known) =~= initial_map(program, order@, 0));
    }
    let mut a: usize = 0;
    while a < order.len()
        invariant
            facts == &program.facts,
            all_distinct(fact_ids(program.facts@)),
            temporal is Some <==> is_v2(program),
            temporal matches Some(t) ==> crate::temporal::temporal_report_ok(program, program.evaluation_time->0@, &t),
            is_sort_order(fact_ids(facts@), order@),
            a <= order@.len(),
            known_ok(program, &known),
            forall|k: Seq<char>| #[trigger] known.has_key(k) ==> known.spec_get(k)->0.round == 0,
            known.entries().len() <= a,
            forall|b: int| 0 <= b < a && #[trigger] participates_spec(program, program.facts@[order@[b] as int])
                ==> known.has_key(atom_key(program.facts@[order@[b] as int].atom@)),
            known_map(&known) == initial_map(program, order@, a as nat),
        decreases order.len() - a,
    {
        let idx = order[a];
        let fact = &facts[idx];
        let ghost before_a = known;
        if participates(program, temporal, idx) {
            let key = fact.atom.key();
            if !known.contains_key(key.as_str()) {
                let ka = KnownAtom {
                    atom: fact.atom.duplicate(),
                    derivation: Derivation::Fact {
                        fact_id: fact.id.clone(),
                        authority: fact.authority.clone(),
                        temporal: fact_temporal(program, fact),
                    },
                    round: 0,
                };
                let ghost before = known;
                let ghost kv = key@;
                known.insert(key, ka);
                proof {
                    assert(known_map(&known) =~= known_map(&before).insert(kv, fact_known(program, facts@[idx as int])));
                    assert(extends(&before, &known));
                    assert(fact_justifies(program, fact.id@, fact.atom@, fact.authority@, ka.derivation->temporal)) by {
                        assert(facts@[idx as int].id@ == fact.id@);
                    }
                    assert forall|k: Seq<char>| #[trigger] known.has_key(k) implies known_entry_ok(program, &known, k) by {
                        if k != kv {
                            lemma_entry_ok_extends(program, &before, &known, k);
                        }
                    }
                }
            }
        }
        proof {
            assert forall|b: int| 0 <= b < a + 1 && #[trigger] participates_spec(program, program.facts@[order@[b] as int])
                implies known.has_key(atom_key(program.facts@[order@[b] as int].atom@)) by {
                if b < a {
                    assert(before_a.has_key(atom_key(program.facts@[order@[b] as int].atom@)));
                }
            }
        }
        proof {
            assert(known_map(&known) == initial_map(program, order@, (a + 1) as nat));
        }
        a += 1;
    }
    proof {
        use_type_invariant(&known);
        lemma_known_map_entries(&known);
        crate::collections::lemma_sort_order_unique(fact_ids(program.facts@), order@, fact_order(program));
        let c = initial_entries(program);
        lemma_keyed_unique(c, entries_view(&known));
        assert forall|i: int| 0 <= i < program.facts@.len() && #[trigger] participates_spec(program, program.facts@[i])
            implies known.has_key(atom_key(program.facts@[i].atom@)) by {
            assert(fact_ids(program.facts@).len() == program.facts@.len());
            assert(occurs(order@, i));
            let b = choose|b: int| 0 <= b < order@.len() && #[trigger] order@[b] == i;
        }
    }
    known
}


/// Each snapshot entry is a known key with its atom.
pub open spec fn snapshot_of(known: &Known, snap: Seq<(String, Atom)>) -> bool {
    forall|j: int| 0 <= j < snap.len() ==> known.has_key(#[trigger] snap[j].0@) && known.spec_get(snap[j].0@)->0.atom@
        == snap[j].1@
}

/// The known keys and atoms, in ascending key order.
fn snapshot(known: &Known) -> (snap: Vec<(String, Atom)>)
    ensures
        snapshot_of(known, snap@),
        snap@.len() == known.entries().len(),
        forall|m: int| 0 <= m < snap@.len() ==> (#[trigger] snap@[m]).0@ == known.keys()[m],
        crate::engine::snapshot_atoms(snap@) == keyed_atoms(entries_view(known)),
{
    proof { use_type_invariant(known); }
    let mut snap: Vec<(String, Atom)> = Vec::new();
    let mut j: usize = 0;
    while j < known.len()
        invariant
            strictly_sorted(known.keys()),
            j <= known.entries().len(),
            snap@.len() == j,
            forall|m: int| 0 <= m < j ==> (#[trigger] snap@[m]).0@ == known.entries()[m].0@ && snap@[m].1@ == known.entries()[m].1.atom@,
        decreases known.entries().len() - j,
    {
        let k = known.key_at(j);
        let v = known.value_at(j);
        snap.push((k.clone(), v.atom.duplicate()));
        j += 1;
    }
    proof {
        assert forall|m: int| 0 <= m < snap@.len() implies known.has_key(#[trigger] snap@[m].0@) && known.spec_get(snap@[m].0@)->0.atom@
            == snap@[m].1@ by {
            crate::collections::lemma_entry_spec_get(known, m);
        }
        assert forall|m: int| 0 <= m < snap@.len() implies (#[trigger] snap@[m]).0@ == known.keys()[m] by {
            assert(known.keys()[m] == known.entries()[m].0@);
        }
        assert(crate::engine::snapshot_atoms(snap@) =~= keyed_atoms(entries_view(known)));
    }
    snap
}

/// The position of key `k` in a snapshot.
pub open spec fn position_of(snap: Seq<(String, Atom)>, k: Seq<char>) -> usize {
    choose|i: usize| (i as int) < snap.len() && (#[trigger] snap[i as int]).0@ == k
}

/// A known key has a position in a complete snapshot, holding its atom.
proof fn lemma_position_of(known: &Known, snap: Seq<(String, Atom)>, k: Seq<char>)
    requires
        snapshot_of(known, snap),
        snap.len() == known.entries().len(),
        snap.len() <= usize::MAX,
        forall|m: int| 0 <= m < snap.len() ==> (#[trigger] snap[m]).0@ == known.keys()[m],
        known.has_key(k),
    ensures
        (position_of(snap, k) as int) < snap.len(),
        snap[position_of(snap, k) as int].0@ == k,
        snap[position_of(snap, k) as int].1@ == known.spec_get(k)->0.atom@,
{
    let i = known.keys().index_of(k);
    assert(known.keys().len() == known.entries().len());
    assert(0 <= i < snap.len() && known.keys()[i] == k);
    assert(snap[i as usize as int].0@ == k);
    let j = position_of(snap, k);
    assert(known.has_key(snap[j as int].0@));
}

/// A fact takes part in reasoning: admitted, and in force in v2.
pub open spec fn participates_spec(p: &Program, f: Fact) -> bool {
    admits(&p.authority, f) && (is_v2(p) ==> eligible(p, p.evaluation_time->0@, f))
}

/// `a` is the atom stored under its own key.
pub open spec fn stored(known: &Known, a: AtomV) -> bool {
    known.has_key(atom_key(a)) && known.spec_get(atom_key(a))->0.atom@ == a
}

/// Every fact that takes part in reasoning is known.
pub open spec fn facts_included(p: &Program, known: &Known) -> bool {
    forall|i: int| 0 <= i < p.facts@.len() && #[trigger] participates_spec(p, p.facts@[i]) ==> known.has_key(
        atom_key(p.facts@[i].atom@),
    )
}

/// Rule `j` applied to known atoms gives an atom that is known or among the
/// additions.
pub open spec fn rule_closed_in(p: &Program, known: &Known, j: int, adds: Seq<(String, KnownAtom)>) -> bool {
    forall|prems: Seq<AtomV>|
        prems.len() == p.rules@[j].when@.len() && (forall|m: int| 0 <= m < prems.len() ==> stored(known, #[trigger] prems[m]))
            ==> match #[trigger] match_chain(atom_views(p.rules@[j].when@), prems, Map::empty()) {
            Some(b) => known_or_added(known, adds, atom_key(instantiate_spec(p.rules@[j].head@, b))),
            None => true,
        }
}

/// Every rule applied to known atoms gives a known atom.
pub open spec fn rules_closed(p: &Program, known: &Known) -> bool {
    forall|j: int| 0 <= j < p.rules@.len() ==> #[trigger] rule_closed_in(p, known, j, Seq::empty())
}

/// A fixpoint of forward chaining: every known atom is justified, every
/// participating fact is known, and no rule gives anything new.
pub open spec fn fixpoint(p: &Program, known: &Known) -> bool {
    &&& known_ok(p, known)
    &&& facts_included(p, known)
    &&& rules_closed(p, known)
}

/// The atom is derivable: its key is known in every fixpoint.
pub open spec fn derivable(p: &Program, a: AtomV) -> bool {
    forall|k: Known| #[trigger] fixpoint(p, &k) ==> k.has_key(atom_key(a))
}

/// The key is known now or among the additions.
pub open spec fn known_or_added(known: &Known, adds: Seq<(String, KnownAtom)>, k: Seq<char>) -> bool {
    known.has_key(k) || exists|a: int| 0 <= a < adds.len() && (#[trigger] adds[a]).0@ == k
}

/// `small` is a prefix of `big`.
pub open spec fn prefix_of<T>(small: Seq<T>, big: Seq<T>) -> bool {
    small.len() <= big.len() && forall|i: int| 0 <= i < small.len() ==> #[trigger] big[i] == small[i]
}

proof fn lemma_closed_grows(p: &Program, known: &Known, small: Seq<(String, KnownAtom)>, big: Seq<(String, KnownAtom)>, j: int)
    requires
        prefix_of(small, big),
        rule_closed_in(p, known, j, small),
    ensures
        rule_closed_in(p, known, j, big),
{
    assert forall|prems: Seq<AtomV>|
        prems.len() == p.rules@[j].when@.len() && (forall|m: int| 0 <= m < prems.len() ==> stored(known, #[trigger] prems[m]))
        implies match #[trigger] match_chain(atom_views(p.rules@[j].when@), prems, Map::empty()) {
            Some(b) => known_or_added(known, big, atom_key(instantiate_spec(p.rules@[j].head@, b))),
            None => true,
        } by {
        match match_chain(atom_views(p.rules@[j].when@), prems, Map::empty()) {
            Some(b) => {
                let k = atom_key(instantiate_spec(p.rules@[j].head@, b));
                assert(known_or_added(known, small, k));
                if !known.has_key(k) {
                    let a = choose|a: int| 0 <= a < small.len() && (#[trigger] small[a]).0@ == k;
                    assert(big[a] == small[a]);
                }
            },
            None => {},
        }
    }
}

/// New atoms derived in round `round`: each under its own key, new, and
/// justified by a rule applied to atoms already known before the round.
pub open spec fn additions_ok(p: &Program, known: &Known, adds: Seq<(String, KnownAtom)>, round: int) -> bool {
    &&& forall|a: int| 0 <= a < adds.len() ==> {
        let (k, ka) = #[trigger] adds[a];
        &&& k@ == atom_key(ka.atom@)
        &&& !known.has_key(k@)
        &&& ka.round == round
        &&& match ka.derivation {
            Derivation::Fact { .. } => false,
            Derivation::Rule { rule_id, premises } => {
                &&& forall|m: int| 0 <= m < premises@.len() ==> known.has_key(#[trigger] premises@[m]@)
                    && known.spec_get(premises@[m]@)->0.round < round
                &&& rule_justifies(p, rule_id@, premise_atoms(known, premises@), ka.atom@)
            },
        }
    }
    &&& forall|a: int, b: int| 0 <= a < b < adds.len() ==> (#[trigger] adds[a]).0@ != (#[trigger] adds[b]).0@
}

/// Whether `key` is among the keys of the additions.
fn added(adds: &Vec<(String, KnownAtom)>, key: &str) -> (b: bool)
    ensures
        b == exists|a: int| 0 <= a < adds@.len() && (#[trigger] adds@[a]).0@ == key@,
{
    let mut a: usize = 0;
    while a < adds.len()
        invariant
            a <= adds@.len(),
            forall|m: int| 0 <= m < a ==> (#[trigger] adds@[m]).0@ != key@,
        decreases adds.len() - a,
    {
        if crate::text::str_eq(adds[a].0.as_str(), key) {
            return true;
        }
        a += 1;
    }
    false
}

/// One round: every rule, in ascending id order, applied to every way its
/// body matches the known atoms; the conclusions not yet known, first
/// derivation first.
fn derive_round(program: &Program, rule_order: &Vec<usize>, known: &Known, round: usize) -> (adds: Vec<(String, KnownAtom)>)
    requires
        forall|a: int| 0 <= a < rule_order@.len() ==> (#[trigger] rule_order@[a]) < program.rules@.len(),
        forall|j: int| 0 <= j < program.rules@.len() ==> #[trigger] occurs(rule_order@, j),
        forall|k: Seq<char>| #[trigger] known.has_key(k) ==> known.spec_get(k)->0.round < round,
    ensures
        additions_ok(program, known, adds@, round as int),
        forall|j: int| 0 <= j < program.rules@.len() ==> #[trigger] rule_closed_in(
            program,
            known,
            j,
            adds@,
        ),
        keyed_view(adds@) == derive_round_spec(program, rule_order@, entries_view(known), round as nat),
{
    let snap = snapshot(known);
    let snap_len = snap.len();
    let ghost ev = entries_view(known);
    proof {
        assert forall|m: int| 0 <= m < ev.len() implies #[trigger] ev[m].0 == known.keys()[m] by {}
    }
    let mut adds: Vec<(String, KnownAtom)> = Vec::new();
    assert(keyed_view(adds@) =~= Seq::<(Seq<char>, KnownAtomV)>::empty());
    let mut a: usize = 0;
    while a < rule_order.len()
        invariant
            snap_len == snap@.len(),
            forall|x: int| 0 <= x < rule_order@.len() ==> (#[trigger] rule_order@[x]) < program.rules@.len(),
            forall|k: Seq<char>| #[trigger] known.has_key(k) ==> known.spec_get(k)->0.round < round,
            snapshot_of(known, snap@),
            snap@.len() == known.entries().len(),
            forall|m: int| 0 <= m < snap@.len() ==> (#[trigger] snap@[m]).0@ == known.keys()[m],
            a <= rule_order@.len(),
            additions_ok(program, known, adds@, round as int),
            forall|x: int| 0 <= x < a ==> #[trigger] rule_closed_in(
                program,
                known,
                rule_order@[x] as int,
                adds@,
            ),
            ev == entries_view(known),
            ev.len() == snap@.len(),
            forall|m: int| 0 <= m < ev.len() ==> #[trigger] ev[m].0 == known.keys()[m],
            crate::engine::snapshot_atoms(snap@) == keyed_atoms(ev),
            keyed_view(adds@) == derive_rules(program, rule_order@, ev, round as nat, a as nat),
        decreases rule_order.len() - a,
    {
        let ri = rule_order[a];
        let rule = &program.rules[ri];
        let states = satisfy(&rule.when, &snap);
        let ghost start = adds@;
        assert(crate::engine::states_view(states@) == rule_states(program, ri as int, ev));
        let mut s: usize = 0;
        while s < states.len()
            invariant
                forall|k: Seq<char>| #[trigger] known.has_key(k) ==> known.spec_get(k)->0.round < round,
                snapshot_of(known, snap@),
                ri < program.rules@.len(),
                rule == &program.rules@[ri as int],
                forall|x: int| 0 <= x < states@.len() ==> state_ok(rule.when@, snap@, rule.when@.len() as int, #[trigger] states@[x]),
                s <= states@.len(),
                additions_ok(program, known, adds@, round as int),
                prefix_of(start, adds@),
                forall|x: int| 0 <= x < s ==> known_or_added(
                    known,
                    adds@,
                    atom_key(instantiate_spec(rule.head@, crate::engine::bindings_view(&(#[trigger] states@[x]).0))),
                ),
                ev == entries_view(known),
                ev.len() == snap@.len(),
                forall|m: int| 0 <= m < ev.len() ==> #[trigger] ev[m].0 == known.keys()[m],
                forall|m: int| 0 <= m < snap@.len() ==> (#[trigger] snap@[m]).0@ == known.keys()[m],
                crate::engine::states_view(states@) == rule_states(program, ri as int, ev),
                keyed_view(adds@) == derive_states(
                    program,
                    ri as int,
                    ev,
                    round as nat,
                    keyed_view(start),
                    crate::engine::states_view(states@),
                    s as nat,
                ),
            decreases states.len() - s,
        {
            let state = &states[s];
            assert(state_ok(rule.when@, snap@, rule.when@.len() as int, states@[s as int]));
            let atom = instantiate(&rule.head, &state.0);
            let key = atom.key();
            let ghost before_s = adds@;
            proof {
                assert(crate::engine::states_view(states@)[s as int] == crate::engine::state_view(states@[s as int]));
                assert(known.has_key(key@) == keyed_has(ev, key@)) by {
                    if known.has_key(key@) {
                        let i = choose|i: int| 0 <= i < known.keys().len() && known.keys()[i] == key@;
                        assert(ev[i].0 == key@);
                    }
                    if keyed_has(ev, key@) {
                        let i = choose|i: int| 0 <= i < ev.len() && (#[trigger] ev[i]).0 == key@;
                        assert(known.keys()[i] == key@);
                    }
                }
                assert((exists|w: int| 0 <= w < adds@.len() && (#[trigger] adds@[w]).0@ == key@) == keyed_has(keyed_view(adds@), key@)) by {
                    if exists|w: int| 0 <= w < adds@.len() && (#[trigger] adds@[w]).0@ == key@ {
                        let w = choose|w: int| 0 <= w < adds@.len() && (#[trigger] adds@[w]).0@ == key@;
                        assert(keyed_view(adds@)[w].0 == key@);
                    }
                    if keyed_has(keyed_view(adds@), key@) {
                        let w = choose|w: int| 0 <= w < keyed_view(adds@).len() && (#[trigger] keyed_view(adds@)[w]).0 == key@;
                        assert(adds@[w].0@ == key@);
                    }
                }
            }
            if !known.contains_key(key.as_str()) && !added(&adds, key.as_str()) {
                let premises = crate::model::clone_strings(&state.1);
                let ka = KnownAtom {
                    atom,
                    derivation: Derivation::Rule { rule_id: rule.id.clone(), premises },
                    round,
                };
                proof {
                    let pv = premise_atoms(known, premises@);
                    assert(pv =~= atoms_at(snap@, state.2@)) by {
                        assert forall|m: int| 0 <= m < pv.len() implies #[trigger] pv[m] == atoms_at(snap@, state.2@)[m] by {
                            assert(crate::json::strings_view(premises@)[m] == crate::json::strings_view(state.1@)[m]);
                            assert(crate::json::strings_view(premises@)[m] == premises@[m]@);
                            assert(crate::json::strings_view(state.1@)[m] == state.1@[m]@);
                            let j = state.2@[m] as int;
                            assert(snap@[j].0@ == state.1@[m]@);
                        }
                    }
                    assert(atom_views(rule.when@).take(rule.when@.len() as int) =~= atom_views(rule.when@));
                    assert(rule_yields(*rule, pv, ka.atom@));
                    assert(rule_justifies(program, rule.id@, pv, ka.atom@));
                    assert forall|m: int| 0 <= m < premises@.len() implies known.has_key(#[trigger] premises@[m]@)
                        && known.spec_get(premises@[m]@)->0.round < round by {
                        assert(crate::json::strings_view(premises@)[m] == crate::json::strings_view(state.1@)[m]);
                        assert(crate::json::strings_view(premises@)[m] == premises@[m]@);
                        assert(crate::json::strings_view(state.1@)[m] == state.1@[m]@);
                        let j = state.2@[m] as int;
                        assert(snap@[j].0@ == state.1@[m]@);
                    }
                }
                let ghost before = adds@;
                proof {
                    let pv2 = states@[s as int].2@.map_values(|j: usize| ev[j as int].0);
                    assert(strings_view(premises@) =~= pv2) by {
                        assert forall|m: int| 0 <= m < pv2.len() implies #[trigger] strings_view(premises@)[m] == pv2[m] by {
                            assert(crate::json::strings_view(premises@)[m] == crate::json::strings_view(state.1@)[m]);
                            assert(crate::json::strings_view(state.1@)[m] == state.1@[m]@);
                            let jj = state.2@[m] as int;
                            assert(snap@[jj].0@ == known.keys()[jj]);
                        }
                    }
                }
                adds.push((key, ka));
                proof {
                    assert forall|x: int, y: int| 0 <= x < y < adds@.len() implies (#[trigger] adds@[x]).0@ != (#[trigger] adds@[y]).0@ by {
                        if y == before.len() {
                            assert(adds@[x] == before[x]);
                        } else {
                            assert(adds@[x] == before[x]);
                            assert(adds@[y] == before[y]);
                        }
                    }
                    assert forall|x: int| 0 <= x < adds@.len() implies {
                        let (k, ka) = #[trigger] adds@[x];
                        &&& k@ == atom_key(ka.atom@)
                        &&& !known.has_key(k@)
                        &&& ka.round == round
                        &&& match ka.derivation {
                            Derivation::Fact { .. } => false,
                            Derivation::Rule { rule_id, premises } => {
                                &&& forall|m: int| 0 <= m < premises@.len() ==> known.has_key(#[trigger] premises@[m]@)
                                    && known.spec_get(premises@[m]@)->0.round < round
                                &&& rule_justifies(program, rule_id@, premise_atoms(known, premises@), ka.atom@)
                            },
                        }
                    } by {
                        if x < before.len() {
                            assert(adds@[x] == before[x]);
                        }
                    }
                    assert(adds@[before.len() as int].0@ == key@);
                }
            }
            proof {
                assert(keyed_view(adds@) == derive_step(
                    program,
                    ri as int,
                    ev,
                    round as nat,
                    keyed_view(before_s),
                    crate::engine::states_view(states@)[s as int],
                )) by {
                    if adds@.len() != before_s.len() {
                        assert(keyed_view(adds@) =~= keyed_view(before_s).push(keyed_view(adds@)[before_s.len() as int]));
                    } else {
                        assert(keyed_view(adds@) =~= keyed_view(before_s));
                    }
                }
                assert(prefix_of(before_s, adds@));
                assert(prefix_of(start, adds@)) by {
                    assert forall|i: int| 0 <= i < start.len() implies #[trigger] adds@[i] == start[i] by {
                        assert(adds@[i] == before_s[i]);
                    }
                }
                assert forall|x: int| 0 <= x < s + 1 implies known_or_added(
                    known,
                    adds@,
                    atom_key(instantiate_spec(rule.head@, crate::engine::bindings_view(&(#[trigger] states@[x]).0))),
                ) by {
                    let k = atom_key(instantiate_spec(rule.head@, crate::engine::bindings_view(&states@[x].0)));
                    if x < s && !known.has_key(k) {
                        let w = choose|w: int| 0 <= w < before_s.len() && (#[trigger] before_s[w]).0@ == k;
                        assert(adds@[w] == before_s[w]);
                    }
                    if x == s && !known.has_key(k) && adds@.len() == before_s.len() {
                        assert(exists|w: int| 0 <= w < before_s.len() && (#[trigger] before_s[w]).0@ == k);
                    }
                }
            }
            s += 1;
        }
        proof {
            let keys_now = adds@;
            assert forall|x: int| 0 <= x < a + 1 implies #[trigger] rule_closed_in(
                program,
                known,
                rule_order@[x] as int,
                adds@,
            ) by {
                if x < a {
                    lemma_closed_grows(program, known, start, adds@, rule_order@[x] as int);
                } else {
                    let j = ri as int;
                    let when = rule.when@;
                    assert forall|prems: Seq<AtomV>|
                        prems.len() == when.len() && (forall|m: int| 0 <= m < prems.len() ==> stored(known, #[trigger] prems[m]))
                        implies match #[trigger] match_chain(atom_views(program.rules@[j].when@), prems, Map::empty()) {
                            Some(b) => known_or_added(known, adds@, atom_key(instantiate_spec(program.rules@[j].head@, b))),
                            None => true,
                        } by {
                        match match_chain(atom_views(when), prems, Map::empty()) {
                            Some(b) => {
                                let idx = Seq::new(prems.len(), |m: int| position_of(snap@, atom_key(prems[m])));
                                assert forall|m: int| 0 <= m < prems.len() implies #[trigger] idx[m] < snap@.len()
                                    && snap@[idx[m] as int].1@ == prems[m] by {
                                    assert(stored(known, prems[m]));
                                    lemma_position_of(known, snap@, atom_key(prems[m]));
                                }
                                assert(crate::engine::positions_ok(snap@, idx));
                                assert(atoms_at(snap@, idx) =~= prems) by {
                                    assert forall|m: int| 0 <= m < prems.len() implies #[trigger] atoms_at(snap@, idx)[m] == prems[m] by {
                                        assert(idx[m] < snap@.len());
                                    }
                                }
                                assert(match_chain(atom_views(when), atoms_at(snap@, idx), Map::empty()) is Some);
                                assert(crate::engine::has_idx(states@, idx));
                                let x2 = choose|x2: int| 0 <= x2 < states@.len() && (#[trigger] states@[x2]).2@ == idx;
                                assert(state_ok(when, snap@, when.len() as int, states@[x2]));
                                assert(atom_views(when).take(when.len() as int) =~= atom_views(when));
                                assert(b == crate::engine::bindings_view(&states@[x2].0));
                                assert(known_or_added(
                                    known,
                                    adds@,
                                    atom_key(instantiate_spec(rule.head@, crate::engine::bindings_view(&states@[x2].0))),
                                ));
                            },
                            None => {},
                        }
                    }
                }
            }
        }
        a += 1;
    }
    proof {
        assert forall|j: int| 0 <= j < program.rules@.len() implies #[trigger] rule_closed_in(
            program,
            known,
            j,
            adds@,
        ) by {
            assert(occurs(rule_order@, j));
            let x = choose|x: int| 0 <= x < rule_order@.len() && #[trigger] rule_order@[x] == j;
            assert(rule_closed_in(program, known, rule_order@[x] as int, adds@));
        }
    }
    adds
}

/// Adds the new atoms of a round to the known atoms.
fn merge(program: &Program, known: &mut Known, adds: Vec<(String, KnownAtom)>, round: usize)
    requires
        round > 0,
        known_ok(program, old(known)),
        forall|k: Seq<char>| #[trigger] old(known).has_key(k) ==> old(known).spec_get(k)->0.round < round,
        additions_ok(program, old(known), adds@, round as int),
    ensures
        known_ok(program, final(known)),
        extends(old(known), final(known)),
        forall|k: Seq<char>| #[trigger] final(known).has_key(k) ==> final(known).spec_get(k)->0.round <= round,
        final(known).entries().len() == old(known).entries().len() + adds@.len(),
        forall|a: int| 0 <= a < adds@.len() ==> #[trigger] final(known).spec_get(adds@[a].0@) == Some(adds@[a].1),
        entries_view(final(known)) == merged(entries_view(old(known)), keyed_view(adds@)),
{
    proof { use_type_invariant(&*known); }
    let ghost base = *known;
    let ghost all = adds@;
    assert(all.len() == adds.len());
    let mut adds = adds;
    let mut rev: Vec<(String, KnownAtom)> = Vec::new();
    while adds.len() > 0
        invariant
            adds@.len() + rev@.len() == all.len(),
            all.len() <= usize::MAX,
            adds@ == all.take(adds@.len() as int),
            forall|k: int| 0 <= k < rev@.len() ==> #[trigger] rev@[k] == all[all.len() - 1 - k],
        decreases adds.len(),
    {
        let ghost n = adds@.len();
        let e = adds.pop().unwrap();
        assert(e == all[n - 1]);
        rev.push(e);
        assert(adds@ =~= all.take(n - 1));
    }
    let mut i: usize = 0;
    while rev.len() > 0
        invariant
            round > 0,
            known_ok(program, &base),
            forall|k: Seq<char>| #[trigger] base.has_key(k) ==> base.spec_get(k)->0.round < round,
            additions_ok(program, &base, all, round as int),
            i + rev@.len() == all.len(),
            all.len() <= usize::MAX,
            forall|k: int| 0 <= k < rev@.len() ==> #[trigger] rev@[k] == all[all.len() - 1 - k],
            extends(&base, known),
            known.entries().len() == base.entries().len() + i,
            forall|k: Seq<char>| #[trigger] known.has_key(k) <==> (base.has_key(k) || exists|a: int| 0 <= a < i && (#[trigger] all[a]).0@ == k),
            forall|a: int| 0 <= a < i ==> known.spec_get((#[trigger] all[a]).0@) == Some(all[a].1),
        decreases rev.len(),
    {
        let ghost n = rev@.len();
        let (k, ka) = rev.pop().unwrap();
        assert((k, ka) == all[i as int]);
        let ghost before = *known;
        let ghost kv = k@;
        assert(!known.has_key(kv)) by {
            assert(!base.has_key(kv));
            if exists|a: int| 0 <= a < i && (#[trigger] all[a]).0@ == kv {
                let a = choose|a: int| 0 <= a < i && (#[trigger] all[a]).0@ == kv;
                assert(all[a].0@ != all[i as int].0@);
            }
        }
        known.insert(k, ka);
        proof {
            assert forall|a: int| 0 <= a < i + 1 implies known.spec_get((#[trigger] all[a]).0@) == Some(all[a].1) by {
                if a < i {
                    assert(all[a].0@ != all[i as int].0@);
                }
            }
            assert forall|t: Seq<char>| #[trigger] known.has_key(t) <==> (base.has_key(t) || exists|a: int| 0 <= a < i + 1 && (#[trigger] all[a]).0@ == t) by {
                if t == kv {
                    assert(all[i as int].0@ == t);
                }
                if exists|a: int| 0 <= a < i + 1 && (#[trigger] all[a]).0@ == t {
                    let a = choose|a: int| 0 <= a < i + 1 && (#[trigger] all[a]).0@ == t;
                    if a < i {
                        assert(before.has_key(t));
                    }
                }
            }
        }
        i += 1;
    }
    proof {
        assert forall|k: Seq<char>| #[trigger] known.has_key(k) implies known_entry_ok(program, known, k) by {
            if base.has_key(k) {
                lemma_entry_ok_extends(program, &base, known, k);
            } else {
                let a = choose|a: int| 0 <= a < all.len() && (#[trigger] all[a]).0@ == k;
                let ka = all[a].1;
                assert(known.spec_get(k) == Some(ka));
                assert(k == atom_key(ka.atom@));
                match ka.derivation {
                    Derivation::Fact { .. } => {},
                    Derivation::Rule { rule_id, premises } => {
                        assert forall|m: int| 0 <= m < premises@.len() implies known.has_key(#[trigger] premises@[m]@)
                            && known.spec_get(premises@[m]@)->0.round < ka.round by {
                            assert(base.has_key(premises@[m]@));
                        }
                        assert(premise_atoms(known, premises@) =~= premise_atoms(&base, premises@)) by {
                            assert forall|m: int| 0 <= m < premises@.len() implies #[trigger] premise_atoms(known, premises@)[m]
                                == premise_atoms(&base, premises@)[m] by {
                                assert(base.has_key(premises@[m]@));
                            }
                        }
                    },
                }
            }
        }
        assert forall|k: Seq<char>| #[trigger] known.has_key(k) implies known.spec_get(k)->0.round <= round by {
            if !base.has_key(k) {
                let a = choose|a: int| 0 <= a < all.len() && (#[trigger] all[a]).0@ == k;
            }
        }
        use_type_invariant(&*known);
        let av = keyed_view(all);
        assert(keyed_keys(av).no_duplicates()) by {
            assert forall|x: int, y: int| 0 <= x < keyed_keys(av).len() && 0 <= y < keyed_keys(av).len() && x != y implies keyed_keys(
                av,
            )[x] != keyed_keys(av)[y] by {
                if x < y {
                    assert(all[x].0@ != all[y].0@);
                } else {
                    assert(all[y].0@ != all[x].0@);
                }
            }
        }
        lemma_known_map_entries(known);
        lemma_known_map_entries(&base);
        let target = keyed_map(entries_view(&base)).union_prefer_right(keyed_map(av));
        assert forall|x: Seq<char>| #[trigger] known_map(known).contains_key(x) == target.contains_key(x) by {
            if keyed_has(av, x) {
                let a = choose|a: int| 0 <= a < av.len() && (#[trigger] av[a]).0 == x;
                assert(all[a].0@ == x);
            }
            if exists|a: int| 0 <= a < all.len() && (#[trigger] all[a]).0@ == x {
                let a = choose|a: int| 0 <= a < all.len() && (#[trigger] all[a]).0@ == x;
                assert(av[a].0 == x);
            }
        }
        assert forall|x: Seq<char>| #[trigger] known_map(known).contains_key(x) implies known_map(known)[x] == target[x] by {
            if keyed_has(av, x) {
                let a = choose|a: int| 0 <= a < av.len() && (#[trigger] av[a]).0 == x;
                assert(all[a].0@ == x);
                lemma_keyed_map_at(av, a);
                assert(known.spec_get(all[a].0@) == Some(all[a].1));
            } else {
                assert(base.has_key(x));
            }
        }
        assert(known_map(known) =~= target);
        let e = entries_view(known);
        assert(strictly_sorted(keyed_keys(e)) && keyed_map(e) == target);
        let c = merged(entries_view(&base), av);
        assert(strictly_sorted(keyed_keys(c)) && keyed_map(c) == target);
        lemma_keyed_unique(c, e);
    }
}


/// Some known atom was derived in round `j` (so forward chaining that ends
/// with `known` had `j` rounds that each derived something new).
pub open spec fn round_derived(known: &Known, j: int) -> bool {
    exists|k: Seq<char>| #[trigger] known.has_key(k) && known.spec_get(k)->0.round == j
}

/// Forward chaining on the program derives something new in each of 1024
/// successive rounds.
pub open spec fn saturation_limited(p: &Program) -> bool {
    exists|k: Known|
        known_ok(p, &k) && forall|j: int| 1 <= j <= 1024 ==> #[trigger] round_derived(&k, j)
}

/// Forward chaining: rounds of `derive_round` until a round derives nothing
/// new. Returns the number of rounds and of rule evaluations, or `None` when
/// 1024 rounds did not reach the fixpoint.
fn saturate(program: &Program, rule_order: &Vec<usize>, known: &mut Known) -> (r: Option<(usize, usize)>)
    requires
        forall|a: int| 0 <= a < rule_order@.len() ==> (#[trigger] rule_order@[a]) < program.rules@.len(),
        forall|j: int| 0 <= j < program.rules@.len() ==> #[trigger] occurs(rule_order@, j),
        rule_order@.len() * 1024 <= usize::MAX,
        known_ok(program, old(known)),
        forall|k: Seq<char>| #[trigger] old(known).has_key(k) ==> old(known).spec_get(k)->0.round == 0,
    ensures
        known_ok(program, final(known)),
        extends(old(known), final(known)),
        final(known).entries().len() >= old(known).entries().len(),
        r matches Some((rounds, evaluations)) ==> 1 <= rounds <= 1024 && evaluations == rounds * rule_order@.len(),
        r matches Some((rounds, evaluations)) ==> forall|k: Seq<char>| #[trigger] final(known).has_key(k) ==> final(known).spec_get(
            k,
        )->0.round < rounds,
        r matches Some((rounds, evaluations)) ==> forall|j: int| 1 <= j < rounds ==> #[trigger] round_derived(final(known), j),
        r is None ==> forall|j: int| 1 <= j <= 1024 ==> #[trigger] round_derived(final(known), j),
        r is Some ==> rules_closed(program, final(known)),
        r matches Some((rounds, evaluations)) ==> entries_view(final(known)) == trace(
            program,
            rule_order@,
            entries_view(old(known)),
            (rounds - 1) as nat,
        ) && derive_round_spec(program, rule_order@, entries_view(final(known)), rounds as nat).len() == 0,
        forall|j: int|
            1 <= j <= 1024 && (r is None || (r matches Some((rounds, evaluations)) && j < rounds)) ==> #[trigger] derive_round_spec(
                program,
                rule_order@,
                trace(program, rule_order@, entries_view(old(known)), (j - 1) as nat),
                j as nat,
            ).len() > 0,
{
    let ghost start = *known;
    let n = rule_order.len();
    let mut rounds: usize = 0;
    let mut evaluations: usize = 0;
    loop
        invariant
            forall|a: int| 0 <= a < rule_order@.len() ==> (#[trigger] rule_order@[a]) < program.rules@.len(),
            forall|j: int| 0 <= j < program.rules@.len() ==> #[trigger] occurs(rule_order@, j),
            n == rule_order@.len(),
            n * 1024 <= usize::MAX,
            start == *old(known),
            rounds <= 1024,
            evaluations == rounds * n,
            known_ok(program, known),
            extends(&start, known),
            known.entries().len() >= start.entries().len(),
            forall|k: Seq<char>| #[trigger] known.has_key(k) ==> known.spec_get(k)->0.round <= rounds,
            forall|j: int| 1 <= j <= rounds ==> #[trigger] round_derived(known, j),
            entries_view(known) == trace(program, rule_order@, entries_view(&start), rounds as nat),
            forall|j: int|
                1 <= j <= rounds ==> #[trigger] derive_round_spec(
                    program,
                    rule_order@,
                    trace(program, rule_order@, entries_view(&start), (j - 1) as nat),
                    j as nat,
                ).len() > 0,
        decreases 1024 - rounds,
    {
        if rounds == 1024 {
            return None;
        }
        proof {
            assert(rounds * n + n == (rounds + 1) * n) by (nonlinear_arith);
            assert((rounds + 1) * n <= n * 1024) by (nonlinear_arith)
                requires rounds < 1024, n >= 0;
        }
        rounds += 1;
        evaluations += n;
        let adds = derive_round(program, rule_order, known, rounds);
        if adds.len() == 0 {
            proof {
                assert(keyed_view(adds@).len() == 0);
                assert forall|j: int| 0 <= j < program.rules@.len() implies #[trigger] rule_closed_in(
                    program,
                    known,
                    j,
                    Seq::empty(),
                ) by {
                    assert(rule_closed_in(program, known, j, adds@));
                    assert(adds@ =~= Seq::<(String, KnownAtom)>::empty());
                }
            }
            return Some((rounds, evaluations));
        }
        let ghost before = *known;
        let ghost added = adds@;
        proof {
            assert(keyed_view(added).len() > 0);
        }
        merge(program, known, adds, rounds);
        proof {
            assert(entries_view(known) == trace(program, rule_order@, entries_view(&start), rounds as nat));
            assert(known.spec_get(added[0].0@) == Some(added[0].1));
            assert(round_derived(known, rounds as int));
            assert forall|j: int| 1 <= j <= rounds implies #[trigger] round_derived(known, j) by {
                if j < rounds {
                    assert(round_derived(&before, j));
                    let k = choose|k: Seq<char>| #[trigger] before.has_key(k) && before.spec_get(k)->0.round == j;
                    assert(known.has_key(k));
                }
            }
            assert forall|k: Seq<char>| #[trigger] start.has_key(k) implies known.has_key(k) && known.spec_get(k) == start.spec_get(k) by {
                assert(before.has_key(k));
            }
        }
    }
}

/// A proof node as a value.
pub struct ProofNodeV {
    pub id: Seq<char>,
    pub kind: ProofNodeKind,
    pub atom: AtomV,
    pub source_id: Option<Seq<char>>,
    pub authority: Option<Seq<char>>,
    pub temporal: TemporalV,
    pub premises: Seq<Seq<char>>,
}

pub open spec fn node_view(n: ProofNode) -> ProofNodeV {
    ProofNodeV {
        id: n.id@,
        kind: n.kind,
        atom: n.atom@,
        source_id: crate::model::opt_view(n.source_id),
        authority: crate::model::opt_view(n.authority),
        temporal: temporal_view(n.temporal),
        premises: strings_view(n.premises@),
    }
}

/// The nodes of a map as values, by id.
pub open spec fn node_map(m: &StrMap<ProofNode>) -> Map<Seq<char>, ProofNodeV> {
    Map::new(|x: Seq<char>| m.has_key(x), |x: Seq<char>| node_view(m.spec_get(x)->0))
}

/// The node entries of a map as values, in ascending id order.
pub open spec fn node_entries(m: &StrMap<ProofNode>) -> Seq<(Seq<char>, ProofNodeV)> {
    m.entries().map_values(|e: (String, ProofNode)| (e.0@, node_view(e.1)))
}

/// The entries of a node map hold exactly its ids and nodes.
pub proof fn lemma_node_map_entries(m: &StrMap<ProofNode>)
    requires
        strictly_sorted(m.keys()),
    ensures
        keyed_keys(node_entries(m)) == m.keys(),
        keyed_map(node_entries(m)) == node_map(m),
{
    let e = node_entries(m);
    assert(keyed_keys(e) =~= m.keys());
    crate::collections::lemma_sorted_no_duplicates(m.keys());
    assert forall|x: Seq<char>| #[trigger] keyed_map(e).contains_key(x) == node_map(m).contains_key(x) by {
        if m.has_key(x) {
            let i = choose|i: int| 0 <= i < m.keys().len() && m.keys()[i] == x;
            assert(e[i].0 == x);
        }
        if keyed_has(e, x) {
            let i = choose|i: int| 0 <= i < e.len() && (#[trigger] e[i]).0 == x;
            assert(m.keys()[i] == x);
        }
    }
    assert forall|x: Seq<char>| #[trigger] node_map(m).contains_key(x) implies keyed_map(e)[x] == node_map(m)[x] by {
        crate::collections::lemma_spec_get_entry(m, x);
        let i = m.keys().index_of(x);
        lemma_keyed_map_at(e, i);
    }
    assert(keyed_map(e) =~= node_map(m));
}

/// Every rule-derived known atom names known premises from earlier rounds.
pub open spec fn known_map_ok(km: Map<Seq<char>, KnownAtomV>) -> bool {
    forall|k: Seq<char>|
        #[trigger] km.contains_key(k) ==> match km[k].derivation {
            DerivationV::Rule(_, prems) => forall|i: int|
                0 <= i < prems.len() ==> km.contains_key(#[trigger] prems[i]) && km[prems[i]].round < km[k].round,
            DerivationV::Fact(_, _, _) => true,
        }
}

/// The known atoms of a justified map name known premises from earlier rounds.
pub proof fn lemma_known_map_ok(p: &Program, known: &Known)
    requires
        known_ok(p, known),
    ensures
        known_map_ok(known_map(known)),
{
    let km = known_map(known);
    assert forall|k: Seq<char>| #[trigger] km.contains_key(k) implies match km[k].derivation {
        DerivationV::Rule(_, prems) => forall|i: int|
            0 <= i < prems.len() ==> km.contains_key(#[trigger] prems[i]) && km[prems[i]].round < km[k].round,
        DerivationV::Fact(_, _, _) => true,
    } by {
        assert(known_entry_ok(p, known, k));
        match known.spec_get(k)->0.derivation {
            Derivation::Rule { rule_id, premises } => {
                assert forall|i: int| 0 <= i < premises@.len() implies km.contains_key(#[trigger] strings_view(premises@)[i])
                    && km[strings_view(premises@)[i]].round < km[k].round by {
                    assert(strings_view(premises@)[i] == premises@[i]@);
                    assert(known.has_key(premises@[i]@));
                }
            },
            Derivation::Fact { .. } => {},
        }
    }
}

/// The proof node of a known atom whose premises have the given node ids.
pub open spec fn known_node(ka: KnownAtomV, premise_ids: Seq<Seq<char>>) -> ProofNodeV {
    let id = node_id_spec(ka.atom);
    match ka.derivation {
        DerivationV::Fact(fid, auth, t) => ProofNodeV {
            id,
            kind: ProofNodeKind::Fact,
            atom: ka.atom,
            source_id: Some(fid),
            authority: Some(auth),
            temporal: t,
            premises: Seq::empty(),
        },
        DerivationV::Rule(rid, _) => ProofNodeV {
            id,
            kind: ProofNodeKind::Derivation,
            atom: ka.atom,
            source_id: Some(rid),
            authority: None,
            temporal: None,
            premises: premise_ids,
        },
    }
}

/// The node ids of the atoms known under the given keys.
pub open spec fn premise_node_ids(km: Map<Seq<char>, KnownAtomV>, prems: Seq<Seq<char>>) -> Seq<Seq<char>> {
    prems.map_values(|q: Seq<char>| node_id_spec(km[q].atom))
}

/// The nodes after collecting the proof of the atom under `key` into `m`:
/// its premises first, in order, then its own node, unless a node with its
/// id is there already.
pub open spec fn collect_spec(km: Map<Seq<char>, KnownAtomV>, key: Seq<char>, m: Map<Seq<char>, ProofNodeV>) -> Map<
    Seq<char>,
    ProofNodeV,
>
    decreases km[key].round, 1nat, 0nat,
    when known_map_ok(km) && km.contains_key(key)
{
    let ka = km[key];
    let id = node_id_spec(ka.atom);
    if m.contains_key(id) {
        m
    } else {
        match ka.derivation {
            DerivationV::Fact(_, _, _) => m.insert(id, known_node(ka, Seq::empty())),
            DerivationV::Rule(_, prems) => {
                let m2 = collect_fold(km, ka.round, prems, prems.len(), m);
                m2.insert(id, known_node(ka, premise_node_ids(km, prems)))
            },
        }
    }
}

/// The nodes after collecting the proofs of the first `i` premises.
pub open spec fn collect_fold(
    km: Map<Seq<char>, KnownAtomV>,
    r: nat,
    prems: Seq<Seq<char>>,
    i: nat,
    m: Map<Seq<char>, ProofNodeV>,
) -> Map<Seq<char>, ProofNodeV>
    decreases r, 0nat, i,
    when known_map_ok(km) && i <= prems.len() && forall|j: int|
        0 <= j < prems.len() ==> km.contains_key(#[trigger] prems[j]) && km[prems[j]].round < r
{
    if i == 0 {
        m
    } else {
        collect_spec(km, prems[i - 1], collect_fold(km, r, prems, (i - 1) as nat, m))
    }
}

/// A lifecycle record's contents as a serde_json `Value`.
pub open spec fn temporal_value_v(t: (Seq<char>, Option<Seq<char>>, Option<Seq<char>>, Seq<Seq<char>>)) -> JsonV {
    let sup: Option<JsonV> = if t.3.len() > 0 {
        Some(JsonV::Array(crate::json::strings_json(t.3)))
    } else {
        None
    };
    let s = crate::certificate::opt_members("supersedes"@, sup);
    let f = crate::certificate::opt_members("valid_from"@, match t.1 { Some(v) => Some(JsonV::Str(v)), None => None });
    let u = crate::certificate::opt_members("valid_until"@, match t.2 { Some(v) => Some(JsonV::Str(v)), None => None });
    JsonV::Object(seq!["observed_at"@] + s.0 + f.0 + u.0, seq![JsonV::Str(t.0)] + s.1 + f.1 + u.1)
}

/// A proof node value as a serde_json `Value`.
pub open spec fn node_value_v(n: ProofNodeV) -> JsonV {
    let au = crate::certificate::opt_members("authority"@, match n.authority { Some(v) => Some(JsonV::Str(v)), None => None });
    let src = crate::certificate::opt_members("source_id"@, match n.source_id { Some(v) => Some(JsonV::Str(v)), None => None });
    let tm = crate::certificate::opt_members("temporal"@, match n.temporal { Some(t) => Some(temporal_value_v(t)), None => None });
    JsonV::Object(
        seq!["atom"@] + au.0 + seq!["id"@, "kind"@, "premises"@] + src.0 + tm.0,
        seq![crate::certificate::atom_value(n.atom)] + au.1 + seq![
            JsonV::Str(n.id),
            JsonV::Str(crate::certificate::kind_name(n.kind)),
            JsonV::Array(crate::json::strings_json(n.premises)),
        ] + src.1 + tm.1,
    )
}

/// A node's value depends on its contents alone.
pub proof fn lemma_node_value_v(n: ProofNode)
    ensures
        crate::certificate::node_value(n) == node_value_v(node_view(n)),
{
    match n.temporal {
        Some(t) => {
            assert(crate::certificate::temporal_value(t) == temporal_value_v(temporal_view(n.temporal)->0));
        },
        None => {},
    }
}

/// A proof as a value.
pub struct ProofV {
    pub root: Seq<char>,
    pub nodes: Seq<ProofNodeV>,
    pub digest: Seq<char>,
}

pub open spec fn proof_view(p: Proof) -> ProofV {
    ProofV { root: p.root@, nodes: p.nodes@.map_values(|n: ProofNode| node_view(n)), digest: p.digest@ }
}

/// The digest of a proof with the given root and node values.
pub open spec fn proof_digest_v(root: Seq<char>, nodes: Seq<ProofNodeV>) -> Seq<char> {
    crate::model::json_digest(
        JsonV::Object(
            seq!["nodes"@, "root"@],
            seq![JsonV::Array(nodes.map_values(|n: ProofNodeV| node_value_v(n))), JsonV::Str(root)],
        ),
    )
}

/// The proof of the atom known under `key`: every node collected from it, in
/// ascending id order.
pub open spec fn proof_spec(km: Map<Seq<char>, KnownAtomV>, key: Seq<char>) -> ProofV {
    let e = choose|e: Seq<(Seq<char>, ProofNodeV)>|
        strictly_sorted(keyed_keys(e)) && keyed_map(e) == collect_spec(km, key, Map::empty());
    let nodes = e.map_values(|x: (Seq<char>, ProofNodeV)| x.1);
    let root = node_id_spec(km[key].atom);
    ProofV { root, nodes, digest: proof_digest_v(root, nodes) }
}

/// The keys of a map, as a set.
pub open spec fn key_set<V>(m: &StrMap<V>) -> Set<Seq<char>> {
    Set::new(|x: Seq<char>| m.has_key(x))
}

/// A proof node is justified: its id is the digest of its atom, and it is a
/// fact node supported by a fact, or a derivation node whose premises are
/// nodes of the proof with the ids of atoms to which its rule applies to give
/// the node's atom.
pub open spec fn node_justified(p: &Program, ids: Set<Seq<char>>, n: ProofNode) -> bool {
    &&& n.id@ == node_id_spec(n.atom@)
    &&& match n.kind {
        ProofNodeKind::Fact => {
            &&& n.premises@.len() == 0
            &&& n.source_id is Some
            &&& n.authority is Some
            &&& fact_justifies(p, n.source_id->0@, n.atom@, n.authority->0@, n.temporal)
        },
        ProofNodeKind::Derivation => {
            &&& n.temporal is None
            &&& n.authority is None
            &&& n.source_id is Some
            &&& forall|m: int| 0 <= m < n.premises@.len() ==> ids.contains(#[trigger] n.premises@[m]@)
            &&& exists|a: Seq<AtomV>|
                a.len() == n.premises@.len() && (forall|m: int| 0 <= m < a.len() ==> node_id_spec(#[trigger] a[m]) == n.premises@[m]@)
                    && #[trigger] rule_justifies(p, n.source_id->0@, a, n.atom@)
        },
    }
}

/// Every node is stored under its id and justified.
pub open spec fn nodes_ok(p: &Program, nodes: &StrMap<ProofNode>) -> bool {
    forall|x: Seq<char>| #[trigger] nodes.has_key(x) ==> nodes.spec_get(x)->0.id@ == x && node_justified(
        p,
        key_set(nodes),
        nodes.spec_get(x)->0,
    )
}

proof fn lemma_justified_grows(p: &Program, small: Set<Seq<char>>, big: Set<Seq<char>>, n: ProofNode)
    requires
        small.subset_of(big),
        node_justified(p, small, n),
    ensures
        node_justified(p, big, n),
{
    if n.kind == ProofNodeKind::Derivation {
        assert forall|m: int| 0 <= m < n.premises@.len() implies big.contains(#[trigger] n.premises@[m]@) by {
            assert(small.contains(n.premises@[m]@));
        }
    }
}

/// The node stored under `x`.
pub open spec fn map_node(nodes: &StrMap<ProofNode>, x: Seq<char>) -> ProofNode {
    nodes.spec_get(x)->0
}

/// The stored node `x` has `y` among its premises.
pub open spec fn map_link(nodes: &StrMap<ProofNode>, x: Seq<char>, y: Seq<char>) -> bool {
    nodes.has_key(x) && exists|m: int| 0 <= m < map_node(nodes, x).premises@.len() && #[trigger] map_node(nodes, x).premises@[m]@ == y
}

/// A chain of premise links among the stored nodes leads from `root` to `x`.
pub open spec fn map_reachable(nodes: &StrMap<ProofNode>, root: Seq<char>, x: Seq<char>) -> bool {
    exists|path: Seq<Seq<char>>|
        path.len() > 0 && path[0] == root && #[trigger] path.last() == x && forall|i: int|
            0 <= i < path.len() - 1 ==> map_link(nodes, #[trigger] path[i], path[i + 1])
}

/// `ord` lists the stored ids once each, every node after its premises.
pub open spec fn map_dag(nodes: &StrMap<ProofNode>, ord: Seq<Seq<char>>) -> bool {
    &&& ord.no_duplicates()
    &&& forall|x: Seq<char>| #[trigger] nodes.has_key(x) <==> ord.contains(x)
    &&& forall|a: int, m: int|
        #![trigger map_node(nodes, ord[a]).premises@[m]]
        0 <= a < ord.len() && 0 <= m < map_node(nodes, ord[a]).premises@.len() ==> ord.take(a).contains(
            map_node(nodes, ord[a]).premises@[m]@,
        )
}

/// `big` keeps every entry of `small`.
pub open spec fn keeps(small: &StrMap<ProofNode>, big: &StrMap<ProofNode>) -> bool {
    forall|k: Seq<char>| #[trigger] small.has_key(k) ==> big.has_key(k) && big.spec_get(k) == small.spec_get(k)
}

/// The entry under `x` is new or changed from `small` to `big`.
pub open spec fn changed(small: &StrMap<ProofNode>, big: &StrMap<ProofNode>, x: Seq<char>) -> bool {
    big.has_key(x) && (!small.has_key(x) || big.spec_get(x) != small.spec_get(x))
}

/// The node under `x` holds a known atom of round at most `bound`.
pub open spec fn holds_known_atom(known: &Known, nodes: &StrMap<ProofNode>, x: Seq<char>, bound: int) -> bool {
    exists|k: Seq<char>| #[trigger] known.has_key(k) && known.spec_get(k)->0.round <= bound && map_node(nodes, x).atom@ == known.spec_get(k)->0.atom@
}

proof fn lemma_map_reach_kept(small: &StrMap<ProofNode>, big: &StrMap<ProofNode>, root: Seq<char>, x: Seq<char>)
    requires
        keeps(small, big),
        map_reachable(small, root, x),
    ensures
        map_reachable(big, root, x),
{
    let path = choose|path: Seq<Seq<char>>|
        path.len() > 0 && path[0] == root && #[trigger] path.last() == x && forall|i: int|
            0 <= i < path.len() - 1 ==> map_link(small, #[trigger] path[i], path[i + 1]);
    assert forall|i: int| 0 <= i < path.len() - 1 implies map_link(big, #[trigger] path[i], path[i + 1]) by {
        assert(map_link(small, path[i], path[i + 1]));
        assert(small.has_key(path[i]));
        let m = choose|m: int| 0 <= m < map_node(small, path[i]).premises@.len() && #[trigger] map_node(small, path[i]).premises@[m]@ == path[i + 1];
        assert(map_node(big, path[i]).premises@[m]@ == path[i + 1]);
    }
}

proof fn lemma_map_reach_prepend(nodes: &StrMap<ProofNode>, root: Seq<char>, y: Seq<char>, x: Seq<char>)
    requires
        map_link(nodes, root, y),
        map_reachable(nodes, y, x),
    ensures
        map_reachable(nodes, root, x),
{
    let path = choose|path: Seq<Seq<char>>|
        path.len() > 0 && path[0] == y && #[trigger] path.last() == x && forall|i: int|
            0 <= i < path.len() - 1 ==> map_link(nodes, #[trigger] path[i], path[i + 1]);
    let p2 = seq![root] + path;
    assert forall|i: int| 0 <= i < p2.len() - 1 implies map_link(nodes, #[trigger] p2[i], p2[i + 1]) by {
        if i == 0 {
            assert(p2[0] == root && p2[1] == y);
        } else {
            assert(p2[i] == path[i - 1] && p2[i + 1] == path[i]);
        }
    }
    assert(p2.last() == x);
}

proof fn lemma_map_reach_self(nodes: &StrMap<ProofNode>, x: Seq<char>)
    ensures
        map_reachable(nodes, x, x),
{
    let path = seq![x];
    assert(path.last() == x);
}

/// Inserting a node whose premises are stored, under a fresh id, keeps the
/// map a DAG and makes every node new since `start` reachable from it.
proof fn lemma_insert_node(
    start: &StrMap<ProofNode>,
    mid: &StrMap<ProofNode>,
    big: &StrMap<ProofNode>,
    idv: Seq<char>,
    node: ProofNode,
)
    requires
        !mid.has_key(idv),
        keeps(start, mid),
        keeps(mid, big),
        big.has_key(idv),
        map_node(big, idv) == node,
        forall|x: Seq<char>| #[trigger] big.has_key(x) <==> (mid.has_key(x) || x == idv),
        forall|m: int| 0 <= m < node.premises@.len() ==> mid.has_key(#[trigger] node.premises@[m]@),
        exists|ord: Seq<Seq<char>>| map_dag(mid, ord),
        forall|x: Seq<char>| #[trigger] mid.has_key(x) && !start.has_key(x) ==> exists|i: int|
            0 <= i < node.premises@.len() && map_reachable(mid, node.premises@[i]@, x),
    ensures
        exists|ord: Seq<Seq<char>>| map_dag(big, ord),
        keeps(start, big),
        forall|x: Seq<char>| #[trigger] big.has_key(x) && !start.has_key(x) ==> map_reachable(big, idv, x),
{
    let ord0 = choose|ord: Seq<Seq<char>>| map_dag(mid, ord);
    let ord1 = ord0.push(idv);
    assert(!ord0.contains(idv));
    assert forall|x: Seq<char>| #[trigger] big.has_key(x) <==> ord1.contains(x) by {
        if ord1.contains(x) && x != idv {
            let i = choose|i: int| 0 <= i < ord1.len() && ord1[i] == x;
            assert(ord0[i] == x);
        }
        if x != idv && mid.has_key(x) {
            let i = choose|i: int| 0 <= i < ord0.len() && ord0[i] == x;
            assert(ord1[i] == x);
        }
        if x == idv {
            assert(ord1[ord0.len() as int] == x);
        }
    }
    assert forall|a: int, m: int|
        #![trigger map_node(big, ord1[a]).premises@[m]]
        0 <= a < ord1.len() && 0 <= m < map_node(big, ord1[a]).premises@.len() implies ord1.take(a).contains(
            map_node(big, ord1[a]).premises@[m]@,
        ) by {
        if a < ord0.len() {
            assert(ord1[a] == ord0[a]);
            assert(ord0.contains(ord0[a]));
            assert(mid.has_key(ord0[a]));
            assert(ord1.take(a) =~= ord0.take(a));
            assert(map_node(big, ord0[a]) == map_node(mid, ord0[a]));
            assert(ord0.take(a).contains(map_node(mid, ord0[a]).premises@[m]@));
        } else {
            assert(ord1[a] == idv);
            assert(ord1.take(a) =~= ord0);
            assert(mid.has_key(node.premises@[m]@));
        }
    }
    assert(map_dag(big, ord1));
    assert forall|k: Seq<char>| #[trigger] start.has_key(k) implies big.has_key(k) && big.spec_get(k) == start.spec_get(k) by {
        assert(mid.has_key(k));
    }
    lemma_map_reach_self(big, idv);
    assert forall|x: Seq<char>| #[trigger] big.has_key(x) && !start.has_key(x) implies map_reachable(big, idv, x) by {
        if x != idv {
            assert(mid.has_key(x));
            let i = choose|i: int| 0 <= i < node.premises@.len() && map_reachable(mid, node.premises@[i]@, x);
            lemma_map_reach_kept(mid, big, node.premises@[i]@, x);
            assert(map_node(big, idv).premises@[i]@ == node.premises@[i]@);
            assert(map_link(big, idv, node.premises@[i]@));
            lemma_map_reach_prepend(big, idv, node.premises@[i]@, x);
        }
    }
}

/// Adds to `nodes` the proof of the atom known under `key`, premises first;
/// returns the id of its node.
#[verifier::rlimit(100)]
#[verifier::spinoff_prover]
fn collect_proof(program: &Program, key: &String, known: &Known, nodes: &mut StrMap<ProofNode>) -> (id: String)
    requires
        known_ok(program, known),
        known.has_key(key@),
        nodes_ok(program, old(nodes)),
        crate::laws::node_ids_identify_atoms() ==> exists|ord: Seq<Seq<char>>| map_dag(old(nodes), ord),
    ensures
        nodes_ok(program, final(nodes)),
        final(nodes).has_key(id@),
        id@ == node_id_spec(known.spec_get(key@)->0.atom@),
        key_set(old(nodes)).subset_of(key_set(final(nodes))),
        !old(nodes).has_key(id@) ==> final(nodes).spec_get(id@)->0.atom@ == known.spec_get(key@)->0.atom@,
        forall|x: Seq<char>| #[trigger] changed(old(nodes), final(nodes), x) ==> holds_known_atom(
            known,
            final(nodes),
            x,
            known.spec_get(key@)->0.round as int,
        ),
        crate::laws::node_ids_identify_atoms() ==> keeps(old(nodes), final(nodes)),
        crate::laws::node_ids_identify_atoms() ==> exists|ord: Seq<Seq<char>>| map_dag(final(nodes), ord),
        crate::laws::node_ids_identify_atoms() ==> forall|x: Seq<char>| #[trigger] final(nodes).has_key(x) && !old(nodes).has_key(x)
            ==> map_reachable(final(nodes), id@, x),
        node_map(final(nodes)) == collect_spec(known_map(known), key@, node_map(old(nodes))),
    decreases known.spec_get(key@)->0.round,
{
    let ghost inj = crate::laws::node_ids_identify_atoms();
    let ghost km = known_map(known);
    proof { lemma_known_map_ok(program, known); }
    let ka = match known.get(key.as_str()) {
        Some(ka) => ka,
        None => {
            return String::new();
        },
    };
    assert(known_entry_ok(program, known, key@));
    let id = node_id(&ka.atom);
    assert(km[key@] == known_atom_view(*ka));
    if nodes.contains_key(id.as_str()) {
        return id;
    }
    let ghost start = *nodes;
    let node = match &ka.derivation {
        Derivation::Fact { fact_id, authority, temporal } => {
            ProofNode {
                id: id.clone(),
                kind: ProofNodeKind::Fact,
                atom: ka.atom.duplicate(),
                source_id: Some(fact_id.clone()),
                authority: Some(authority.clone()),
                temporal: crate::certificate::clone_temporal(temporal),
                premises: Vec::new(),
            }
        },
        Derivation::Rule { rule_id, premises } => {
            let mut premise_ids: Vec<String> = Vec::new();
            let mut m: usize = 0;
            while m < premises.len()
                invariant
                    known_ok(program, known),
                    known.has_key(key@),
                    ka == known.spec_get(key@)->0,
                    ka.derivation == (Derivation::Rule { rule_id: *rule_id, premises: *premises }),
                    known_entry_ok(program, known, key@),
                    m <= premises@.len(),
                    nodes_ok(program, nodes),
                    key_set(&start).subset_of(key_set(nodes)),
                    premise_ids@.len() == m,
                    forall|x: int| 0 <= x < m ==> nodes.has_key(#[trigger] premise_ids@[x]@)
                        && premise_ids@[x]@ == node_id_spec(known.spec_get(premises@[x]@)->0.atom@),
                    inj == crate::laws::node_ids_identify_atoms(),
                    forall|x: Seq<char>| #[trigger] changed(&start, nodes, x) ==> holds_known_atom(known, nodes, x, ka.round - 1),
                    inj ==> keeps(&start, nodes),
                    inj ==> exists|ord: Seq<Seq<char>>| map_dag(nodes, ord),
                    inj ==> forall|x: Seq<char>| #[trigger] nodes.has_key(x) && !start.has_key(x) ==> exists|i: int|
                        0 <= i < m && map_reachable(nodes, premise_ids@[i]@, x),
                    km == known_map(known),
                    known_map_ok(km),
                    km[key@] == known_atom_view(*ka),
                    node_map(nodes) == collect_fold(km, ka.round as nat, strings_view(premises@), m as nat, node_map(&start)),
                decreases premises.len() - m,
            {
                assert(known.has_key(premises@[m as int]@));
                let ghost nodes_before = *nodes;
                let pid = collect_proof(program, &premises[m], known, nodes);
                proof {
                    let pv = strings_view(premises@);
                    assert(pv[m as int] == premises@[m as int]@);
                    assert forall|jj: int| 0 <= jj < pv.len() implies km.contains_key(#[trigger] pv[jj]) && km[pv[jj]].round < ka.round by {
                        assert(pv[jj] == premises@[jj]@);
                        assert(known.has_key(premises@[jj]@));
                    }
                    assert(node_map(nodes) == collect_fold(km, ka.round as nat, pv, (m + 1) as nat, node_map(&start)));
                }
                let ghost before = premise_ids@;
                premise_ids.push(pid);
                proof {
                    let pr = known.spec_get(premises@[m as int]@)->0.round;
                    assert(pr < ka.round);
                    assert forall|x: Seq<char>| #[trigger] changed(&start, nodes, x) implies holds_known_atom(known, nodes, x, ka.round - 1) by {
                        if changed(&nodes_before, nodes, x) {
                            assert(holds_known_atom(known, nodes, x, pr as int));
                            let k = choose|k: Seq<char>| #[trigger] known.has_key(k) && known.spec_get(k)->0.round <= pr && map_node(nodes, x).atom@ == known.spec_get(k)->0.atom@;
                        } else {
                            assert(changed(&start, &nodes_before, x));
                            assert(holds_known_atom(known, &nodes_before, x, ka.round - 1));
                            let k = choose|k: Seq<char>| #[trigger] known.has_key(k) && known.spec_get(k)->0.round <= ka.round - 1 && map_node(&nodes_before, x).atom@ == known.spec_get(k)->0.atom@;
                        }
                    }
                    if inj {
                        assert forall|k: Seq<char>| #[trigger] start.has_key(k) implies nodes.has_key(k) && nodes.spec_get(k) == start.spec_get(k) by {
                            assert(nodes_before.has_key(k));
                        }
                        assert forall|x: Seq<char>| #[trigger] nodes.has_key(x) && !start.has_key(x) implies exists|i: int|
                            0 <= i < m + 1 && map_reachable(nodes, premise_ids@[i]@, x) by {
                            if nodes_before.has_key(x) {
                                let i = choose|i: int| 0 <= i < m && map_reachable(&nodes_before, before[i]@, x);
                                lemma_map_reach_kept(&nodes_before, nodes, before[i]@, x);
                                assert(premise_ids@[i] == before[i]);
                            } else {
                                assert(map_reachable(nodes, pid@, x));
                                assert(premise_ids@[m as int] == pid);
                            }
                        }
                    }
                }
                proof {
                    assert forall|x: int| 0 <= x < m + 1 implies nodes.has_key(#[trigger] premise_ids@[x]@)
                        && premise_ids@[x]@ == node_id_spec(known.spec_get(premises@[x]@)->0.atom@) by {
                        if x < m {
                            assert(premise_ids@[x] == before[x]);
                            assert(nodes_before.has_key(before[x]@));
                            assert(key_set(&nodes_before).contains(before[x]@));
                            assert(key_set(nodes).contains(before[x]@));
                        }
                    }
                    assert(key_set(&start).subset_of(key_set(nodes))) by {
                        assert forall|x: Seq<char>| key_set(&start).contains(x) implies key_set(nodes).contains(x) by {
                            assert(key_set(&nodes_before).contains(x));
                        }
                    }
                }
                m += 1;
            }
            let node = ProofNode {
                id: id.clone(),
                kind: ProofNodeKind::Derivation,
                atom: ka.atom.duplicate(),
                source_id: Some(rule_id.clone()),
                authority: None,
                temporal: None,
                premises: premise_ids,
            };
            proof {
                let a = premise_atoms(known, premises@);
                assert(node.atom@ == ka.atom@);
                assert(node.source_id->0@ == rule_id@);
                assert(rule_justifies(program, node.source_id->0@, a, node.atom@));
                assert(a.len() == node.premises@.len());
                assert forall|x: int| 0 <= x < a.len() implies node_id_spec(#[trigger] a[x]) == node.premises@[x]@ by {
                    assert(a[x] == known.spec_get(premises@[x]@)->0.atom@);
                    assert(node.premises@[x] == premise_ids@[x]);
                }
                assert forall|x: int| 0 <= x < node.premises@.len() implies key_set(nodes).contains(#[trigger] node.premises@[x]@) by {
                    assert(node.premises@[x] == premise_ids@[x]);
                    assert(nodes.has_key(premise_ids@[x]@));
                }
                assert(node_justified(program, key_set(nodes), node));
            }
            node
        },
    };
    let ghost mid = *nodes;
    let ghost idv = id@;
    assert(node_justified(program, key_set(&mid), node)) by {
        if node.kind == ProofNodeKind::Fact {
            assert(fact_justifies(program, node.source_id->0@, node.atom@, node.authority->0@, node.temporal));
        }
    }
    proof {
        if inj && mid.has_key(idv) {
            assert(changed(&start, &mid, idv));
            assert(holds_known_atom(known, &mid, idv, ka.round - 1));
            let k = choose|k: Seq<char>| #[trigger] known.has_key(k) && known.spec_get(k)->0.round <= ka.round - 1 && map_node(&mid, idv).atom@ == known.spec_get(k)->0.atom@;
            assert(map_node(&mid, idv).id@ == idv);
            assert(node_id_spec(map_node(&mid, idv).atom@) == idv);
            assert(node_id_spec(ka.atom@) == idv);
            assert(map_node(&mid, idv).atom@ == ka.atom@);
            assert(known_entry_ok(program, known, k));
            assert(k == key@);
        }
    }
    nodes.insert(id.clone(), node);
    proof {
        assert(node_map(nodes) =~= node_map(&mid).insert(idv, node_view(node)));
        let kv = km[key@];
        match &ka.derivation {
            Derivation::Fact { .. } => {
                assert(mid == start);
                assert(node.premises@.len() == 0);
                assert(strings_view(node.premises@) =~= Seq::<Seq<char>>::empty());
                assert(node_view(node).premises == known_node(kv, Seq::empty()).premises);
                assert(node_view(node).source_id == known_node(kv, Seq::empty()).source_id);
                assert(node_view(node).authority == known_node(kv, Seq::empty()).authority);
                assert(node_view(node).temporal == known_node(kv, Seq::empty()).temporal);
                assert(node_view(node) == known_node(kv, Seq::empty()));
            },
            Derivation::Rule { rule_id, premises } => {
                let pv = strings_view(premises@);
                assert(strings_view(node.premises@) =~= premise_node_ids(km, pv)) by {
                    assert forall|x: int| 0 <= x < pv.len() implies #[trigger] strings_view(node.premises@)[x] == premise_node_ids(km, pv)[x] by {
                        assert(pv[x] == premises@[x]@);
                    }
                }
                assert(node_view(node) =~= known_node(kv, premise_node_ids(km, pv)));
                assert forall|jj: int| 0 <= jj < pv.len() implies km.contains_key(#[trigger] pv[jj]) && km[pv[jj]].round < kv.round by {
                    assert(pv[jj] == premises@[jj]@);
                    assert(known.has_key(premises@[jj]@));
                }
            },
        }
        assert(node_map(nodes) == collect_spec(km, key@, node_map(&start)));
        if inj {
            assert(keeps(&mid, nodes));
            assert forall|m: int| 0 <= m < node.premises@.len() implies mid.has_key(#[trigger] node.premises@[m]@) by {
                if node.kind == ProofNodeKind::Derivation {
                    assert(key_set(&mid).contains(node.premises@[m]@));
                }
            }
            if node.kind == ProofNodeKind::Fact {
                assert forall|x: Seq<char>| #[trigger] mid.has_key(x) && !start.has_key(x) implies exists|i: int|
                    0 <= i < node.premises@.len() && map_reachable(&mid, node.premises@[i]@, x) by {}
            }
            lemma_insert_node(&start, &mid, nodes, idv, node);
        }
        assert forall|x: Seq<char>| #[trigger] changed(&start, nodes, x) implies holds_known_atom(
            known,
            nodes,
            x,
            ka.round as int,
        ) by {
            if x == idv {
                assert(known.has_key(key@));
                assert(map_node(nodes, x).atom@ == known.spec_get(key@)->0.atom@);
            } else {
                assert(changed(&start, &mid, x));
                assert(holds_known_atom(known, &mid, x, ka.round - 1));
                let k = choose|k: Seq<char>| #[trigger] known.has_key(k) && known.spec_get(k)->0.round <= ka.round - 1 && map_node(&mid, x).atom@ == known.spec_get(k)->0.atom@;
            }
        }
        assert(key_set(&mid).subset_of(key_set(nodes)));
        assert forall|x: Seq<char>| #[trigger] nodes.has_key(x) implies nodes.spec_get(x)->0.id@ == x && node_justified(
            program,
            key_set(nodes),
            nodes.spec_get(x)->0,
        ) by {
            if x == idv {
                lemma_justified_grows(program, key_set(&mid), key_set(nodes), node);
            } else {
                assert(mid.has_key(x));
                lemma_justified_grows(program, key_set(&mid), key_set(nodes), mid.spec_get(x)->0);
            }
        }
    }
    id
}

/// The ids of the nodes, in order.
pub open spec fn node_ids(nodes: Seq<ProofNode>) -> Seq<Seq<char>> {
    nodes.map_values(|n: ProofNode| n.id@)
}

/// The ids of the nodes, as a set.
pub open spec fn id_set(nodes: Seq<ProofNode>) -> Set<Seq<char>> {
    Set::new(|x: Seq<char>| node_ids(nodes).contains(x))
}

/// A proof of `expected` that is sound for the program: its digest matches,
/// its nodes ascend strictly by id, its root node concludes an atom with the
/// canonical key of `expected`, and every node is justified.
pub open spec fn proof_sound(p: &Program, proof: &Proof, expected: AtomV) -> bool {
    let nodes = proof.nodes@;
    &&& proof.digest@ == proof_digest_spec(proof.root@, nodes)
    &&& strictly_sorted(node_ids(nodes))
    &&& exists|k: int| 0 <= k < nodes.len() && #[trigger] nodes[k].id@ == proof.root@ && atom_key(nodes[k].atom@) == atom_key(expected)
    &&& forall|k: int| 0 <= k < nodes.len() ==> node_justified(p, id_set(nodes), #[trigger] nodes[k])
}

/// The proof of the atom known under `key`.
fn build_proof(program: &Program, key: &String, known: &Known) -> (proof: Proof)
    requires
        known_ok(program, known),
        known.has_key(key@),
    ensures
        proof_sound(program, &proof, known.spec_get(key@)->0.atom@),
        crate::laws::node_ids_identify_atoms() ==> crate::checker::proof_dag(proof.nodes@, proof.root@),
        proof_view(proof) == proof_spec(known_map(known), key@),
{
    let mut nodes: StrMap<ProofNode> = StrMap::new();
    assert(node_map(&nodes) =~= Map::<Seq<char>, ProofNodeV>::empty());
    assert(nodes_ok(program, &nodes));
    assert(map_dag(&nodes, Seq::empty()));
    let root = collect_proof(program, key, known, &mut nodes);
    proof { use_type_invariant(&nodes); }
    let ghost m = nodes;
    let list = nodes.into_values();
    let digest = proof_digest(root.as_str(), &list);
    let proof = Proof { root, nodes: list, digest };
    proof {
        let v = list@;
        assert forall|k: int| 0 <= k < v.len() implies #[trigger] v[k].id@ == m.entries()[k].0@ && m.has_key(m.entries()[k].0@)
            && m.spec_get(m.entries()[k].0@)->0 == v[k] by {
            crate::collections::lemma_entry_spec_get(&m, k);
        }
        assert(node_ids(v) =~= m.keys()) by {
            assert forall|k: int| 0 <= k < v.len() implies #[trigger] node_ids(v)[k] == m.keys()[k] by {
                assert(v[k].id@ == m.entries()[k].0@);
            }
        }
        assert(id_set(v) =~= key_set(&m));
        let k = m.keys().index_of(root@);
        crate::collections::lemma_spec_get_entry(&m, root@);
        assert(v[k].id@ == root@);
        assert forall|j: int| 0 <= j < v.len() implies node_justified(program, id_set(v), #[trigger] v[j]) by {
            crate::collections::lemma_entry_spec_get(&m, j);
            assert(m.has_key(m.entries()[j].0@));
        }
        if crate::laws::node_ids_identify_atoms() {
            lemma_proof_dag_of_map(&m, v, root@);
        }
        lemma_node_map_entries(&m);
        let km = known_map(known);
        let e = choose|e: Seq<(Seq<char>, ProofNodeV)>|
            strictly_sorted(keyed_keys(e)) && keyed_map(e) == collect_spec(km, key@, Map::empty());
        lemma_keyed_unique(e, node_entries(&m));
        let vv = v.map_values(|n: ProofNode| node_view(n));
        assert(vv =~= e.map_values(|x: (Seq<char>, ProofNodeV)| x.1));
        assert(crate::certificate::nodes_value(v) =~= vv.map_values(|n: ProofNodeV| node_value_v(n))) by {
            assert forall|k: int| 0 <= k < v.len() implies #[trigger] crate::certificate::nodes_value(v)[k] == vv.map_values(
                |n: ProofNodeV| node_value_v(n),
            )[k] by {
                lemma_node_value_v(v[k]);
            }
        }
        assert(root@ == node_id_spec(km[key@].atom));
    }
    proof
}

/// The nodes of a map, listed in key order, form a DAG hanging from `root`
/// when the map does.
proof fn lemma_proof_dag_of_map(m: &StrMap<ProofNode>, v: Seq<ProofNode>, root: Seq<char>)
    requires
        strictly_sorted(m.keys()),
        v.len() == m.entries().len(),
        forall|k: int| 0 <= k < v.len() ==> #[trigger] v[k].id@ == m.entries()[k].0@ && m.has_key(m.entries()[k].0@)
            && m.spec_get(m.entries()[k].0@)->0 == v[k],
        node_ids(v) == m.keys(),
        exists|ord: Seq<Seq<char>>| map_dag(m, ord),
        forall|x: Seq<char>| #[trigger] m.has_key(x) ==> map_reachable(m, root, x),
    ensures
        crate::checker::proof_dag(v, root),
{
    assert forall|x: Seq<char>| #[trigger] m.has_key(x) implies crate::checker::node_at(v, x) == map_node(m, x) by {
        let k = m.keys().index_of(x);
        crate::collections::lemma_spec_get_entry(m, x);
        crate::collections::lemma_sorted_index_of(m.keys(), k);
        assert(m.keys()[k] == m.entries()[k].0@);
        assert(node_ids(v).index_of(x) == k);
    }
    let ord = choose|ord: Seq<Seq<char>>| map_dag(m, ord);
    assert(crate::checker::premises_first(v, ord)) by {
        assert forall|a: int, j: int|
            #![trigger crate::checker::node_at(v, ord[a]).premises@[j]]
            0 <= a < ord.len() && 0 <= j < crate::checker::node_at(v, ord[a]).premises@.len() implies ord.take(a).contains(
                crate::checker::node_at(v, ord[a]).premises@[j]@,
            ) by {
            assert(ord.contains(ord[a]));
            assert(m.has_key(ord[a]));
            assert(crate::checker::node_at(v, ord[a]) == map_node(m, ord[a]));
            assert(ord.take(a).contains(map_node(m, ord[a]).premises@[j]@));
        }
    }
    assert forall|k: int| 0 <= k < v.len() implies ord.contains(#[trigger] v[k].id@) by {
        assert(v[k].id@ == m.entries()[k].0@);
        assert(m.has_key(v[k].id@));
    }
    assert forall|k: int| 0 <= k < v.len() implies crate::checker::reachable(v, root, #[trigger] v[k].id@) by {
        let x = v[k].id@;
        assert(v[k].id@ == m.entries()[k].0@);
        assert(m.has_key(x));
        assert(map_reachable(m, root, x));
        let path = choose|path: Seq<Seq<char>>|
            path.len() > 0 && path[0] == root && #[trigger] path.last() == x && forall|i: int|
                0 <= i < path.len() - 1 ==> map_link(m, #[trigger] path[i], path[i + 1]);
        assert forall|i: int| 0 <= i < path.len() - 1 implies crate::checker::premise_link(v, #[trigger] path[i], path[i + 1]) by {
            assert(map_link(m, path[i], path[i + 1]));
            let j = choose|j: int| 0 <= j < map_node(m, path[i]).premises@.len() && #[trigger] map_node(m, path[i]).premises@[j]@ == path[i + 1];
            assert(crate::checker::node_at(v, path[i]) == map_node(m, path[i]));
            assert(crate::checker::node_at(v, path[i]).premises@[j]@ == path[i + 1]);
        }
    }
}


/// The atom has no variable arguments.
pub open spec fn ground(a: AtomV) -> bool {
    forall|i: int| 0 <= i < a.arguments.len() ==> !crate::validate::is_variable(#[trigger] a.arguments[i])
}

/// `m` is a body atom of a rule whose head matches the query, with the
/// bindings of that match applied.
pub open spec fn missing_instance(p: &Program, query: AtomV, m: AtomV) -> bool {
    exists|j: int, w: int|
        0 <= j < p.rules@.len() && 0 <= w < p.rules@[j].when@.len() && match crate::engine::match_atom_spec(
            p.rules@[j].head@,
            query,
            Map::empty(),
        ) {
            Some(b) => instantiate_spec(#[trigger] p.rules@[j].when@[w]@, b) == m,
            None => false,
        }
}

/// A missing premise: ground, not known, and needed by a rule for the query.
pub open spec fn missing_ok(p: &Program, query: AtomV, known: &Known, m: AtomV) -> bool {
    &&& ground(m)
    &&& !known.has_key(atom_key(m))
    &&& missing_instance(p, query, m)
}

pub open spec fn atom_keys(atoms: Seq<Atom>) -> Seq<Seq<char>> {
    atoms.map_values(|a: Atom| atom_key(a@))
}

fn is_ground(a: &Atom) -> (b: bool)
    ensures
        b == ground(a@),
{
    proof { crate::json::lemma_json_views(a.arguments@); }
    let mut i: usize = 0;
    while i < a.arguments.len()
        invariant
            i <= a.arguments@.len(),
            crate::json::json_views(a.arguments@).len() == a.arguments@.len(),
            forall|k: int| 0 <= k < a.arguments@.len() ==> #[trigger] crate::json::json_views(a.arguments@)[k] == a.arguments@[k]@,
            forall|k: int| 0 <= k < i ==> !crate::validate::is_variable(#[trigger] a@.arguments[k]),
        decreases a.arguments.len() - i,
    {
        assert(a@.arguments[i as int] == a.arguments@[i as int]@);
        if crate::validate::variable_name(&a.arguments[i]).is_some() {
            return false;
        }
        i += 1;
    }
    true
}

/// The instance of premise `w` of rule `j` for the query, if the rule's head
/// matches the query, is listed when it is ground and not known.
pub open spec fn premise_listed(p: &Program, query: AtomV, known: &Known, found: &StrMap<Atom>, j: int, w: int) -> bool {
    match crate::engine::match_atom_spec(p.rules@[j].head@, query, Map::empty()) {
        Some(b) => {
            let m = instantiate_spec(p.rules@[j].when@[w]@, b);
            ground(m) && !known.has_key(atom_key(m)) ==> found.has_key(atom_key(m))
        },
        None => true,
    }
}

/// The atoms of a map, by key.
pub open spec fn atom_map(m: &StrMap<Atom>) -> Map<Seq<char>, AtomV> {
    Map::new(|x: Seq<char>| m.has_key(x), |x: Seq<char>| m.spec_get(x)->0@)
}

/// The entries of an atom map as values, in ascending key order.
pub open spec fn atom_entries(m: &StrMap<Atom>) -> Seq<(Seq<char>, AtomV)> {
    m.entries().map_values(|e: (String, Atom)| (e.0@, e.1@))
}

/// The entries of an atom map hold exactly its keys and atoms.
pub proof fn lemma_atom_map_entries(m: &StrMap<Atom>)
    requires
        strictly_sorted(m.keys()),
    ensures
        keyed_keys(atom_entries(m)) == m.keys(),
        keyed_map(atom_entries(m)) == atom_map(m),
{
    let e = atom_entries(m);
    assert(keyed_keys(e) =~= m.keys());
    crate::collections::lemma_sorted_no_duplicates(m.keys());
    assert forall|x: Seq<char>| #[trigger] keyed_map(e).contains_key(x) == atom_map(m).contains_key(x) by {
        if m.has_key(x) {
            let i = choose|i: int| 0 <= i < m.keys().len() && m.keys()[i] == x;
            assert(e[i].0 == x);
        }
        if keyed_has(e, x) {
            let i = choose|i: int| 0 <= i < e.len() && (#[trigger] e[i]).0 == x;
            assert(m.keys()[i] == x);
        }
    }
    assert forall|x: Seq<char>| #[trigger] atom_map(m).contains_key(x) implies keyed_map(e)[x] == atom_map(m)[x] by {
        crate::collections::lemma_spec_get_entry(m, x);
        let i = m.keys().index_of(x);
        lemma_keyed_map_at(e, i);
    }
    assert(keyed_map(e) =~= atom_map(m));
}

/// The missing premises found among the first `w` body atoms of rule `ri`,
/// whose head matched the query with bindings `b`.
pub open spec fn missing_when(
    p: &Program,
    km: Map<Seq<char>, KnownAtomV>,
    ri: int,
    b: Map<Seq<char>, JsonV>,
    found: Map<Seq<char>, AtomV>,
    w: nat,
) -> Map<Seq<char>, AtomV>
    decreases w,
{
    if w == 0 {
        found
    } else {
        let f = missing_when(p, km, ri, b, found, (w - 1) as nat);
        let g = instantiate_spec(p.rules@[ri].when@[w - 1]@, b);
        if ground(g) && !km.contains_key(atom_key(g)) {
            f.insert(atom_key(g), g)
        } else {
            f
        }
    }
}

/// The missing premises found in the first `a` rules of the order.
pub open spec fn missing_rules(p: &Program, query: AtomV, km: Map<Seq<char>, KnownAtomV>, order: Seq<usize>, a: nat) -> Map<
    Seq<char>,
    AtomV,
>
    decreases a,
{
    if a == 0 {
        Map::empty()
    } else {
        let f = missing_rules(p, query, km, order, (a - 1) as nat);
        let ri = order[a - 1] as int;
        match crate::engine::match_atom_spec(p.rules@[ri].head@, query, Map::empty()) {
            Some(b) => missing_when(p, km, ri, b, f, p.rules@[ri].when@.len()),
            None => f,
        }
    }
}

/// The missing premises of the query, in ascending key order.
pub open spec fn missing_spec(p: &Program, query: AtomV, km: Map<Seq<char>, KnownAtomV>, order: Seq<usize>) -> Seq<AtomV> {
    let e = choose|e: Seq<(Seq<char>, AtomV)>|
        strictly_sorted(keyed_keys(e)) && keyed_map(e) == missing_rules(p, query, km, order, order.len());
    e.map_values(|x: (Seq<char>, AtomV)| x.1)
}

/// The atoms as values, in order.
pub open spec fn atoms_view(s: Seq<Atom>) -> Seq<AtomV> {
    s.map_values(|a: Atom| a@)
}

/// The ground premises that rules for the query would need and that are
/// not known, in ascending key order.
fn explain_missing(program: &Program, rule_order: &Vec<usize>, query: &Atom, known: &Known) -> (missing: Vec<Atom>)
    requires
        forall|a: int| 0 <= a < rule_order@.len() ==> (#[trigger] rule_order@[a]) < program.rules@.len(),
        forall|j: int| 0 <= j < program.rules@.len() ==> #[trigger] occurs(rule_order@, j),
    ensures
        strictly_sorted(atom_keys(missing@)),
        forall|k: int| 0 <= k < missing@.len() ==> missing_ok(program, query@, known, #[trigger] missing@[k]@),
        forall|m: AtomV| #[trigger] missing_ok(program, query@, known, m) ==> atom_keys(missing@).contains(atom_key(m)),
        atoms_view(missing@) == missing_spec(program, query@, known_map(known), rule_order@),
{
    let ghost km = known_map(known);
    let mut found: StrMap<Atom> = StrMap::new();
    assert(atom_map(&found) =~= Map::<Seq<char>, AtomV>::empty());
    let mut a: usize = 0;
    while a < rule_order.len()
        invariant
            forall|x: int| 0 <= x < rule_order@.len() ==> (#[trigger] rule_order@[x]) < program.rules@.len(),
            a <= rule_order@.len(),
            forall|x: Seq<char>| #[trigger] found.has_key(x) ==> x == atom_key(found.spec_get(x)->0@) && missing_ok(
                program,
                query@,
                known,
                found.spec_get(x)->0@,
            ),
            forall|x: int, w: int| 0 <= x < a && 0 <= w < program.rules@[rule_order@[x] as int].when@.len() ==> #[trigger] premise_listed(
                program,
                query@,
                known,
                &found,
                rule_order@[x] as int,
                w,
            ),
            km == known_map(known),
            atom_map(&found) == missing_rules(program, query@, km, rule_order@, a as nat),
        decreases rule_order.len() - a,
    {
        let ri = rule_order[a];
        let rule = &program.rules[ri];
        match crate::engine::match_atom(&rule.head, query, &crate::engine::no_bindings()) {
            None => {
                proof {
                    assert forall|x: int, w2: int| 0 <= x < a + 1 && 0 <= w2 < program.rules@[rule_order@[x] as int].when@.len() implies #[trigger] premise_listed(
                        program,
                        query@,
                        known,
                        &found,
                        rule_order@[x] as int,
                        w2,
                    ) by {
                        if x == a {
                            assert(crate::engine::match_atom_spec(rule.head@, query@, Map::empty()) is None);
                        }
                    }
                    assert(atom_map(&found) == missing_rules(program, query@, km, rule_order@, (a + 1) as nat));
                }
            },
            Some(bindings) => {
                let mut w: usize = 0;
                while w < rule.when.len()
                    invariant
                        ri < program.rules@.len(),
                        rule == &program.rules@[ri as int],
                        crate::engine::match_atom_spec(rule.head@, query@, Map::empty()) == Some(crate::engine::bindings_view(&bindings)),
                        w <= rule.when@.len(),
                        forall|x: Seq<char>| #[trigger] found.has_key(x) ==> x == atom_key(found.spec_get(x)->0@) && missing_ok(
                            program,
                            query@,
                            known,
                            found.spec_get(x)->0@,
                        ),
                        a < rule_order@.len(),
                        ri == rule_order@[a as int],
                        forall|x: int, w2: int| 0 <= x < a && 0 <= w2 < program.rules@[rule_order@[x] as int].when@.len() ==> #[trigger] premise_listed(
                            program,
                            query@,
                            known,
                            &found,
                            rule_order@[x] as int,
                            w2,
                        ),
                        forall|w2: int| 0 <= w2 < w ==> #[trigger] premise_listed(program, query@, known, &found, ri as int, w2),
                        km == known_map(known),
                        atom_map(&found) == missing_when(
                            program,
                            km,
                            ri as int,
                            crate::engine::bindings_view(&bindings),
                            missing_rules(program, query@, km, rule_order@, a as nat),
                            w as nat,
                        ),
                    decreases rule.when.len() - w,
                {
                    let g = instantiate(&rule.when[w], &bindings);
                    let ghost found_before = found;
                    if is_ground(&g) {
                        let key = g.key();
                        if !known.contains_key(key.as_str()) {
                            proof {
                                assert(instantiate_spec(program.rules@[ri as int].when@[w as int]@, crate::engine::bindings_view(&bindings)) == g@);
                                assert(missing_instance(program, query@, g@));
                            }
                            let ghost before = found;
                            let ghost kv = key@;
                            let ghost gv = g@;
                            found.insert(key, g);
                            proof {
                                assert(atom_map(&found) =~= atom_map(&before).insert(kv, gv));
                                assert forall|x: Seq<char>| #[trigger] found.has_key(x) implies x == atom_key(found.spec_get(x)->0@) && missing_ok(
                                    program,
                                    query@,
                                    known,
                                    found.spec_get(x)->0@,
                                ) by {
                                    if x != kv {
                                        assert(before.has_key(x));
                                    }
                                }
                            }
                        }
                    }
                    proof {
                        assert(instantiate_spec(program.rules@[ri as int].when@[w as int]@, crate::engine::bindings_view(&bindings)) == g@);
                        assert(atom_map(&found) == missing_when(
                            program,
                            km,
                            ri as int,
                            crate::engine::bindings_view(&bindings),
                            missing_rules(program, query@, km, rule_order@, a as nat),
                            (w + 1) as nat,
                        ));
                        assert forall|x: int, w2: int| 0 <= x < a && 0 <= w2 < program.rules@[rule_order@[x] as int].when@.len() implies #[trigger] premise_listed(
                            program,
                            query@,
                            known,
                            &found,
                            rule_order@[x] as int,
                            w2,
                        ) by {
                            assert(premise_listed(program, query@, known, &found_before, rule_order@[x] as int, w2));
                        }
                        assert forall|w2: int| 0 <= w2 < w + 1 implies #[trigger] premise_listed(program, query@, known, &found, ri as int, w2) by {
                            if w2 < w {
                                assert(premise_listed(program, query@, known, &found_before, ri as int, w2));
                            } else {
                                assert(instantiate_spec(program.rules@[ri as int].when@[w as int]@, crate::engine::bindings_view(&bindings)) == g@);
                            }
                        }
                    }
                    w += 1;
                }
                proof {
                    assert forall|x: int, w2: int| 0 <= x < a + 1 && 0 <= w2 < program.rules@[rule_order@[x] as int].when@.len() implies #[trigger] premise_listed(
                        program,
                        query@,
                        known,
                        &found,
                        rule_order@[x] as int,
                        w2,
                    ) by {
                        if x == a {
                            assert(premise_listed(program, query@, known, &found, ri as int, w2));
                        }
                    }
                    assert(atom_map(&found) == missing_rules(program, query@, km, rule_order@, (a + 1) as nat));
                }
            },
        }
        a += 1;
    }
    proof { use_type_invariant(&found); }
    let ghost fm = found;
    let missing = found.into_values();
    proof {
        lemma_atom_map_entries(&fm);
        let e = choose|e: Seq<(Seq<char>, AtomV)>|
            strictly_sorted(keyed_keys(e)) && keyed_map(e) == missing_rules(program, query@, km, rule_order@, rule_order@.len());
        lemma_keyed_unique(e, atom_entries(&fm));
        assert(atoms_view(missing@) =~= e.map_values(|x: (Seq<char>, AtomV)| x.1));
        let v = missing@;
        assert forall|k: int| 0 <= k < v.len() implies atom_key(#[trigger] v[k]@) == fm.keys()[k] && missing_ok(program, query@, known, v[k]@) by {
            crate::collections::lemma_entry_spec_get(&fm, k);
            assert(fm.has_key(fm.entries()[k].0@));
            assert(fm.keys()[k] == fm.entries()[k].0@);
        }
        assert(atom_keys(v) =~= fm.keys()) by {
            assert forall|k: int| 0 <= k < v.len() implies #[trigger] atom_keys(v)[k] == fm.keys()[k] by {
                assert(atom_key(v[k]@) == fm.keys()[k]);
            }
        }
        assert forall|m: AtomV| #[trigger] missing_ok(program, query@, known, m) implies atom_keys(v).contains(atom_key(m)) by {
            let (j, w) = choose|j: int, w: int|
                0 <= j < program.rules@.len() && 0 <= w < program.rules@[j].when@.len() && match crate::engine::match_atom_spec(
                    program.rules@[j].head@,
                    query@,
                    Map::empty(),
                ) {
                    Some(b) => instantiate_spec(#[trigger] program.rules@[j].when@[w]@, b) == m,
                    None => false,
                };
            assert(occurs(rule_order@, j));
            let x = choose|x: int| 0 <= x < rule_order@.len() && #[trigger] rule_order@[x] == j;
            assert(premise_listed(program, query@, known, &fm, rule_order@[x] as int, w));
            assert(fm.has_key(atom_key(m)));
            let i = choose|i: int| 0 <= i < fm.keys().len() && fm.keys()[i] == atom_key(m);
            assert(atom_keys(v)[i] == atom_key(m));
        }
    }
    missing
}


/// The outcome of a check for the query.
#[derive(Clone, Copy, Debug, PartialEq, Eq, Structural)]
pub enum Status {
    Proved,
    Disproved,
    Inconsistent,
    Unknown,
}

/// The status that a proof and a disproof, present or not, amount to.
pub open spec fn status_of(has_proof: bool, has_disproof: bool) -> Status {
    if has_proof && has_disproof {
        Status::Inconsistent
    } else if has_proof {
        Status::Proved
    } else if has_disproof {
        Status::Disproved
    } else {
        Status::Unknown
    }
}

/// The ontology a result was computed against.
pub struct OntologyRef {
    pub id: String,
    pub version: String,
    pub digest: String,
}

/// Both sides of a contradiction: the facts behind them and the two proof digests.
pub struct ConflictWitness {
    pub query: Atom,
    pub complement: Atom,
    pub fact_ids: Vec<String>,
    pub proof_digests: Vec<String>,
}

/// Counts describing a check.
pub struct Metrics {
    pub facts_supplied: usize,
    pub facts_admitted: usize,
    pub facts_withheld: usize,
    pub facts_derived: usize,
    pub rules_evaluated: usize,
    pub rounds: usize,
}

/// The result of checking a program.
pub struct CheckResult {
    pub schema: String,
    pub status: Status,
    pub query: Atom,
    pub program_digest: String,
    pub ontology: OntologyRef,
    pub authority: crate::report::AuthorityReport,
    pub temporal: Option<TemporalReport>,
    pub proof: Option<Proof>,
    pub disproof: Option<Proof>,
    pub conflict: Option<ConflictWitness>,
    pub missing: Vec<Atom>,
    pub assumptions: Vec<String>,
    pub metrics: Metrics,
}

/// `x` is the source of a fact node among the nodes.
pub open spec fn fact_source(nodes: Seq<ProofNode>, x: Seq<char>) -> bool {
    exists|k: int|
        0 <= k < nodes.len() && (#[trigger] nodes[k]).kind == ProofNodeKind::Fact && nodes[k].source_id is Some
            && nodes[k].source_id->0@ == x
}

/// The conflict witness of a proof and a disproof: the query, its
/// complement, the fact ids behind either side in ascending order, and the
/// two proof digests.
pub open spec fn conflict_ok(w: &ConflictWitness, query: AtomV, proof: &Proof, disproof: &Proof) -> bool {
    &&& w.query@ == query
    &&& w.complement@ == crate::engine::complement_spec(query)
    &&& strictly_sorted(strings_view(w.fact_ids@))
    &&& forall|x: Seq<char>| #[trigger] strings_view(w.fact_ids@).contains(x) <==> fact_source(proof.nodes@ + disproof.nodes@, x)
    &&& strings_view(w.proof_digests@) == seq![proof.digest@, disproof.digest@]
}

fn add_fact_sources(nodes: &Vec<ProofNode>, set: &mut StrSet)
    ensures
        forall|x: Seq<char>| #[trigger] final(set).has(x) <==> (old(set).has(x) || fact_source(nodes@, x)),
{
    let ghost start = *set;
    let mut k: usize = 0;
    while k < nodes.len()
        invariant
            k <= nodes@.len(),
            forall|x: Seq<char>| #[trigger] set.has(x) <==> (start.has(x) || fact_source(nodes@.take(k as int), x)),
        decreases nodes.len() - k,
    {
        let node = &nodes[k];
        let ghost before = *set;
        if node.kind == ProofNodeKind::Fact {
            match &node.source_id {
                Some(src) => {
                    set.insert(src.clone());
                },
                None => {},
            }
        }
        proof {
            let pre = nodes@.take(k as int);
            let post = nodes@.take(k + 1);
            assert forall|x: Seq<char>| #[trigger] set.has(x) <==> (start.has(x) || fact_source(post, x)) by {
                if fact_source(post, x) {
                    let j = choose|j: int| 0 <= j < post.len() && (#[trigger] post[j]).kind == ProofNodeKind::Fact && post[j].source_id is Some
                        && post[j].source_id->0@ == x;
                    if j < k {
                        assert(pre[j] == post[j]);
                    }
                }
                if fact_source(pre, x) {
                    let j = choose|j: int| 0 <= j < pre.len() && (#[trigger] pre[j]).kind == ProofNodeKind::Fact && pre[j].source_id is Some
                        && pre[j].source_id->0@ == x;
                    assert(post[j] == pre[j]);
                }
                if set.has(x) && !before.has(x) {
                    assert(post[k as int] == *node);
                }
            }
        }
        k += 1;
    }
    proof {
        assert(nodes@.take(nodes@.len() as int) =~= nodes@);
    }
}

/// The conflict witness of a proof of the query and a proof of its complement.
pub fn build_conflict_witness(query: &Atom, proof: &Proof, disproof: &Proof) -> (w: ConflictWitness)
    ensures
        conflict_ok(&w, query@, proof, disproof),
{
    let mut set = StrSet::new();
    let ghost s0 = set;
    add_fact_sources(&proof.nodes, &mut set);
    let ghost s1 = set;
    add_fact_sources(&disproof.nodes, &mut set);
    proof { use_type_invariant(&set); }
    let fact_ids = crate::report::set_items(&set);
    let mut digests: Vec<String> = Vec::new();
    digests.push(proof.digest.clone());
    digests.push(disproof.digest.clone());
    let w = ConflictWitness {
        query: query.duplicate(),
        complement: crate::engine::complement(query),
        fact_ids,
        proof_digests: digests,
    };
    proof {
        let all = proof.nodes@ + disproof.nodes@;
        assert forall|x: Seq<char>| #[trigger] strings_view(w.fact_ids@).contains(x) <==> fact_source(all, x) by {
            assert(strings_view(w.fact_ids@) == set.view_seq());
            assert(!s0.has(x));
            assert(set.has(x) == (s1.has(x) || fact_source(disproof.nodes@, x)));
            assert(s1.has(x) == fact_source(proof.nodes@, x));
            if fact_source(proof.nodes@, x) {
                let j = choose|j: int| 0 <= j < proof.nodes@.len() && (#[trigger] proof.nodes@[j]).kind == ProofNodeKind::Fact
                    && proof.nodes@[j].source_id is Some && proof.nodes@[j].source_id->0@ == x;
                assert(all[j] == proof.nodes@[j]);
            }
            if fact_source(disproof.nodes@, x) {
                let j = choose|j: int| 0 <= j < disproof.nodes@.len() && (#[trigger] disproof.nodes@[j]).kind == ProofNodeKind::Fact
                    && disproof.nodes@[j].source_id is Some && disproof.nodes@[j].source_id->0@ == x;
                assert(all[proof.nodes@.len() + j] == disproof.nodes@[j]);
            }
            if fact_source(all, x) {
                let j = choose|j: int| 0 <= j < all.len() && (#[trigger] all[j]).kind == ProofNodeKind::Fact && all[j].source_id is Some
                    && all[j].source_id->0@ == x;
                if j < proof.nodes@.len() {
                    assert(all[j] == proof.nodes@[j]);
                } else {
                    assert(all[j] == disproof.nodes@[j - proof.nodes@.len()]);
                }
            }
        }
        assert(strings_view(w.proof_digests@) =~= seq![proof.digest@, disproof.digest@]);
    }
    w
}


/// The ids of the rules, in order.
pub open spec fn rule_ids(rules: Seq<Rule>) -> Seq<Seq<char>> {
    rules.map_values(|r: Rule| r.id@)
}

pub proof fn lemma_rule_ids_distinct(p: &Program)
    requires
        crate::program::ids_ok(p),
    ensures
        all_distinct(rule_ids(p.rules@)),
{
    let ids = crate::program::all_ids(p);
    let f = fact_ids(p.facts@);
    let r = rule_ids(p.rules@);
    assert forall|i: int, j: int| 0 <= i < r.len() && 0 <= j < r.len() && i != j implies r[i] != r[j] by {
        assert(ids[f.len() + i] == r[i]);
        assert(ids[f.len() + j] == r[j]);
    }
}

/// The positions of the rules in ascending id order.
fn rule_order(program: &Program) -> (order: Vec<usize>)
    requires
        all_distinct(rule_ids(program.rules@)),
    ensures
        is_sort_order(rule_ids(program.rules@), order@),
{
    let mut ids: Vec<String> = Vec::new();
    let mut i: usize = 0;
    while i < program.rules.len()
        invariant
            i <= program.rules@.len(),
            ids@.len() == i,
            forall|k: int| 0 <= k < i ==> (#[trigger] ids@[k])@ == program.rules@[k].id@,
        decreases program.rules.len() - i,
    {
        ids.push(program.rules[i].id.clone());
        i += 1;
    }
    assert(strings_view(ids@) =~= rule_ids(program.rules@)) by {
        assert forall|k: int| 0 <= k < ids@.len() implies #[trigger] strings_view(ids@)[k] == rule_ids(program.rules@)[k] by {
            assert(ids@[k]@ == program.rules@[k].id@);
        }
    }
    sort_order(&ids)
}

/// What a check result states against forward chaining: some fixpoint of
/// the program knows the query exactly when there is a proof, its
/// complement exactly when there is a disproof, and lacks each missing premise.
pub open spec fn result_complete(p: &Program, r: &CheckResult) -> bool {
    exists|k: Known|
        #[trigger] fixpoint(p, &k) && (r.proof is Some <==> k.has_key(atom_key(p.query@))) && (r.disproof is Some
            <==> k.has_key(atom_key(crate::engine::complement_spec(p.query@)))) && (forall|m: int|
            0 <= m < r.missing@.len() ==> missing_ok(p, p.query@, &k, #[trigger] r.missing@[m]@)) && (r.proof is None
            ==> forall|m: AtomV| #[trigger] missing_ok(p, p.query@, &k, m) ==> atom_keys(r.missing@).contains(atom_key(m)))
}

/// What a check result states about a valid program.
pub open spec fn check_result_ok(p: &Program, r: &CheckResult) -> bool {
    let q = p.query@;
    let c = crate::engine::complement_spec(q);
    &&& r.schema@ == if is_v2(p) { crate::model::RESULT_SCHEMA_V2@ } else { crate::model::RESULT_SCHEMA@ }
    &&& r.query@ == q
    &&& r.program_digest@ == crate::model::json_digest(crate::model::program_json(p))
    &&& r.ontology.id@ == p.ontology.id@
    &&& r.ontology.version@ == p.ontology.version@
    &&& r.ontology.digest@ == crate::model::json_digest(crate::model::ontology_json(&p.ontology))
    &&& crate::report::authority_report_ok(p, &r.authority)
    &&& (r.temporal is Some <==> is_v2(p))
    &&& (r.temporal matches Some(t) ==> crate::temporal::temporal_report_ok(p, p.evaluation_time->0@, &t))
    &&& r.status == status_of(r.proof is Some, r.disproof is Some)
    &&& (r.proof matches Some(pr) ==> proof_sound(p, &pr, q))
    &&& (r.disproof matches Some(d) ==> proof_sound(p, &d, c))
    &&& (r.conflict is Some <==> (r.proof is Some && r.disproof is Some))
    &&& (r.conflict matches Some(w) ==> conflict_ok(&w, q, &r.proof->0, &r.disproof->0))
    &&& (r.proof is Some ==> r.missing@.len() == 0)
    &&& strictly_sorted(atom_keys(r.missing@))
    &&& (forall|k: int| 0 <= k < r.missing@.len() ==> ground(#[trigger] r.missing@[k]@) && missing_instance(p, q, r.missing@[k]@))
    &&& strings_view(r.assumptions@) == seq![
        "Only facts admitted by the explicit authority policy participate in inference."@,
        "Explicit negation does not use absence as evidence of falsity."@,
        "Contradictory support is preserved as inconsistent instead of resolved silently."@,
    ]
    &&& r.metrics.facts_supplied == p.facts@.len()
    &&& r.metrics.facts_admitted + r.metrics.facts_withheld == p.facts@.len()
    &&& 1 <= r.metrics.rounds <= 1024
    &&& r.metrics.rules_evaluated == r.metrics.rounds * p.rules@.len()
}

/// Forward chaining from the supplied facts reaches its fixpoint in `rounds`
/// rounds: each earlier round derived something new, and this one nothing.
pub open spec fn rounds_ok(p: &Program, rounds: nat) -> bool {
    let ord = rule_order_spec(p);
    let init = initial_entries(p);
    &&& 1 <= rounds <= 1024
    &&& derive_round_spec(p, ord, trace(p, ord, init, (rounds - 1) as nat), rounds).len() == 0
    &&& forall|j: nat| 1 <= j < rounds ==> #[trigger] derive_round_spec(p, ord, trace(p, ord, init, (j - 1) as nat), j).len() > 0
}

/// The known atoms at the fixpoint reached in `rounds` rounds.
pub open spec fn fixpoint_entries(p: &Program, rounds: nat) -> Seq<(Seq<char>, KnownAtomV)> {
    trace(p, rule_order_spec(p), initial_entries(p), (rounds - 1) as nat)
}

/// What `check` computes for a valid program, beyond what any sound result
/// states: the number of rounds to the fixpoint, the proof and disproof
/// collected from the known atoms there, the missing premises, and the counts.
pub open spec fn check_exact(p: &Program, r: &CheckResult) -> bool {
    let rounds = r.metrics.rounds as nat;
    let init = initial_entries(p);
    let fin = fixpoint_entries(p, rounds);
    let km = keyed_map(fin);
    let qk = atom_key(p.query@);
    let ck = atom_key(crate::engine::complement_spec(p.query@));
    &&& rounds_ok(p, rounds)
    &&& (r.proof is Some <==> km.contains_key(qk))
    &&& (r.proof matches Some(pr) ==> proof_view(pr) == proof_spec(km, qk))
    &&& (r.disproof is Some <==> km.contains_key(ck))
    &&& (r.disproof matches Some(d) ==> proof_view(d) == proof_spec(km, ck))
    &&& (r.proof is None ==> atoms_view(r.missing@) == missing_spec(p, p.query@, km, rule_order_spec(p)))
    &&& r.metrics.facts_admitted == init.len()
    &&& r.metrics.facts_derived == fin.len() - init.len()
}

/// Checks the query of a program: validates it, admits facts by authority
/// (and, in v2, by time), chains rules forward to a fixpoint, and reports a
/// proof, a disproof, both, or the missing premises.
#[verifier::rlimit(80)]
#[verifier::spinoff_prover]
pub fn check(program: &Program) -> (r: Result<CheckResult, crate::error::ReasonError>)
    requires
        program.rules@.len() * 1024 <= usize::MAX,
    ensures
        (r matches Err(crate::error::ReasonError::InvalidProgram(_))) <==> !program_valid(program),
        r matches Err(e) ==> (e is InvalidProgram || e is ResourceLimit),
        r matches Ok(res) ==> check_result_ok(program, &res),
        r matches Ok(res) ==> check_exact(program, &res),
        r matches Ok(res) ==> result_complete(program, &res),
        r matches Ok(res) ==> (res.proof is None ==> !derivable(program, program.query@)),
        r matches Ok(res) ==> (res.disproof is None ==> !derivable(program, crate::engine::complement_spec(program.query@))),
        r matches Err(crate::error::ReasonError::ResourceLimit) ==> saturation_limited(program),
        program_valid(program) && !saturation_limited(program) ==> r is Ok,
        r matches Ok(res) ==> (crate::laws::node_ids_identify_atoms() ==> crate::checker::result_dags(&res)),
        r matches Ok(res) ==> (crate::laws::node_ids_identify_atoms() && res.status != Status::Unknown
            ==> crate::checker::result_accepted(program, &res)),
{
    match crate::program::validate(program) {
        Ok(()) => {},
        Err(e) => {
            return Err(e);
        },
    }
    proof {
        crate::program::lemma_fact_ids_distinct(program);
        lemma_rule_ids_distinct(program);
        assert(crate::temporal::all_observed(program.facts@) || !is_v2(program)) by {
            if is_v2(program) {
                assert forall|i: int| 0 <= i < program.facts@.len() implies (#[trigger] program.facts@[i]).observed_at is Some by {
                    assert(crate::program::fact_ok(program, program.facts@[i]));
                }
            }
        }
    }
    let program_digest = crate::model::digest_json(&crate::model::program_to_json(program));
    let ontology_digest = crate::model::digest_json(&crate::model::ontology_to_json(&program.ontology));
    let authority = crate::report::build_authority_report(program);
    let temporal = crate::temporal::build_temporal_report(program);
    let mut known = initial_known(program, &temporal);
    let ghost initial = known;
    let initial_count = known.len();
    let order = rule_order(program);
    proof {
        crate::collections::lemma_sort_order_unique(rule_ids(program.rules@), order@, rule_order_spec(program));
    }
    proof {
        assert forall|a: int| 0 <= a < order@.len() implies (#[trigger] order@[a]) < program.rules@.len() by {}
    }
    let saturated = saturate(program, &order, &mut known);
    let (rounds, evaluations) = match saturated {
        Some(x) => x,
        None => {
            assert(known_ok(program, &known) && forall|j: int| 1 <= j <= 1024 ==> #[trigger] round_derived(&known, j));
            return Err(crate::error::ReasonError::ResourceLimit);
        },
    };
    proof {
        use_type_invariant(&known);
        lemma_known_map_entries(&known);
        assert(entries_view(&known) == fixpoint_entries(program, rounds as nat));
        let ord = rule_order_spec(program);
        let init = initial_entries(program);
        assert forall|j: nat| 1 <= j < rounds implies #[trigger] derive_round_spec(
            program,
            ord,
            trace(program, ord, init, (j - 1) as nat),
            j,
        ).len() > 0 by {
            let ji = j as int;
            assert(derive_round_spec(program, order@, trace(program, order@, entries_view(&initial), (ji - 1) as nat), ji as nat).len() > 0);
        }
        assert(rounds_ok(program, rounds as nat));
    }
    let query_key = program.query.key();
    let complement = crate::engine::complement(&program.query);
    let complement_key = complement.key();
    let proof = if known.contains_key(query_key.as_str()) {
        Some(build_proof(program, &query_key, &known))
    } else {
        None
    };
    let disproof = if known.contains_key(complement_key.as_str()) {
        Some(build_proof(program, &complement_key, &known))
    } else {
        None
    };
    let status = match (&proof, &disproof) {
        (Some(_), Some(_)) => Status::Inconsistent,
        (Some(_), None) => Status::Proved,
        (None, Some(_)) => Status::Disproved,
        (None, None) => Status::Unknown,
    };
    let conflict = match (&proof, &disproof) {
        (Some(p1), Some(p2)) => Some(build_conflict_witness(&program.query, p1, p2)),
        _ => None,
    };
    let missing = if proof.is_none() {
        explain_missing(program, &order, &program.query, &known)
    } else {
        Vec::new()
    };
    let schema = if crate::text::str_eq(program.schema.as_str(), crate::model::PROGRAM_SCHEMA_V2) {
        String::from_str(crate::model::RESULT_SCHEMA_V2)
    } else {
        String::from_str(crate::model::RESULT_SCHEMA)
    };
    let mut assumptions: Vec<String> = Vec::new();
    assumptions.push(String::from_str("Only facts admitted by the explicit authority policy participate in inference."));
    assumptions.push(String::from_str("Explicit negation does not use absence as evidence of falsity."));
    assumptions.push(String::from_str("Contradictory support is preserved as inconsistent instead of resolved silently."));
    let facts_supplied = program.facts.len();
    let derived = known.len() - initial_count;
    let result = CheckResult {
        schema,
        status,
        query: program.query.duplicate(),
        program_digest,
        ontology: OntologyRef {
            id: program.ontology.id.clone(),
            version: program.ontology.version.clone(),
            digest: ontology_digest,
        },
        authority,
        temporal,
        proof,
        disproof,
        conflict,
        missing,
        assumptions,
        metrics: Metrics {
            facts_supplied,
            facts_admitted: initial_count,
            facts_withheld: facts_supplied - initial_count,
            facts_derived: derived,
            rules_evaluated: evaluations,
            rounds,
        },
    };
    proof {
        assert(strings_view(result.assumptions@) =~= seq![
            "Only facts admitted by the explicit authority policy participate in inference."@,
            "Explicit negation does not use absence as evidence of falsity."@,
            "Contradictory support is preserved as inconsistent instead of resolved silently."@,
        ]);
        if result.proof is Some {
            assert(atom_keys(result.missing@) =~= Seq::<Seq<char>>::empty());
        }
        assert(facts_included(program, &known)) by {
            assert forall|i: int| 0 <= i < program.facts@.len() && #[trigger] participates_spec(program, program.facts@[i])
                implies known.has_key(atom_key(program.facts@[i].atom@)) by {
                assert(initial.has_key(atom_key(program.facts@[i].atom@)));
            }
        }
        assert(fixpoint(program, &known));
        assert(result_complete(program, &result));
        assert(check_result_ok(program, &result));
        assert(check_exact(program, &result));
        if crate::laws::node_ids_identify_atoms() && result.status != Status::Unknown {
            crate::laws::law_checked_result_is_accepted(program, &result);
        }
    }
    Ok(result)
}

} // verus!
