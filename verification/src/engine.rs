use vstd::prelude::*;

use crate::collections::StrMap;
use crate::json::{json_clone, json_eq, json_views, lemma_json_views, JsonV, JsonValue};
use crate::model::{AtomV, Atom};
use crate::text::str_eq;
use crate::validate::{is_variable, variable_name, variable_of};

verus! {

/// Variable bindings, by variable name.
pub type Bindings = StrMap<JsonValue>;

/// The bindings as a map from variable names to values.
pub open spec fn bindings_view(b: &Bindings) -> Map<Seq<char>, JsonV> {
    Map::new(|k: Seq<char>| b.has_key(k), |k: Seq<char>| b.spec_get(k)->0@)
}

/// Matching one pattern argument against one value under bindings `b`: a
/// bound variable must equal the value, an unbound one is bound to it, and a
/// constant must equal it.
pub open spec fn match_arg(p: JsonV, v: JsonV, b: Map<Seq<char>, JsonV>) -> Option<Map<Seq<char>, JsonV>> {
    if is_variable(p) {
        let name = variable_of(p);
        if b.contains_key(name) {
            if b[name] == v {
                Some(b)
            } else {
                None
            }
        } else {
            Some(b.insert(name, v))
        }
    } else if p == v {
        Some(b)
    } else {
        None
    }
}

/// Matching argument lists pairwise, left to right.
pub open spec fn match_args(ps: Seq<JsonV>, vs: Seq<JsonV>, b: Map<Seq<char>, JsonV>) -> Option<Map<Seq<char>, JsonV>>
    decreases ps.len(),
{
    if ps.len() == 0 {
        Some(b)
    } else {
        match match_args(ps.drop_last(), vs.drop_last(), b) {
            Some(b1) => match_arg(ps.last(), vs[ps.len() - 1], b1),
            None => None,
        }
    }
}

/// Matching a pattern atom against an atom: same predicate, polarity, and
/// arity, and every argument matches.
pub open spec fn match_atom_spec(pattern: AtomV, fact: AtomV, b: Map<Seq<char>, JsonV>) -> Option<Map<Seq<char>, JsonV>> {
    if pattern.predicate == fact.predicate && pattern.negated == fact.negated && pattern.arguments.len()
        == fact.arguments.len() {
        match_args(pattern.arguments, fact.arguments, b)
    } else {
        None
    }
}

/// Matching the patterns against the atoms pairwise, threading the bindings.
pub open spec fn match_chain(patterns: Seq<AtomV>, atoms: Seq<AtomV>, b: Map<Seq<char>, JsonV>) -> Option<Map<Seq<char>, JsonV>>
    decreases patterns.len(),
{
    if patterns.len() == 0 {
        Some(b)
    } else {
        match match_chain(patterns.drop_last(), atoms.drop_last(), b) {
            Some(b1) => match_atom_spec(patterns.last(), atoms[patterns.len() - 1], b1),
            None => None,
        }
    }
}

/// One argument with bound variables replaced by their values.
pub open spec fn subst_arg(v: JsonV, b: Map<Seq<char>, JsonV>) -> JsonV {
    if is_variable(v) && b.contains_key(variable_of(v)) {
        b[variable_of(v)]
    } else {
        v
    }
}

/// The atom with bound variables replaced by their values.
pub open spec fn instantiate_spec(a: AtomV, b: Map<Seq<char>, JsonV>) -> AtomV {
    AtomV {
        predicate: a.predicate,
        arguments: a.arguments.map_values(|v: JsonV| subst_arg(v, b)),
        negated: a.negated,
    }
}

/// The same claim with the opposite polarity.
pub open spec fn complement_spec(a: AtomV) -> AtomV {
    AtomV { negated: !a.negated, ..a }
}

/// A failing prefix makes the whole argument list fail.
pub proof fn lemma_match_args_prefix_none(ps: Seq<JsonV>, vs: Seq<JsonV>, b: Map<Seq<char>, JsonV>, n: int)
    requires
        ps.len() == vs.len(),
        0 <= n <= ps.len(),
        match_args(ps.take(n), vs.take(n), b) is None,
    ensures
        match_args(ps, vs, b) is None,
    decreases ps.len(),
{
    if n == ps.len() {
        assert(ps.take(n) =~= ps);
        assert(vs.take(n) =~= vs);
    } else {
        assert(ps.drop_last().take(n) =~= ps.take(n));
        assert(vs.drop_last().take(n) =~= vs.take(n));
        lemma_match_args_prefix_none(ps.drop_last(), vs.drop_last(), b, n);
    }
}

/// Where the whole chain matches, each step extends the match of its prefix.
pub proof fn lemma_match_chain_step(pats: Seq<AtomV>, atoms: Seq<AtomV>, m: int, b: Map<Seq<char>, JsonV>)
    requires
        pats.len() == atoms.len(),
        0 <= m < pats.len(),
        match_chain(pats, atoms, Map::empty()) is Some,
        match_chain(pats.take(m), atoms.take(m), Map::empty()) == Some(b),
    ensures
        match_atom_spec(pats[m], atoms[m], b) is Some,
{
    lemma_match_chain_prefix(pats, atoms, Map::empty(), m + 1);
    assert(pats.take(m + 1).drop_last() =~= pats.take(m));
    assert(atoms.take(m + 1).drop_last() =~= atoms.take(m));
}

/// A match of the whole chain is a match of each of its prefixes.
pub proof fn lemma_match_chain_prefix(pats: Seq<AtomV>, atoms: Seq<AtomV>, b: Map<Seq<char>, JsonV>, n: int)
    requires
        pats.len() == atoms.len(),
        0 <= n <= pats.len(),
        match_chain(pats, atoms, b) is Some,
    ensures
        match_chain(pats.take(n), atoms.take(n), b) is Some,
    decreases pats.len(),
{
    if n == pats.len() {
        assert(pats.take(n) =~= pats);
        assert(atoms.take(n) =~= atoms);
    } else {
        assert(pats.drop_last().take(n) =~= pats.take(n));
        assert(atoms.drop_last().take(n) =~= atoms.take(n));
        lemma_match_chain_prefix(pats.drop_last(), atoms.drop_last(), b, n);
    }
}

/// `b2` keeps every binding of `b1`.
pub open spec fn extends(b1: Map<Seq<char>, JsonV>, b2: Map<Seq<char>, JsonV>) -> bool {
    forall|k: Seq<char>| #[trigger] b1.contains_key(k) ==> b2.contains_key(k) && b2[k] == b1[k]
}

/// Under `b`, pattern argument `p` stands for `v`: a variable bound to `v`,
/// or the constant `v` itself.
pub open spec fn arg_fixed(p: JsonV, v: JsonV, b: Map<Seq<char>, JsonV>) -> bool {
    if is_variable(p) {
        b.contains_key(variable_of(p)) && b[variable_of(p)] == v
    } else {
        p == v
    }
}

/// A successful match of argument lists extends the bindings, and under
/// the result every pattern argument stands for its value.
pub proof fn lemma_match_args_fixed(ps: Seq<JsonV>, vs: Seq<JsonV>, b: Map<Seq<char>, JsonV>)
    requires
        ps.len() == vs.len(),
        match_args(ps, vs, b) is Some,
    ensures
        extends(b, match_args(ps, vs, b)->0),
        forall|k: int| 0 <= k < ps.len() ==> arg_fixed(#[trigger] ps[k], vs[k], match_args(ps, vs, b)->0),
    decreases ps.len(),
{
    if ps.len() > 0 {
        let b1 = match_args(ps.drop_last(), vs.drop_last(), b)->0;
        let b2 = match_args(ps, vs, b)->0;
        lemma_match_args_fixed(ps.drop_last(), vs.drop_last(), b);
        assert(extends(b1, b2));
        assert forall|k: int| 0 <= k < ps.len() implies arg_fixed(#[trigger] ps[k], vs[k], b2) by {
            if k < ps.len() - 1 {
                assert(ps.drop_last()[k] == ps[k] && vs.drop_last()[k] == vs[k]);
                assert(arg_fixed(ps[k], vs[k], b1));
                if is_variable(ps[k]) {
                    assert(b1.contains_key(variable_of(ps[k])));
                }
            }
        }
    }
}

/// A successful chain of matches extends the bindings, gives each atom the
/// predicate, polarity, and arity of its pattern, and under the result every
/// pattern argument stands for the atom's argument.
pub proof fn lemma_match_chain_fixed(pats: Seq<AtomV>, atoms: Seq<AtomV>, b: Map<Seq<char>, JsonV>)
    requires
        atoms.len() == pats.len(),
        match_chain(pats, atoms, b) is Some,
    ensures
        extends(b, match_chain(pats, atoms, b)->0),
        forall|m: int| 0 <= m < pats.len() ==> (#[trigger] pats[m]).predicate == atoms[m].predicate && pats[m].negated
            == atoms[m].negated && pats[m].arguments.len() == atoms[m].arguments.len(),
        forall|m: int, k: int|
            0 <= m < pats.len() && 0 <= k < pats[m].arguments.len() ==> arg_fixed(
                #[trigger] pats[m].arguments[k],
                atoms[m].arguments[k],
                match_chain(pats, atoms, b)->0,
            ),
    decreases pats.len(),
{
    if pats.len() > 0 {
        let n = pats.len() - 1;
        let b1 = match_chain(pats.drop_last(), atoms.drop_last(), b)->0;
        let b2 = match_chain(pats, atoms, b)->0;
        lemma_match_chain_fixed(pats.drop_last(), atoms.drop_last(), b);
        assert(b2 == match_args(pats[n].arguments, atoms[n].arguments, b1)->0);
        lemma_match_args_fixed(pats[n].arguments, atoms[n].arguments, b1);
        assert forall|m: int| 0 <= m < pats.len() implies (#[trigger] pats[m]).predicate == atoms[m].predicate && pats[m].negated
            == atoms[m].negated && pats[m].arguments.len() == atoms[m].arguments.len() by {
            if m < n {
                assert(pats.drop_last()[m] == pats[m] && atoms.drop_last()[m] == atoms[m]);
            }
        }
        assert forall|m: int, k: int|
            0 <= m < pats.len() && 0 <= k < pats[m].arguments.len() implies arg_fixed(
                #[trigger] pats[m].arguments[k],
                atoms[m].arguments[k],
                b2,
            ) by {
            if m < n {
                assert(pats.drop_last()[m] == pats[m] && atoms.drop_last()[m] == atoms[m]);
                assert(arg_fixed(pats.drop_last()[m].arguments[k], atoms.drop_last()[m].arguments[k], b1));
                if is_variable(pats[m].arguments[k]) {
                    assert(b1.contains_key(variable_of(pats[m].arguments[k])));
                }
            }
        }
    }
}

/// Empty bindings.
pub fn no_bindings() -> (b: Bindings)
    ensures
        bindings_view(&b) == Map::<Seq<char>, JsonV>::empty(),
{
    let b: Bindings = StrMap::new();
    assert(bindings_view(&b) =~= Map::<Seq<char>, JsonV>::empty());
    b
}

/// A copy of the bindings.
pub fn clone_bindings(b: &Bindings) -> (r: Bindings)
    ensures
        bindings_view(&r) == bindings_view(b),
{
    let mut r: Bindings = StrMap::new();
    let mut i: usize = 0;
    while i < b.len()
        invariant
            i <= b.entries().len(),
            forall|k: Seq<char>| #[trigger] r.has_key(k) <==> exists|j: int| 0 <= j < i && #[trigger] b.entries()[j].0@ == k,
            forall|k: Seq<char>| r.has_key(k) ==> #[trigger] r.spec_get(k)->0@ == b.spec_get(k)->0@,
        decreases b.entries().len() - i,
    {
        proof { use_type_invariant(b); }
        let k = b.key_at(i);
        let v = b.value_at(i);
        proof { crate::collections::lemma_entry_spec_get(b, i as int); }
        let ghost before = r;
        r.insert(k.clone(), json_clone(v));
        proof {
            assert forall|t: Seq<char>| #[trigger] r.has_key(t) <==> exists|j: int| 0 <= j < i + 1 && #[trigger] b.entries()[j].0@ == t by {
                if t == k@ {
                    assert(b.entries()[i as int].0@ == t);
                }
            }
        }
        i += 1;
    }
    proof {
        assert forall|k: Seq<char>| #[trigger] r.has_key(k) <==> b.has_key(k) by {
            if b.has_key(k) {
                crate::collections::lemma_spec_get_entry(b, k);
                let j = b.keys().index_of(k);
                assert(b.entries()[j].0@ == k);
            }
            if r.has_key(k) {
                let j = choose|j: int| 0 <= j < b.entries().len() && #[trigger] b.entries()[j].0@ == k;
                assert(b.keys()[j] == k);
            }
        }
        assert(bindings_view(&r) =~= bindings_view(b));
    }
    r
}

/// Binds `name` to `value`.
fn bind(b: &mut Bindings, name: String, value: JsonValue)
    ensures
        bindings_view(final(b)) == bindings_view(old(b)).insert(name@, value@),
{
    let ghost n = name@;
    let ghost v = value@;
    b.insert(name, value);
    assert(bindings_view(b) =~= bindings_view(old(b)).insert(n, v));
}

/// Matches `pattern` against `fact`, extending `bindings`.
pub fn match_atom(pattern: &Atom, fact: &Atom, bindings: &Bindings) -> (r: Option<Bindings>)
    ensures
        match r {
            Some(m) => match_atom_spec(pattern@, fact@, bindings_view(bindings)) == Some(bindings_view(&m)),
            None => match_atom_spec(pattern@, fact@, bindings_view(bindings)) is None,
        },
{
    if !str_eq(pattern.predicate.as_str(), fact.predicate.as_str()) || pattern.negated != fact.negated
        || pattern.arguments.len() != fact.arguments.len() {
        proof {
            lemma_json_views(pattern.arguments@);
            lemma_json_views(fact.arguments@);
        }
        return None;
    }
    proof {
        lemma_json_views(pattern.arguments@);
        lemma_json_views(fact.arguments@);
    }
    let ghost ps = pattern@.arguments;
    let ghost vs = fact@.arguments;
    let mut result = clone_bindings(bindings);
    let mut i: usize = 0;
    while i < pattern.arguments.len()
        invariant
            ps == pattern@.arguments,
            vs == fact@.arguments,
            ps.len() == pattern.arguments@.len(),
            vs.len() == fact.arguments@.len(),
            ps.len() == vs.len(),
            forall|k: int| 0 <= k < ps.len() ==> #[trigger] ps[k] == pattern.arguments@[k]@,
            forall|k: int| 0 <= k < vs.len() ==> #[trigger] vs[k] == fact.arguments@[k]@,
            i <= ps.len(),
            match_args(ps.take(i as int), vs.take(i as int), bindings_view(bindings)) == Some(bindings_view(&result)),
        decreases pattern.arguments.len() - i,
    {
        let pv = &pattern.arguments[i];
        let fv = &fact.arguments[i];
        proof {
            assert(ps.take(i + 1).drop_last() =~= ps.take(i as int));
            assert(vs.take(i + 1).drop_last() =~= vs.take(i as int));
            assert(ps.take(i + 1).last() == pv@);
            assert(vs.take(i + 1)[i as int] == fv@);
        }
        match variable_name(pv) {
            Some(name) => {
                match result.get(name.as_str()) {
                    Some(bound) => {
                        if !json_eq(bound, fv) {
                            proof {
                                assert(match_args(ps.take(i + 1), vs.take(i + 1), bindings_view(bindings)) is None);
                                lemma_match_args_prefix_none(ps, vs, bindings_view(bindings), i + 1);
                            }
                            return None;
                        }
                    },
                    None => {
                        bind(&mut result, name, json_clone(fv));
                    },
                }
            },
            None => {
                if !json_eq(pv, fv) {
                    proof {
                        assert(match_args(ps.take(i + 1), vs.take(i + 1), bindings_view(bindings)) is None);
                        lemma_match_args_prefix_none(ps, vs, bindings_view(bindings), i + 1);
                    }
                    return None;
                }
            },
        }
        i += 1;
    }
    proof {
        assert(ps.take(ps.len() as int) =~= ps);
        assert(vs.take(vs.len() as int) =~= vs);
    }
    Some(result)
}

/// `pattern` with bound variables replaced by their values.
pub fn instantiate(pattern: &Atom, bindings: &Bindings) -> (r: Atom)
    ensures
        r@ == instantiate_spec(pattern@, bindings_view(bindings)),
{
    proof { lemma_json_views(pattern.arguments@); }
    let mut args: Vec<JsonValue> = Vec::new();
    let mut i: usize = 0;
    while i < pattern.arguments.len()
        invariant
            i <= pattern.arguments@.len(),
            json_views(pattern.arguments@).len() == pattern.arguments@.len(),
            forall|k: int| 0 <= k < pattern.arguments@.len() ==> #[trigger] json_views(pattern.arguments@)[k] == pattern.arguments@[k]@,
            args@.len() == i,
            forall|k: int| 0 <= k < i ==> (#[trigger] args@[k])@ == subst_arg(pattern.arguments@[k]@, bindings_view(bindings)),
        decreases pattern.arguments.len() - i,
    {
        let v = &pattern.arguments[i];
        let value = match variable_name(v) {
            Some(name) => match bindings.get(name.as_str()) {
                Some(bound) => json_clone(bound),
                None => json_clone(v),
            },
            None => json_clone(v),
        };
        args.push(value);
        i += 1;
    }
    proof {
        lemma_json_views(args@);
        let target = pattern@.arguments.map_values(|v: JsonV| subst_arg(v, bindings_view(bindings)));
        assert(json_views(args@) =~= target);
    }
    Atom { predicate: pattern.predicate.clone(), arguments: args, negated: pattern.negated }
}

/// The same claim with the opposite polarity.
pub fn complement(atom: &Atom) -> (r: Atom)
    ensures
        r@ == complement_spec(atom@),
{
    let mut c = atom.duplicate();
    c.negated = !c.negated;
    c
}


/// The views of a list of atoms.
pub open spec fn atom_views(atoms: Seq<Atom>) -> Seq<AtomV> {
    atoms.map_values(|a: Atom| a@)
}

/// The atoms of the snapshot entries at the given positions.
pub open spec fn atoms_at(known: Seq<(String, Atom)>, idx: Seq<usize>) -> Seq<AtomV> {
    idx.map_values(|j: usize| known[j as int].1@)
}

/// A partial match of the first `n` patterns: the positions of the snapshot
/// entries used, their keys, and the bindings the match produced.
pub open spec fn state_ok(patterns: Seq<Atom>, known: Seq<(String, Atom)>, n: int, s: (Bindings, Vec<String>, Vec<usize>)) -> bool {
    &&& s.2@.len() == n
    &&& s.1@.len() == n
    &&& forall|k: int| 0 <= k < n ==> (#[trigger] s.2@[k]) < known.len() && s.1@[k]@ == known[s.2@[k] as int].0@
    &&& match_chain(atom_views(patterns).take(n), atoms_at(known, s.2@), Map::empty()) == Some(bindings_view(&s.0))
}

/// Some state used exactly the snapshot positions `idx`.
pub open spec fn has_idx(states: Seq<(Bindings, Vec<String>, Vec<usize>)>, idx: Seq<usize>) -> bool {
    exists|k: int| 0 <= k < states.len() && (#[trigger] states[k]).2@ == idx
}

/// Every position is a position of the snapshot.
pub open spec fn positions_ok(known: Seq<(String, Atom)>, idx: Seq<usize>) -> bool {
    forall|k: int| 0 <= k < idx.len() ==> #[trigger] idx[k] < known.len()
}

/// A partial match as a value: its bindings and the snapshot positions used.
pub type StateV = (Map<Seq<char>, JsonV>, Seq<usize>);

/// A state as a value.
pub open spec fn state_view(s: (Bindings, Vec<String>, Vec<usize>)) -> StateV {
    (bindings_view(&s.0), s.2@)
}

/// The states as values, in order.
pub open spec fn states_view(s: Seq<(Bindings, Vec<String>, Vec<usize>)>) -> Seq<StateV> {
    s.map_values(|x: (Bindings, Vec<String>, Vec<usize>)| state_view(x))
}

/// The atoms of the snapshot entries, in order.
pub open spec fn snapshot_atoms(known: Seq<(String, Atom)>) -> Seq<AtomV> {
    known.map_values(|e: (String, Atom)| e.1@)
}

/// The extensions of state `st` by pattern `p` against the first `j` atoms,
/// in the order of the atoms.
pub open spec fn extend_state(st: StateV, p: AtomV, atoms: Seq<AtomV>, j: nat) -> Seq<StateV>
    decreases j,
{
    if j == 0 {
        Seq::empty()
    } else {
        let prev = extend_state(st, p, atoms, (j - 1) as nat);
        match match_atom_spec(p, atoms[j - 1], st.0) {
            Some(b) => prev.push((b, st.1.push((j - 1) as usize))),
            None => prev,
        }
    }
}

/// The extensions of the first `a` states by pattern `p`, state by state.
pub open spec fn extend_states(states: Seq<StateV>, p: AtomV, atoms: Seq<AtomV>, a: nat) -> Seq<StateV>
    decreases a,
{
    if a == 0 {
        Seq::empty()
    } else {
        extend_states(states, p, atoms, (a - 1) as nat) + extend_state(states[a - 1], p, atoms, atoms.len())
    }
}

/// The matches of the first `n` patterns against the atoms, in the order
/// in which `satisfy` lists them.
pub open spec fn satisfy_spec(patterns: Seq<AtomV>, atoms: Seq<AtomV>, n: nat) -> Seq<StateV>
    decreases n,
{
    if n == 0 {
        seq![(Map::<Seq<char>, JsonV>::empty(), Seq::<usize>::empty())]
    } else {
        let prev = satisfy_spec(patterns, atoms, (n - 1) as nat);
        extend_states(prev, patterns[n - 1], atoms, prev.len())
    }
}

/// Every way of matching all the patterns, in order, against snapshot
/// entries: each state is a match, and each match is a state.
pub fn satisfy(patterns: &Vec<Atom>, known: &Vec<(String, Atom)>) -> (states: Vec<(Bindings, Vec<String>, Vec<usize>)>)
    ensures
        forall|k: int| 0 <= k < states@.len() ==> state_ok(patterns@, known@, patterns@.len() as int, #[trigger] states@[k]),
        forall|idx: Seq<usize>|
            idx.len() == patterns@.len() && positions_ok(known@, idx) && (#[trigger] match_chain(
                atom_views(patterns@),
                atoms_at(known@, idx),
                Map::empty(),
            )) is Some ==> has_idx(states@, idx),
        states_view(states@) == satisfy_spec(atom_views(patterns@), snapshot_atoms(known@), patterns@.len()),
{
    let ghost pv = atom_views(patterns@);
    let ghost av = snapshot_atoms(known@);
    let mut states: Vec<(Bindings, Vec<String>, Vec<usize>)> = Vec::new();
    states.push((no_bindings(), Vec::new(), Vec::new()));
    proof {
        assert(states_view(states@) =~= satisfy_spec(pv, av, 0));
        assert(atom_views(patterns@).take(0) =~= Seq::<AtomV>::empty());
        assert(atoms_at(known@, states@[0].2@) =~= Seq::<AtomV>::empty());
        assert forall|idx: Seq<usize>|
            idx.len() == 0 && positions_ok(known@, idx) && (#[trigger] match_chain(
                atom_views(patterns@).take(0),
                atoms_at(known@, idx),
                Map::empty(),
            )) is Some implies has_idx(states@, idx) by {
            assert(states@[0].2@ =~= idx);
        }
    }
    let mut n: usize = 0;
    while n < patterns.len()
        invariant
            n <= patterns@.len(),
            forall|k: int| 0 <= k < states@.len() ==> state_ok(patterns@, known@, n as int, #[trigger] states@[k]),
            forall|idx: Seq<usize>|
                idx.len() == n && positions_ok(known@, idx) && (#[trigger] match_chain(
                    atom_views(patterns@).take(n as int),
                    atoms_at(known@, idx),
                    Map::empty(),
                )) is Some ==> has_idx(states@, idx),
            pv == atom_views(patterns@),
            av == snapshot_atoms(known@),
            states_view(states@) == satisfy_spec(pv, av, n as nat),
        decreases patterns.len() - n,
    {
        let pattern = &patterns[n];
        let mut next: Vec<(Bindings, Vec<String>, Vec<usize>)> = Vec::new();
        let mut a: usize = 0;
        while a < states.len()
            invariant
                n < patterns@.len(),
                pattern == &patterns@[n as int],
                a <= states@.len(),
                forall|k: int| 0 <= k < states@.len() ==> state_ok(patterns@, known@, n as int, #[trigger] states@[k]),
                forall|k: int| 0 <= k < next@.len() ==> state_ok(patterns@, known@, n + 1, #[trigger] next@[k]),
                forall|x: int, j: int|
                    0 <= x < a && 0 <= j < known@.len() && (#[trigger] match_atom_spec(
                        pattern@,
                        known@[j].1@,
                        bindings_view(&(#[trigger] states@[x]).0),
                    )) is Some ==> has_idx(next@, states@[x].2@.push(j as usize)),
                pv == atom_views(patterns@),
                av == snapshot_atoms(known@),
                states_view(next@) == extend_states(states_view(states@), pattern@, av, a as nat),
            decreases states.len() - a,
        {
            let state = &states[a];
            assert(state_ok(patterns@, known@, n as int, states@[a as int]));
            let mut j: usize = 0;
            while j < known.len()
                invariant
                    n < patterns@.len(),
                    pattern == &patterns@[n as int],
                    a < states@.len(),
                    state == &states@[a as int],
                    state_ok(patterns@, known@, n as int, *state),
                    j <= known@.len(),
                    forall|k: int| 0 <= k < next@.len() ==> state_ok(patterns@, known@, n + 1, #[trigger] next@[k]),
                    forall|x: int, j2: int|
                        0 <= x < a && 0 <= j2 < known@.len() && (#[trigger] match_atom_spec(
                            pattern@,
                            known@[j2].1@,
                            bindings_view(&(#[trigger] states@[x]).0),
                        )) is Some ==> has_idx(next@, states@[x].2@.push(j2 as usize)),
                    forall|j2: int|
                        0 <= j2 < j && (#[trigger] match_atom_spec(pattern@, known@[j2].1@, bindings_view(&state.0)))
                            is Some ==> has_idx(next@, state.2@.push(j2 as usize)),
                    pv == atom_views(patterns@),
                    av == snapshot_atoms(known@),
                    states_view(next@) == extend_states(states_view(states@), pattern@, av, a as nat) + extend_state(
                        state_view(*state),
                        pattern@,
                        av,
                        j as nat,
                    ),
                decreases known.len() - j,
            {
                let ghost before = next@;
                match match_atom(pattern, &known[j].1, &state.0) {
                    Some(updated) => {
                        let mut keys = crate::model::clone_strings(&state.1);
                        keys.push(known[j].0.clone());
                        let mut idx = state.2.clone();
                        idx.push(j);
                        let ns = (updated, keys, idx);
                        proof {
                            let pv = atom_views(patterns@);
                            assert(pv.take(n + 1).drop_last() =~= pv.take(n as int));
                            assert(pv.take(n + 1).last() == pattern@);
                            assert(atoms_at(known@, idx@).drop_last() =~= atoms_at(known@, state.2@));
                            assert(atoms_at(known@, idx@)[n as int] == known@[j as int].1@);
                            assert forall|k: int| 0 <= k < n + 1 implies (#[trigger] idx@[k]) < known@.len() && keys@[k]@ == known@[idx@[k] as int].0@ by {
                                if k < n {
                                    assert(idx@[k] == state.2@[k]);
                                    assert(crate::json::strings_view(keys@)[k] == crate::json::strings_view(state.1@)[k]);
                                    assert(crate::json::strings_view(keys@)[k] == keys@[k]@);
                                    assert(crate::json::strings_view(state.1@)[k] == state.1@[k]@);
                                }
                            }
                        }
                        next.push(ns);
                        proof {
                            assert(av[j as int] == known@[j as int].1@);
                            assert(states_view(next@) =~= states_view(before).push(state_view(ns)));
                            assert(state_view(ns) == (bindings_view(&updated), state.2@.push(j)));
                            assert(next@[before.len() as int].2@ == state.2@.push(j));
                            assert forall|x: int, j2: int|
                                0 <= x < a && 0 <= j2 < known@.len() && (#[trigger] match_atom_spec(
                                    pattern@,
                                    known@[j2].1@,
                                    bindings_view(&(#[trigger] states@[x]).0),
                                )) is Some implies has_idx(next@, states@[x].2@.push(j2 as usize)) by {
                                let k = choose|k: int| 0 <= k < before.len() && (#[trigger] before[k]).2@ == states@[x].2@.push(j2 as usize);
                                assert(next@[k] == before[k]);
                            }
                            assert forall|j2: int|
                                0 <= j2 < j + 1 && (#[trigger] match_atom_spec(pattern@, known@[j2].1@, bindings_view(&state.0)))
                                    is Some implies has_idx(next@, state.2@.push(j2 as usize)) by {
                                if j2 < j {
                                    let k = choose|k: int| 0 <= k < before.len() && (#[trigger] before[k]).2@ == state.2@.push(j2 as usize);
                                    assert(next@[k] == before[k]);
                                }
                            }
                        }
                    },
                    None => {
                        assert(av[j as int] == known@[j as int].1@);
                    },
                }
                j += 1;
            }
            proof {
                assert(av.len() == known@.len());
                assert(states_view(states@)[a as int] == state_view(*state));
            }
            a += 1;
        }
        proof {
            assert(states_view(states@).len() == states@.len());
        }
        proof {
            let pv = atom_views(patterns@);
            assert forall|idx: Seq<usize>|
                idx.len() == n + 1 && positions_ok(known@, idx) && (#[trigger] match_chain(
                    pv.take(n + 1),
                    atoms_at(known@, idx),
                    Map::empty(),
                )) is Some implies has_idx(next@, idx) by {
                let pre = idx.take(n as int);
                assert(pv.take(n + 1).drop_last() =~= pv.take(n as int));
                assert(atoms_at(known@, idx).drop_last() =~= atoms_at(known@, pre));
                assert(positions_ok(known@, pre)) by {
                    assert forall|k: int| 0 <= k < pre.len() implies #[trigger] pre[k] < known@.len() by {
                        assert(pre[k] == idx[k]);
                    }
                }
                let b1 = match_chain(pv.take(n as int), atoms_at(known@, pre), Map::empty());
                assert(b1 is Some);
                assert(has_idx(states@, pre));
                let x = choose|x: int| 0 <= x < states@.len() && (#[trigger] states@[x]).2@ == pre;
                assert(state_ok(patterns@, known@, n as int, states@[x]));
                assert(b1 == Some(bindings_view(&states@[x].0)));
                let jj = idx[n as int];
                assert(jj < known@.len());
                assert(atoms_at(known@, idx)[n as int] == known@[jj as int].1@);
                assert(pv.take(n + 1).last() == pattern@);
                assert(match_atom_spec(pattern@, known@[jj as int].1@, bindings_view(&states@[x].0)) is Some);
                assert(states@[x].2@.push(jj) =~= idx);
            }
        }
        states = next;
        n += 1;
    }
    proof {
        assert(atom_views(patterns@).take(patterns@.len() as int) =~= atom_views(patterns@));
    }
    states
}

} // verus!
