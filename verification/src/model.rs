use vstd::prelude::*;

use crate::collections::{StrMap, StrSet};
use crate::json::{
    json_clone, json_vec_clone, json_views, lemma_json_views, lemma_json_views_push,
    lemma_strings_view_push, lemma_take_push, string_array, string_value, strings_json,
    strings_view, JsonV, JsonValue, ObjectBuilder,
};

verus! {

pub const PROGRAM_SCHEMA: &'static str = "zerker.reason.program.v1";
pub const PROGRAM_SCHEMA_V2: &'static str = "zerker.reason.program.v2";
pub const RESULT_SCHEMA: &'static str = "zerker.reason.result.v1";
pub const RESULT_SCHEMA_V2: &'static str = "zerker.reason.result.v2";
pub const VERIFICATION_SCHEMA: &'static str = "zerker.reason.verification.v1";
pub const VERIFICATION_SCHEMA_V2: &'static str = "zerker.reason.verification.v2";

/// The type of one predicate argument.
#[derive(Clone, Copy, PartialEq, Eq, Structural, Debug)]
pub enum ScalarType {
    String,
    Integer,
    Boolean,
}

/// The argument types of a predicate.
pub struct Predicate {
    pub arguments: Vec<ScalarType>,
}

/// The vocabulary of a program.
pub struct Ontology {
    pub id: String,
    pub version: String,
    pub predicates: StrMap<Predicate>,
}

/// Which authority classes are admitted as evidence, by default and per predicate.
pub struct AuthorityPolicy {
    pub classes: StrSet,
    pub default_admit: StrSet,
    pub predicate_admit: StrMap<StrSet>,
}

/// A possibly negated predicate applied to arguments. A string argument that
/// starts with `$` and has more characters is a variable.
#[derive(Clone, Debug)]
pub struct Atom {
    pub predicate: String,
    pub arguments: Vec<JsonValue>,
    pub negated: bool,
}

/// The content of an atom.
pub struct AtomV {
    pub predicate: Seq<char>,
    pub arguments: Seq<JsonV>,
    pub negated: bool,
}

impl View for Atom {
    type V = AtomV;

    open spec fn view(&self) -> AtomV {
        AtomV {
            predicate: self.predicate@,
            arguments: json_views(self.arguments@),
            negated: self.negated,
        }
    }
}

/// A supplied fact with its provenance and, in program v2, its lifecycle.
#[derive(Clone, Debug)]
pub struct Fact {
    pub id: String,
    pub atom: Atom,
    pub authority: String,
    pub observed_at: Option<String>,
    pub valid_from: Option<String>,
    pub valid_until: Option<String>,
    pub supersedes: Vec<String>,
}

/// A Horn rule: when every body atom holds, the head holds.
#[derive(Clone, Debug)]
pub struct Rule {
    pub id: String,
    pub when: Vec<Atom>,
    pub head: Atom,
}

/// A reasoning program: vocabulary, authority policy, evidence, rules, and query.
pub struct Program {
    pub schema: String,
    pub ontology: Ontology,
    pub authority: AuthorityPolicy,
    pub evaluation_time: Option<String>,
    pub facts: Vec<Fact>,
    pub rules: Vec<Rule>,
    pub query: Atom,
}

pub open spec fn opt_view(s: Option<String>) -> Option<Seq<char>> {
    match s {
        Some(t) => Some(t@),
        None => None,
    }
}

pub fn clone_opt_string(s: &Option<String>) -> (r: Option<String>)
    ensures
        opt_view(r) == opt_view(*s),
{
    match s {
        Some(t) => Some(t.clone()),
        None => None,
    }
}

pub fn clone_strings(v: &Vec<String>) -> (r: Vec<String>)
    ensures
        strings_view(r@) == strings_view(v@),
        r@.len() == v@.len(),
{
    let mut out: Vec<String> = Vec::new();
    let mut i: usize = 0;
    while i < v.len()
        invariant
            i <= v@.len(),
            strings_view(out@) == strings_view(v@.take(i as int)),
            out@.len() == i,
        decreases v.len() - i,
    {
        let ghost before = out@;
        out.push(v[i].clone());
        proof {
            lemma_strings_view_push(before, v@[i as int]);
            lemma_take_push(v@, i as int);
            lemma_strings_view_push(v@.take(i as int), v@[i as int]);
        }
        i += 1;
    }
    proof {
        assert(v@.take(v@.len() as int) =~= v@);
    }
    out
}

impl Atom {
    /// A copy of this atom.
    pub fn duplicate(&self) -> (r: Atom)
        ensures
            r@ == self@,
    {
        Atom {
            predicate: self.predicate.clone(),
            arguments: json_vec_clone(&self.arguments),
            negated: self.negated,
        }
    }
}

/// Whether two atoms have the same predicate, arguments, and polarity.
pub fn atom_eq(a: &Atom, b: &Atom) -> (r: bool)
    ensures
        r == (a@ == b@),
{
    if a.negated != b.negated {
        return false;
    }
    if a.predicate != b.predicate {
        return false;
    }
    args_eq(&a.arguments, &b.arguments)
}

/// Whether two argument lists are the same JSON values.
pub fn args_eq(a: &Vec<JsonValue>, b: &Vec<JsonValue>) -> (r: bool)
    ensures
        r == (json_views(a@) == json_views(b@)),
{
    proof {
        lemma_json_views(a@);
        lemma_json_views(b@);
    }
    if a.len() != b.len() {
        return false;
    }
    let mut i: usize = 0;
    while i < a.len()
        invariant
            a@.len() == b@.len(),
            i <= a@.len(),
            json_views(a@).len() == a@.len(),
            json_views(b@).len() == b@.len(),
            forall|k: int| 0 <= k < a@.len() ==> #[trigger] json_views(a@)[k] == a@[k]@,
            forall|k: int| 0 <= k < b@.len() ==> #[trigger] json_views(b@)[k] == b@[k]@,
            forall|k: int| 0 <= k < i ==> a@[k]@ == b@[k]@,
        decreases a.len() - i,
    {
        if !crate::json::json_eq(&a[i], &b[i]) {
            assert(json_views(a@)[i as int] != json_views(b@)[i as int]);
            return false;
        }
        i += 1;
    }
    assert(json_views(a@) =~= json_views(b@));
    true
}

/// The serde_json form of an atom: `negated` is written only when true.
pub open spec fn atom_json(a: AtomV) -> JsonV {
    if a.negated {
        JsonV::Object(
            seq!["predicate"@, "arguments"@, "negated"@],
            seq![JsonV::Str(a.predicate), JsonV::Array(a.arguments), JsonV::Bool(true)],
        )
    } else {
        JsonV::Object(
            seq!["predicate"@, "arguments"@],
            seq![JsonV::Str(a.predicate), JsonV::Array(a.arguments)],
        )
    }
}

/// The canonical key of an atom: its compact serde_json text.
pub open spec fn atom_key(a: AtomV) -> Seq<char> {
    crate::json::encode(atom_json(a))
}

impl Atom {
    pub fn to_json(&self) -> (j: JsonValue)
        ensures
            j@ == atom_json(self@),
    {
        let mut b = ObjectBuilder::new();
        b.add("predicate", string_value(self.predicate.as_str()));
        b.add("arguments", crate::json::array_of(json_vec_clone(&self.arguments)));
        if self.negated {
            b.add("negated", JsonValue::Bool(true));
        }
        let j = b.finish();
        proof {
            if self.negated {
                assert(b.key_views() =~= seq!["predicate"@, "arguments"@, "negated"@]);
                assert(b.value_views() =~= seq![JsonV::Str(self.predicate@), JsonV::Array(self@.arguments), JsonV::Bool(true)]);
            } else {
                assert(b.key_views() =~= seq!["predicate"@, "arguments"@]);
                assert(b.value_views() =~= seq![JsonV::Str(self.predicate@), JsonV::Array(self@.arguments)]);
            }
        }
        j
    }

    /// The canonical key of this atom.
    pub fn key(&self) -> (k: String)
        ensures
            k@ == atom_key(self@),
    {
        let j = self.to_json();
        let chars = crate::json::encode_value(&j);
        crate::text::string_from_chars(chars.as_slice())
    }
}

/// The serde_json form of a set of strings: an array in ascending order.
pub open spec fn set_json(s: &StrSet) -> JsonV {
    JsonV::Array(strings_json(s.view_seq()))
}

pub fn set_to_json(s: &StrSet) -> (j: JsonValue)
    ensures
        j@ == set_json(s),
{
    let mut values: Vec<JsonValue> = Vec::new();
    let mut i: usize = 0;
    while i < s.len()
        invariant
            i <= s.view_seq().len(),
            json_views(values@) == strings_json(s.view_seq().take(i as int)),
        decreases s.view_seq().len() - i,
    {
        let ghost before = values@;
        let v = string_value(s.get(i).as_str());
        values.push(v);
        proof {
            lemma_json_views_push(before, v);
            assert(strings_json(s.view_seq().take(i + 1)) =~= strings_json(s.view_seq().take(i as int)).push(JsonV::Str(s.view_seq()[i as int])));
        }
        i += 1;
    }
    proof {
        assert(s.view_seq().take(s.view_seq().len() as int) =~= s.view_seq());
    }
    JsonValue::Array(values)
}

/// A copy of a set of strings.
pub fn clone_set(s: &StrSet) -> (r: StrSet)
    ensures
        r.view_seq() == s.view_seq(),
{
    proof { use_type_invariant(s); }
    let mut out = StrSet::new();
    let mut i: usize = 0;
    while i < s.len()
        invariant
            i <= s.view_seq().len(),
            crate::collections::strictly_sorted(s.view_seq()),
            out.view_seq() == s.view_seq().take(i as int),
        decreases s.view_seq().len() - i,
    {
        proof { use_type_invariant(&out); }
        let ghost prev = out.view_seq();
        out.insert(s.get(i).clone());
        proof {
            use_type_invariant(&out);
            let t = s.view_seq().take(i + 1);
            assert(t =~= prev.push(s.view_seq()[i as int]));
            assert forall|x: Seq<char>| out.has(x) <==> t.contains(x) by {
                if t.contains(x) {
                    let k = choose|k: int| 0 <= k < t.len() && t[k] == x;
                    if k < i {
                        assert(prev[k] == x);
                        assert(prev.contains(x));
                    }
                }
                if out.has(x) {
                    if x == s.view_seq()[i as int] {
                        assert(t[i as int] == x);
                    } else {
                        assert(prev.contains(x));
                        let k = choose|k: int| 0 <= k < prev.len() && prev[k] == x;
                        assert(t[k] == x);
                    }
                }
            }
            crate::collections::lemma_sorted_same_members(out.view_seq(), t);
        }
        i += 1;
    }
    proof {
        assert(s.view_seq().take(s.view_seq().len() as int) =~= s.view_seq());
    }
    out
}

pub open spec fn scalar_json(t: ScalarType) -> JsonV {
    match t {
        ScalarType::String => JsonV::Str("string"@),
        ScalarType::Integer => JsonV::Str("integer"@),
        ScalarType::Boolean => JsonV::Str("boolean"@),
    }
}

pub open spec fn predicate_json(p: &Predicate) -> JsonV {
    JsonV::Object(seq!["arguments"@], seq![JsonV::Array(p.arguments@.map_values(|t: ScalarType| scalar_json(t)))])
}

pub fn scalar_to_json(t: ScalarType) -> (j: JsonValue)
    ensures
        j@ == scalar_json(t),
{
    match t {
        ScalarType::String => string_value("string"),
        ScalarType::Integer => string_value("integer"),
        ScalarType::Boolean => string_value("boolean"),
    }
}

pub fn predicate_to_json(p: &Predicate) -> (j: JsonValue)
    ensures
        j@ == predicate_json(p),
{
    let mut values: Vec<JsonValue> = Vec::new();
    let mut i: usize = 0;
    while i < p.arguments.len()
        invariant
            i <= p.arguments@.len(),
            json_views(values@) == p.arguments@.take(i as int).map_values(|t: ScalarType| scalar_json(t)),
        decreases p.arguments.len() - i,
    {
        let ghost before = values@;
        let v = scalar_to_json(p.arguments[i]);
        values.push(v);
        proof {
            lemma_json_views_push(before, v);
            assert(p.arguments@.take(i + 1).map_values(|t: ScalarType| scalar_json(t)) =~= p.arguments@.take(i as int).map_values(|t: ScalarType| scalar_json(t)).push(scalar_json(p.arguments@[i as int])));
        }
        i += 1;
    }
    proof {
        assert(p.arguments@.take(p.arguments@.len() as int) =~= p.arguments@);
    }
    let mut b = ObjectBuilder::new();
    b.add("arguments", crate::json::array_of(values));
    let j = b.finish();
    proof {
        assert(b.key_views() =~= seq!["arguments"@]);
        assert(b.value_views() =~= seq![JsonV::Array(p.arguments@.map_values(|t: ScalarType| scalar_json(t)))]);
    }
    j
}

/// The serde_json form of the predicate map: an object in key order.
pub open spec fn predicates_json(m: &StrMap<Predicate>) -> JsonV {
    JsonV::Object(m.keys(), m.entries().map_values(|e: (String, Predicate)| predicate_json(&e.1)))
}

pub fn predicates_to_json(m: &StrMap<Predicate>) -> (j: JsonValue)
    ensures
        j@ == predicates_json(m),
{
    let mut keys: Vec<String> = Vec::new();
    let mut values: Vec<JsonValue> = Vec::new();
    let mut i: usize = 0;
    while i < m.len()
        invariant
            i <= m.entries().len(),
            strings_view(keys@) == m.keys().take(i as int),
            json_views(values@) == m.entries().take(i as int).map_values(|e: (String, Predicate)| predicate_json(&e.1)),
        decreases m.entries().len() - i,
    {
        let ghost kb = keys@;
        let ghost vb = values@;
        keys.push(m.key_at(i).clone());
        let v = predicate_to_json(m.value_at(i));
        values.push(v);
        proof {
            lemma_strings_view_push(kb, m.entries()[i as int].0);
            lemma_json_views_push(vb, v);
            assert(m.keys().take(i + 1) =~= m.keys().take(i as int).push(m.entries()[i as int].0@));
            assert(m.entries().take(i + 1).map_values(|e: (String, Predicate)| predicate_json(&e.1)) =~= m.entries().take(i as int).map_values(|e: (String, Predicate)| predicate_json(&e.1)).push(predicate_json(&m.entries()[i as int].1)));
        }
        i += 1;
    }
    proof {
        assert(m.keys().take(m.keys().len() as int) =~= m.keys());
        assert(m.entries().take(m.entries().len() as int) =~= m.entries());
    }
    JsonValue::Object(keys, values)
}

/// The serde_json form of a map from predicates to sets of authorities.
pub open spec fn admit_map_json(m: &StrMap<StrSet>) -> JsonV {
    JsonV::Object(m.keys(), m.entries().map_values(|e: (String, StrSet)| set_json(&e.1)))
}

pub fn admit_map_to_json(m: &StrMap<StrSet>) -> (j: JsonValue)
    ensures
        j@ == admit_map_json(m),
{
    let mut keys: Vec<String> = Vec::new();
    let mut values: Vec<JsonValue> = Vec::new();
    let mut i: usize = 0;
    while i < m.len()
        invariant
            i <= m.entries().len(),
            strings_view(keys@) == m.keys().take(i as int),
            json_views(values@) == m.entries().take(i as int).map_values(|e: (String, StrSet)| set_json(&e.1)),
        decreases m.entries().len() - i,
    {
        let ghost kb = keys@;
        let ghost vb = values@;
        keys.push(m.key_at(i).clone());
        let v = set_to_json(m.value_at(i));
        values.push(v);
        proof {
            lemma_strings_view_push(kb, m.entries()[i as int].0);
            lemma_json_views_push(vb, v);
            assert(m.keys().take(i + 1) =~= m.keys().take(i as int).push(m.entries()[i as int].0@));
            assert(m.entries().take(i + 1).map_values(|e: (String, StrSet)| set_json(&e.1)) =~= m.entries().take(i as int).map_values(|e: (String, StrSet)| set_json(&e.1)).push(set_json(&m.entries()[i as int].1)));
        }
        i += 1;
    }
    proof {
        assert(m.keys().take(m.keys().len() as int) =~= m.keys());
        assert(m.entries().take(m.entries().len() as int) =~= m.entries());
    }
    JsonValue::Object(keys, values)
}

pub open spec fn ontology_json(o: &Ontology) -> JsonV {
    JsonV::Object(
        seq!["id"@, "version"@, "predicates"@],
        seq![JsonV::Str(o.id@), JsonV::Str(o.version@), predicates_json(&o.predicates)],
    )
}

pub fn ontology_to_json(o: &Ontology) -> (j: JsonValue)
    ensures
        j@ == ontology_json(o),
{
    let mut b = ObjectBuilder::new();
    b.add("id", string_value(o.id.as_str()));
    b.add("version", string_value(o.version.as_str()));
    b.add("predicates", predicates_to_json(&o.predicates));
    let j = b.finish();
    proof {
        assert(b.key_views() =~= seq!["id"@, "version"@, "predicates"@]);
        assert(b.value_views() =~= seq![JsonV::Str(o.id@), JsonV::Str(o.version@), predicates_json(&o.predicates)]);
    }
    j
}

pub open spec fn policy_json(p: &AuthorityPolicy) -> JsonV {
    JsonV::Object(
        seq!["classes"@, "default_admit"@, "predicate_admit"@],
        seq![set_json(&p.classes), set_json(&p.default_admit), admit_map_json(&p.predicate_admit)],
    )
}

pub fn policy_to_json(p: &AuthorityPolicy) -> (j: JsonValue)
    ensures
        j@ == policy_json(p),
{
    let mut b = ObjectBuilder::new();
    b.add("classes", set_to_json(&p.classes));
    b.add("default_admit", set_to_json(&p.default_admit));
    b.add("predicate_admit", admit_map_to_json(&p.predicate_admit));
    let j = b.finish();
    proof {
        assert(b.key_views() =~= seq!["classes"@, "default_admit"@, "predicate_admit"@]);
        assert(b.value_views() =~= seq![set_json(&p.classes), set_json(&p.default_admit), admit_map_json(&p.predicate_admit)]);
    }
    j
}

pub open spec fn opt_member(name: Seq<char>, v: Option<String>) -> (Seq<Seq<char>>, Seq<JsonV>) {
    match v {
        Some(t) => (seq![name], seq![JsonV::Str(t@)]),
        None => (Seq::empty(), Seq::empty()),
    }
}

/// The serde_json form of a fact: the atom's members are flattened into it,
/// and absent lifecycle fields and an empty `supersedes` are left out.
pub open spec fn fact_json(f: &Fact) -> JsonV {
    let a = atom_json(f.atom@);
    let head_keys = seq!["id"@] + a->Object_0 + seq!["authority"@];
    let head_vals = seq![JsonV::Str(f.id@)] + a->Object_1 + seq![JsonV::Str(f.authority@)];
    let o = opt_member("observed_at"@, f.observed_at);
    let fr = opt_member("valid_from"@, f.valid_from);
    let un = opt_member("valid_until"@, f.valid_until);
    let sk: Seq<Seq<char>> = if f.supersedes@.len() > 0 { seq!["supersedes"@] } else { Seq::empty() };
    let sv: Seq<JsonV> = if f.supersedes@.len() > 0 {
        seq![JsonV::Array(strings_json(strings_view(f.supersedes@)))]
    } else {
        Seq::empty()
    };
    JsonV::Object(head_keys + o.0 + fr.0 + un.0 + sk, head_vals + o.1 + fr.1 + un.1 + sv)
}

pub fn add_opt(b: &mut ObjectBuilder, name: &str, v: &Option<String>)
    ensures
        final(b).key_views() == old(b).key_views() + opt_member(name@, *v).0,
        final(b).value_views() == old(b).value_views() + opt_member(name@, *v).1,
{
    match v {
        Some(t) => {
            b.add(name, string_value(t.as_str()));
        },
        None => {},
    }
    assert(b.key_views() =~= old(b).key_views() + opt_member(name@, *v).0);
    assert(b.value_views() =~= old(b).value_views() + opt_member(name@, *v).1);
}

pub fn fact_to_json(f: &Fact) -> (j: JsonValue)
    ensures
        j@ == fact_json(f),
{
    let mut b = ObjectBuilder::new();
    b.add("id", string_value(f.id.as_str()));
    b.add("predicate", string_value(f.atom.predicate.as_str()));
    b.add("arguments", crate::json::array_of(json_vec_clone(&f.atom.arguments)));
    if f.atom.negated {
        b.add("negated", JsonValue::Bool(true));
    }
    b.add("authority", string_value(f.authority.as_str()));
    let ghost k0 = b.key_views();
    let ghost v0 = b.value_views();
    add_opt(&mut b, "observed_at", &f.observed_at);
    add_opt(&mut b, "valid_from", &f.valid_from);
    add_opt(&mut b, "valid_until", &f.valid_until);
    if f.supersedes.len() > 0 {
        b.add("supersedes", string_array(f.supersedes.as_slice()));
    }
    let j = b.finish();
    proof {
        let a = atom_json(f.atom@);
        assert(k0 =~= seq!["id"@] + a->Object_0 + seq!["authority"@]);
        assert(v0 =~= seq![JsonV::Str(f.id@)] + a->Object_1 + seq![JsonV::Str(f.authority@)]);
        let o = opt_member("observed_at"@, f.observed_at);
        let fr = opt_member("valid_from"@, f.valid_from);
        let un = opt_member("valid_until"@, f.valid_until);
        if f.supersedes@.len() > 0 {
            assert(b.key_views() =~= k0 + o.0 + fr.0 + un.0 + seq!["supersedes"@]);
            assert(b.value_views() =~= v0 + o.1 + fr.1 + un.1 + seq![JsonV::Array(strings_json(strings_view(f.supersedes@)))]);
        } else {
            assert(b.key_views() =~= k0 + o.0 + fr.0 + un.0 + Seq::<Seq<char>>::empty());
            assert(b.value_views() =~= v0 + o.1 + fr.1 + un.1 + Seq::<JsonV>::empty());
        }
    }
    j
}

pub open spec fn atoms_json(atoms: Seq<Atom>) -> Seq<JsonV> {
    atoms.map_values(|a: Atom| atom_json(a@))
}

pub fn atoms_to_json(atoms: &Vec<Atom>) -> (j: JsonValue)
    ensures
        j@ == JsonV::Array(atoms_json(atoms@)),
{
    let mut values: Vec<JsonValue> = Vec::new();
    let mut i: usize = 0;
    while i < atoms.len()
        invariant
            i <= atoms@.len(),
            json_views(values@) == atoms_json(atoms@.take(i as int)),
        decreases atoms.len() - i,
    {
        let ghost before = values@;
        let v = atoms[i].to_json();
        values.push(v);
        proof {
            lemma_json_views_push(before, v);
            assert(atoms_json(atoms@.take(i + 1)) =~= atoms_json(atoms@.take(i as int)).push(atom_json(atoms@[i as int]@)));
        }
        i += 1;
    }
    proof {
        assert(atoms@.take(atoms@.len() as int) =~= atoms@);
    }
    JsonValue::Array(values)
}

/// The member name the rule head is written under.
pub open spec fn head_key() -> Seq<char> {
    seq!['t', 'h', 'e', 'n']
}

pub open spec fn rule_json(r: &Rule) -> JsonV {
    JsonV::Object(
        seq!["id"@, "when"@, head_key()],
        seq![JsonV::Str(r.id@), JsonV::Array(atoms_json(r.when@)), atom_json(r.head@)],
    )
}

pub fn rule_to_json(r: &Rule) -> (j: JsonValue)
    ensures
        j@ == rule_json(r),
{
    let mut b = ObjectBuilder::new();
    b.add("id", string_value(r.id.as_str()));
    b.add("when", atoms_to_json(&r.when));
    let key = crate::text::string_from_chars(&['t', 'h', 'e', 'n']);
    b.add(key.as_str(), r.head.to_json());
    let j = b.finish();
    proof {
        assert(b.key_views() =~= seq!["id"@, "when"@, head_key()]);
        assert(b.value_views() =~= seq![JsonV::Str(r.id@), JsonV::Array(atoms_json(r.when@)), atom_json(r.head@)]);
    }
    j
}

pub open spec fn facts_json(facts: Seq<Fact>) -> Seq<JsonV> {
    facts.map_values(|f: Fact| fact_json(&f))
}

pub open spec fn rules_json(rules: Seq<Rule>) -> Seq<JsonV> {
    rules.map_values(|r: Rule| rule_json(&r))
}

pub fn facts_to_json(facts: &Vec<Fact>) -> (j: JsonValue)
    ensures
        j@ == JsonV::Array(facts_json(facts@)),
{
    let mut values: Vec<JsonValue> = Vec::new();
    let mut i: usize = 0;
    while i < facts.len()
        invariant
            i <= facts@.len(),
            json_views(values@) == facts_json(facts@.take(i as int)),
        decreases facts.len() - i,
    {
        let ghost before = values@;
        let v = fact_to_json(&facts[i]);
        values.push(v);
        proof {
            lemma_json_views_push(before, v);
            assert(facts_json(facts@.take(i + 1)) =~= facts_json(facts@.take(i as int)).push(fact_json(&facts@[i as int])));
        }
        i += 1;
    }
    proof {
        assert(facts@.take(facts@.len() as int) =~= facts@);
    }
    JsonValue::Array(values)
}

pub fn rules_to_json(rules: &Vec<Rule>) -> (j: JsonValue)
    ensures
        j@ == JsonV::Array(rules_json(rules@)),
{
    let mut values: Vec<JsonValue> = Vec::new();
    let mut i: usize = 0;
    while i < rules.len()
        invariant
            i <= rules@.len(),
            json_views(values@) == rules_json(rules@.take(i as int)),
        decreases rules.len() - i,
    {
        let ghost before = values@;
        let v = rule_to_json(&rules[i]);
        values.push(v);
        proof {
            lemma_json_views_push(before, v);
            assert(rules_json(rules@.take(i + 1)) =~= rules_json(rules@.take(i as int)).push(rule_json(&rules@[i as int])));
        }
        i += 1;
    }
    proof {
        assert(rules@.take(rules@.len() as int) =~= rules@);
    }
    JsonValue::Array(values)
}

/// The serde_json form of a program; `evaluation_time` is left out when absent.
pub open spec fn program_json(p: &Program) -> JsonV {
    let e = opt_member("evaluation_time"@, p.evaluation_time);
    JsonV::Object(
        seq!["schema"@, "ontology"@, "authority"@] + e.0 + seq!["facts"@, "rules"@, "query"@],
        seq![JsonV::Str(p.schema@), ontology_json(&p.ontology), policy_json(&p.authority)] + e.1 + seq![
            JsonV::Array(facts_json(p.facts@)),
            JsonV::Array(rules_json(p.rules@)),
            atom_json(p.query@),
        ],
    )
}

pub fn program_to_json(p: &Program) -> (j: JsonValue)
    ensures
        j@ == program_json(p),
{
    let mut b = ObjectBuilder::new();
    b.add("schema", string_value(p.schema.as_str()));
    b.add("ontology", ontology_to_json(&p.ontology));
    b.add("authority", policy_to_json(&p.authority));
    let ghost k0 = b.key_views();
    let ghost v0 = b.value_views();
    add_opt(&mut b, "evaluation_time", &p.evaluation_time);
    let ghost k1 = b.key_views();
    let ghost v1 = b.value_views();
    b.add("facts", facts_to_json(&p.facts));
    b.add("rules", rules_to_json(&p.rules));
    b.add("query", p.query.to_json());
    let j = b.finish();
    proof {
        let e = opt_member("evaluation_time"@, p.evaluation_time);
        assert(k0 =~= seq!["schema"@, "ontology"@, "authority"@]);
        assert(v0 =~= seq![JsonV::Str(p.schema@), ontology_json(&p.ontology), policy_json(&p.authority)]);
        assert(b.key_views() =~= k0 + e.0 + seq!["facts"@, "rules"@, "query"@]);
        assert(b.value_views() =~= v0 + e.1 + seq![
            JsonV::Array(facts_json(p.facts@)),
            JsonV::Array(rules_json(p.rules@)),
            atom_json(p.query@),
        ]);
    }
    j
}

/// The `sha256:` digest of a JSON value's compact text.
pub open spec fn json_digest(v: JsonV) -> Seq<char> {
    crate::digest::digest_of(crate::json::encode(v))
}

pub fn digest_json(v: &JsonValue) -> (d: String)
    ensures
        d@ == json_digest(v@),
{
    let text = crate::json::encode_value(v);
    crate::digest::digest_text(text.as_slice())
}

} // verus!
