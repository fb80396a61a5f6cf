use vstd::prelude::*;

use crate::collections::{all_distinct, StrSet};
use crate::error::ReasonError;
use crate::json::{json_views, lemma_json_views, strings_view, JsonV};
use crate::model::{atom_key, AtomV, Fact, Program, Rule, PROGRAM_SCHEMA, PROGRAM_SCHEMA_V2};
use crate::report::fact_ids;
use crate::temporal::{all_observed, build_temporal_report, eligible, eligible_id};
use crate::text::{blank, chars_of, is_blank, join_newline, push_debug, push_str, seq_lt, str_eq, str_lt, string_from_chars};
use crate::timestamp::{canonical_timestamp, is_canonical_timestamp};
use crate::validate::{atom_ok, extend_path, indexed_path, is_variable, validate_atom, variable_name, variable_of};

verus! {

/// The program is written against the temporal schema, program v2.
pub open spec fn is_v2(p: &Program) -> bool {
    p.schema@ == PROGRAM_SCHEMA_V2@
}

/// The schema is one of the two program schemas.
pub open spec fn schema_ok(p: &Program) -> bool {
    p.schema@ == PROGRAM_SCHEMA@ || is_v2(p)
}

/// Program v2 carries a canonical evaluation time; program v1 carries none.
pub open spec fn evaluation_time_ok(p: &Program) -> bool {
    if is_v2(p) {
        p.evaluation_time matches Some(t) && is_canonical_timestamp(t@)
    } else {
        p.evaluation_time is None
    }
}

pub open spec fn authority_char(c: char) -> bool {
    ('a' <= c && c <= 'z') || ('0' <= c && c <= '9') || c == '-'
}

/// An authority class name: lowercase letters, digits, and internal hyphens.
pub open spec fn valid_authority_name(s: Seq<char>) -> bool {
    &&& s.len() > 0
    &&& s[0] != '-'
    &&& s.last() != '-'
    &&& forall|i: int| 0 <= i < s.len() ==> authority_char(#[trigger] s[i])
}

/// Every admitted authority is a declared class.
pub open spec fn admitted_declared(admitted: StrSet, classes: StrSet) -> bool {
    forall|x: Seq<char>| #[trigger] admitted.has(x) ==> classes.has(x)
}

/// The authority policy declares well-named classes, admits only declared
/// classes, and admits per predicate only for predicates of the ontology.
pub open spec fn authority_ok(p: &Program) -> bool {
    let a = p.authority;
    &&& a.classes.view_seq().len() > 0
    &&& forall|i: int| 0 <= i < a.classes.view_seq().len() ==> valid_authority_name(#[trigger] a.classes.view_seq()[i])
    &&& admitted_declared(a.default_admit, a.classes)
    &&& forall|k: Seq<char>| #[trigger] a.predicate_admit.has_key(k) ==> p.ontology.predicates.has_key(k)
        && admitted_declared(a.predicate_admit.spec_get(k)->0, a.classes)
}

/// The ids of the facts followed by the ids of the rules.
pub open spec fn all_ids(p: &Program) -> Seq<Seq<char>> {
    fact_ids(p.facts@) + p.rules@.map_values(|r: Rule| r.id@)
}

/// Every fact and rule id is non-blank and no two are equal.
pub open spec fn ids_ok(p: &Program) -> bool {
    &&& forall|i: int| 0 <= i < all_ids(p).len() ==> !is_blank(#[trigger] all_ids(p)[i])
    &&& all_distinct(all_ids(p))
}

pub open spec fn opt_canonical(t: Option<String>) -> bool {
    t matches Some(v) ==> is_canonical_timestamp(v@)
}

/// The lifecycle fields of a fact: required and canonical in v2 (with a
/// non-empty validity interval and no repeated or self supersession), absent
/// in v1.
pub open spec fn fact_time_ok(p: &Program, f: Fact) -> bool {
    if is_v2(p) {
        &&& f.observed_at matches Some(o) && is_canonical_timestamp(o@)
        &&& opt_canonical(f.valid_from)
        &&& opt_canonical(f.valid_until)
        &&& (f.valid_from matches Some(a) && f.valid_until matches Some(b) && is_canonical_timestamp(a@)
            && is_canonical_timestamp(b@)) ==> seq_lt(f.valid_from->0@, f.valid_until->0@)
        &&& all_distinct(strings_view(f.supersedes@))
        &&& !strings_view(f.supersedes@).contains(f.id@)
    } else {
        &&& f.observed_at is None
        &&& f.valid_from is None
        &&& f.valid_until is None
        &&& f.supersedes@.len() == 0
    }
}

/// A fact names a declared authority, fits the ontology without variables,
/// and has lifecycle fields as its schema requires.
pub open spec fn fact_ok(p: &Program, f: Fact) -> bool {
    &&& p.authority.classes.has(f.authority@)
    &&& atom_ok(f.atom@, &p.ontology, false)
    &&& fact_time_ok(p, f)
}

/// The atom keys of the facts.
pub open spec fn fact_keys(facts: Seq<Fact>) -> Seq<Seq<char>> {
    facts.map_values(|f: Fact| atom_key(f.atom@))
}

/// Two facts make the same claim: same predicate and arguments.
pub open spec fn same_claim(f: Fact, g: Fact) -> bool {
    f.atom.predicate@ == g.atom.predicate@ && f.atom@.arguments == g.atom@.arguments
}

/// The superseding fact `f` makes the same claim as `g` and, where both
/// observation times are canonical, was observed later.
pub open spec fn supersedes_ok(f: Fact, g: Fact) -> bool {
    &&& same_claim(f, g)
    &&& (f.observed_at matches Some(a) && g.observed_at matches Some(b) && is_canonical_timestamp(a@)
        && is_canonical_timestamp(b@)) ==> seq_lt(g.observed_at->0@, f.observed_at->0@)
}

/// `target` names a fact of the program, and `f` may supersede every fact so named.
pub open spec fn target_ok(p: &Program, f: Fact, target: Seq<char>) -> bool {
    &&& exists|j: int| 0 <= j < p.facts@.len() && #[trigger] p.facts@[j].id@ == target
    &&& forall|j: int| 0 <= j < p.facts@.len() && #[trigger] p.facts@[j].id@ == target ==> supersedes_ok(f, p.facts@[j])
}

/// Every superseded id names a fact with the same claim, observed earlier.
pub open spec fn supersession_ok(p: &Program) -> bool {
    forall|i: int, t: int| #![trigger p.facts@[i].supersedes@[t]]
        0 <= i < p.facts@.len() && 0 <= t < p.facts@[i].supersedes@.len() ==> target_ok(
            p,
            p.facts@[i],
            p.facts@[i].supersedes@[t]@,
        )
}

/// Some body atom of the rule binds the variable `name`.
pub open spec fn body_binds(r: Rule, name: Seq<char>) -> bool {
    exists|j: int, k: int|
        0 <= j < r.when@.len() && 0 <= k < r.when@[j]@.arguments.len() && is_variable(
            #[trigger] r.when@[j]@.arguments[k],
        ) && variable_of(r.when@[j]@.arguments[k]) == name
}

/// A rule's atoms fit the ontology and every head variable is bound in the body.
pub open spec fn rule_ok(p: &Program, r: Rule) -> bool {
    &&& forall|j: int| 0 <= j < r.when@.len() ==> atom_ok(#[trigger] r.when@[j]@, &p.ontology, true)
    &&& atom_ok(r.head@, &p.ontology, true)
    &&& forall|m: int| 0 <= m < r.head@.arguments.len() && is_variable(#[trigger] r.head@.arguments[m]) ==> body_binds(
        r,
        variable_of(r.head@.arguments[m]),
    )
}

/// No two facts in force at the evaluation time make the same atom.
pub open spec fn active_atoms_distinct(p: &Program) -> bool {
    let e = p.evaluation_time->0@;
    forall|i: int, j: int|
        0 <= i < p.facts@.len() && 0 <= j < p.facts@.len() && i != j && eligible(p, e, #[trigger] p.facts@[i])
            && eligible(p, e, #[trigger] p.facts@[j]) ==> atom_key(p.facts@[i].atom@) != atom_key(p.facts@[j].atom@)
}

/// Everything `validate` checks before the uniqueness of active atoms.
pub open spec fn program_shape_ok(p: &Program) -> bool {
    &&& schema_ok(p)
    &&& evaluation_time_ok(p)
    &&& !is_blank(p.ontology.id@)
    &&& !is_blank(p.ontology.version@)
    &&& authority_ok(p)
    &&& ids_ok(p)
    &&& forall|i: int| 0 <= i < p.facts@.len() ==> fact_ok(p, #[trigger] p.facts@[i])
    &&& !is_v2(p) ==> all_distinct(fact_keys(p.facts@))
    &&& is_v2(p) ==> supersession_ok(p)
    &&& forall|i: int| 0 <= i < p.rules@.len() ==> rule_ok(p, #[trigger] p.rules@[i])
    &&& atom_ok(p.query@, &p.ontology, false)
}

/// A valid program: well-formed, and in v2 no two active facts duplicate an atom.
pub open spec fn program_valid(p: &Program) -> bool {
    &&& program_shape_ok(p)
    &&& is_v2(p) ==> active_atoms_distinct(p)
}

/// Two programs with the same contents: schema, evaluation time, ontology,
/// authority policy, facts, rules, and query.
pub open spec fn same_views(p1: &Program, p2: &Program) -> bool {
    &&& p1.schema@ == p2.schema@
    &&& crate::model::opt_view(p1.evaluation_time) == crate::model::opt_view(p2.evaluation_time)
    &&& p1.ontology.id@ == p2.ontology.id@
    &&& p1.ontology.version@ == p2.ontology.version@
    &&& forall|k: Seq<char>| #[trigger] crate::action::declared(&p1.ontology.predicates, k) == crate::action::declared(
        &p2.ontology.predicates,
        k,
    )
    &&& forall|x: Seq<char>| #[trigger] p1.authority.classes.has(x) <==> p2.authority.classes.has(x)
    &&& p1.authority.default_admit.view_seq() == p2.authority.default_admit.view_seq()
    &&& forall|k: Seq<char>| #[trigger] crate::action::admitted_for(&p1.authority.predicate_admit, k)
        == crate::action::admitted_for(&p2.authority.predicate_admit, k)
    &&& crate::clone::facts_view(p1.facts@) == crate::clone::facts_view(p2.facts@)
    &&& crate::clone::rules_view(p1.rules@) == crate::clone::rules_view(p2.rules@)
    &&& p1.query@ == p2.query@
}

/// Facts at the same index of programs with the same contents have the same contents.
proof fn lemma_same_fact(p1: &Program, p2: &Program, i: int)
    requires
        same_views(p1, p2),
        0 <= i < p1.facts@.len(),
    ensures
        p2.facts@.len() == p1.facts@.len(),
        crate::clone::fact_view(p1.facts@[i]) == crate::clone::fact_view(p2.facts@[i]),
{
    assert(crate::clone::facts_view(p1.facts@).len() == p1.facts@.len());
    assert(crate::clone::facts_view(p2.facts@).len() == p2.facts@.len());
    assert(crate::clone::facts_view(p1.facts@)[i] == crate::clone::facts_view(p2.facts@)[i]);
}

/// An atom fits the ontologies of programs with the same contents alike.
proof fn lemma_same_atom_ok(p1: &Program, p2: &Program, a: AtomV, variables_allowed: bool)
    requires
        same_views(p1, p2),
    ensures
        atom_ok(a, &p1.ontology, variables_allowed) == atom_ok(a, &p2.ontology, variables_allowed),
{
    assert(crate::action::declared(&p1.ontology.predicates, a.predicate) == crate::action::declared(&p2.ontology.predicates, a.predicate));
}

/// The same authority policy is well formed in both programs.
proof fn lemma_same_authority_ok(p1: &Program, p2: &Program)
    requires
        same_views(p1, p2),
    ensures
        authority_ok(p1) == authority_ok(p2),
{
    let c1 = p1.authority.classes;
    let c2 = p2.authority.classes;
    let d1 = p1.authority.default_admit;
    let d2 = p2.authority.default_admit;
    if c1.view_seq().len() > 0 {
        assert(c1.has(c1.view_seq()[0]));
        assert(c2.has(c1.view_seq()[0]));
    }
    if c2.view_seq().len() > 0 {
        assert(c2.has(c2.view_seq()[0]));
        assert(c1.has(c2.view_seq()[0]));
    }
    if forall|i: int| 0 <= i < c1.view_seq().len() ==> valid_authority_name(#[trigger] c1.view_seq()[i]) {
        assert forall|i: int| 0 <= i < c2.view_seq().len() implies valid_authority_name(#[trigger] c2.view_seq()[i]) by {
            assert(c2.has(c2.view_seq()[i]));
            assert(c1.has(c2.view_seq()[i]));
            let j = choose|j: int| 0 <= j < c1.view_seq().len() && c1.view_seq()[j] == c2.view_seq()[i];
        }
    }
    if forall|i: int| 0 <= i < c2.view_seq().len() ==> valid_authority_name(#[trigger] c2.view_seq()[i]) {
        assert forall|i: int| 0 <= i < c1.view_seq().len() implies valid_authority_name(#[trigger] c1.view_seq()[i]) by {
            assert(c1.has(c1.view_seq()[i]));
            assert(c2.has(c1.view_seq()[i]));
            let j = choose|j: int| 0 <= j < c2.view_seq().len() && c2.view_seq()[j] == c1.view_seq()[i];
        }
    }
    if admitted_declared(d1, c1) {
        assert forall|x: Seq<char>| #[trigger] d2.has(x) implies c2.has(x) by {
            assert(d1.has(x));
            assert(c1.has(x));
        }
    }
    if admitted_declared(d2, c2) {
        assert forall|x: Seq<char>| #[trigger] d1.has(x) implies c1.has(x) by {
            assert(d2.has(x));
            assert(c2.has(x));
        }
    }
    assert forall|k: Seq<char>| #[trigger] p1.authority.predicate_admit.has_key(k) implies p2.authority.predicate_admit.has_key(k)
        && forall|x: Seq<char>| #[trigger] p1.authority.predicate_admit.spec_get(k)->0.has(x) == p2.authority.predicate_admit.spec_get(
            k,
        )->0.has(x) by {
        assert(crate::action::admitted_for(&p1.authority.predicate_admit, k) == crate::action::admitted_for(&p2.authority.predicate_admit, k));
    }
    assert forall|k: Seq<char>| #[trigger] p2.authority.predicate_admit.has_key(k) implies p1.authority.predicate_admit.has_key(k) by {
        assert(crate::action::admitted_for(&p1.authority.predicate_admit, k) == crate::action::admitted_for(&p2.authority.predicate_admit, k));
    }
    assert forall|k: Seq<char>| #[trigger] p1.ontology.predicates.has_key(k) == p2.ontology.predicates.has_key(k) by {
        assert(crate::action::declared(&p1.ontology.predicates, k) == crate::action::declared(&p2.ontology.predicates, k));
    }
    let q1 = forall|k: Seq<char>| #[trigger] p1.authority.predicate_admit.has_key(k) ==> p1.ontology.predicates.has_key(k)
        && admitted_declared(p1.authority.predicate_admit.spec_get(k)->0, c1);
    let q2 = forall|k: Seq<char>| #[trigger] p2.authority.predicate_admit.has_key(k) ==> p2.ontology.predicates.has_key(k)
        && admitted_declared(p2.authority.predicate_admit.spec_get(k)->0, c2);
    if q1 {
        assert forall|k: Seq<char>| #[trigger] p2.authority.predicate_admit.has_key(k) implies p2.ontology.predicates.has_key(k)
            && admitted_declared(p2.authority.predicate_admit.spec_get(k)->0, c2) by {
            assert(p1.authority.predicate_admit.has_key(k));
            assert forall|x: Seq<char>| #[trigger] p2.authority.predicate_admit.spec_get(k)->0.has(x) implies c2.has(x) by {
                assert(p1.authority.predicate_admit.spec_get(k)->0.has(x));
                assert(c1.has(x));
            }
        }
    }
    if q2 {
        assert forall|k: Seq<char>| #[trigger] p1.authority.predicate_admit.has_key(k) implies p1.ontology.predicates.has_key(k)
            && admitted_declared(p1.authority.predicate_admit.spec_get(k)->0, c1) by {
            assert(p2.authority.predicate_admit.has_key(k));
            assert forall|x: Seq<char>| #[trigger] p1.authority.predicate_admit.spec_get(k)->0.has(x) implies c1.has(x) by {
                assert(p2.authority.predicate_admit.spec_get(k)->0.has(x));
                assert(c2.has(x));
            }
        }
    }
    assert((c1.view_seq().len() > 0) == (c2.view_seq().len() > 0));
    assert(admitted_declared(d1, c1) == admitted_declared(d2, c2));
    assert(q1 == q2);
}

/// Programs with the same contents have the same fact and rule ids.
proof fn lemma_same_ids(p1: &Program, p2: &Program)
    requires
        same_views(p1, p2),
    ensures
        all_ids(p1) == all_ids(p2),
        fact_keys(p1.facts@) == fact_keys(p2.facts@),
{
    assert(crate::clone::facts_view(p1.facts@).len() == p1.facts@.len());
    assert(crate::clone::facts_view(p2.facts@).len() == p2.facts@.len());
    assert(crate::clone::rules_view(p1.rules@).len() == p1.rules@.len());
    assert(crate::clone::rules_view(p2.rules@).len() == p2.rules@.len());
    assert(fact_ids(p1.facts@) =~= fact_ids(p2.facts@)) by {
        assert forall|i: int| 0 <= i < p1.facts@.len() implies #[trigger] fact_ids(p1.facts@)[i] == fact_ids(p2.facts@)[i] by {
            lemma_same_fact(p1, p2, i);
        }
    }
    assert(fact_keys(p1.facts@) =~= fact_keys(p2.facts@)) by {
        assert forall|i: int| 0 <= i < p1.facts@.len() implies #[trigger] fact_keys(p1.facts@)[i] == fact_keys(p2.facts@)[i] by {
            lemma_same_fact(p1, p2, i);
        }
    }
    let r1 = p1.rules@.map_values(|r: Rule| r.id@);
    let r2 = p2.rules@.map_values(|r: Rule| r.id@);
    assert(r1 =~= r2) by {
        assert forall|i: int| 0 <= i < p1.rules@.len() implies #[trigger] r1[i] == r2[i] by {
            assert(crate::clone::rules_view(p1.rules@)[i] == crate::clone::rules_view(p2.rules@)[i]);
        }
    }
}

/// A fact at the same index of programs with the same contents is well formed in both or neither.
proof fn lemma_same_fact_ok(p1: &Program, p2: &Program, i: int)
    requires
        same_views(p1, p2),
        0 <= i < p1.facts@.len(),
    ensures
        fact_ok(p1, p1.facts@[i]) == fact_ok(p2, p2.facts@[i]),
{
    lemma_same_fact(p1, p2, i);
    let f = p1.facts@[i];
    let g = p2.facts@[i];
    lemma_same_atom_ok(p1, p2, f.atom@, false);
    assert(crate::model::opt_view(f.observed_at) == crate::model::opt_view(g.observed_at));
    assert(strings_view(f.supersedes@).len() == f.supersedes@.len());
    assert(strings_view(g.supersedes@).len() == g.supersedes@.len());
    assert(fact_time_ok(p1, f) == fact_time_ok(p2, g));
}

/// A rule at the same index of programs with the same contents is well formed in both or neither.
proof fn lemma_same_rule_ok(p1: &Program, p2: &Program, i: int)
    requires
        same_views(p1, p2),
        0 <= i < p1.rules@.len(),
    ensures
        p2.rules@.len() == p1.rules@.len(),
        rule_ok(p1, p1.rules@[i]) == rule_ok(p2, p2.rules@[i]),
{
    assert(crate::clone::rules_view(p1.rules@).len() == p1.rules@.len());
    assert(crate::clone::rules_view(p2.rules@).len() == p2.rules@.len());
    assert(crate::clone::rules_view(p1.rules@)[i] == crate::clone::rules_view(p2.rules@)[i]);
    let r1 = p1.rules@[i];
    let r2 = p2.rules@[i];
    assert(crate::engine::atom_views(r1.when@).len() == r1.when@.len());
    assert(crate::engine::atom_views(r2.when@).len() == r2.when@.len());
    assert forall|j: int| 0 <= j < r1.when@.len() implies #[trigger] r1.when@[j]@ == r2.when@[j]@ by {
        assert(crate::engine::atom_views(r1.when@)[j] == crate::engine::atom_views(r2.when@)[j]);
    }
    assert forall|j: int| 0 <= j < r1.when@.len() implies atom_ok(#[trigger] r1.when@[j]@, &p1.ontology, true) == atom_ok(
        r2.when@[j]@,
        &p2.ontology,
        true,
    ) by {
        lemma_same_atom_ok(p1, p2, r1.when@[j]@, true);
    }
    lemma_same_atom_ok(p1, p2, r1.head@, true);
    assert forall|name: Seq<char>| #[trigger] body_binds(r1, name) == body_binds(r2, name) by {
        if body_binds(r1, name) {
            let (j, k) = choose|j: int, k: int|
                0 <= j < r1.when@.len() && 0 <= k < r1.when@[j]@.arguments.len() && is_variable(#[trigger] r1.when@[j]@.arguments[k])
                    && variable_of(r1.when@[j]@.arguments[k]) == name;
            assert(r1.when@[j]@ == r2.when@[j]@);
            assert(is_variable(r2.when@[j]@.arguments[k]));
        }
        if body_binds(r2, name) {
            let (j, k) = choose|j: int, k: int|
                0 <= j < r2.when@.len() && 0 <= k < r2.when@[j]@.arguments.len() && is_variable(#[trigger] r2.when@[j]@.arguments[k])
                    && variable_of(r2.when@[j]@.arguments[k]) == name;
            assert(r1.when@[j]@ == r2.when@[j]@);
            assert(is_variable(r1.when@[j]@.arguments[k]));
        }
    }
    assert(r1.head@ == r2.head@);
    if rule_ok(p1, r1) {
        assert forall|j: int| 0 <= j < r2.when@.len() implies atom_ok(#[trigger] r2.when@[j]@, &p2.ontology, true) by {
            assert(atom_ok(r1.when@[j]@, &p1.ontology, true));
        }
        assert forall|m: int| 0 <= m < r2.head@.arguments.len() && is_variable(#[trigger] r2.head@.arguments[m]) implies body_binds(
            r2,
            variable_of(r2.head@.arguments[m]),
        ) by {
            assert(body_binds(r1, variable_of(r1.head@.arguments[m])));
        }
    }
    if rule_ok(p2, r2) {
        assert forall|j: int| 0 <= j < r1.when@.len() implies atom_ok(#[trigger] r1.when@[j]@, &p1.ontology, true) by {
            assert(atom_ok(r2.when@[j]@, &p2.ontology, true));
        }
        assert forall|m: int| 0 <= m < r1.head@.arguments.len() && is_variable(#[trigger] r1.head@.arguments[m]) implies body_binds(
            r1,
            variable_of(r1.head@.arguments[m]),
        ) by {
            assert(body_binds(r2, variable_of(r2.head@.arguments[m])));
        }
    }
}

/// Facts with the same contents are admitted and in time alike in programs
/// with the same contents.
proof fn lemma_same_base_eligible(p1: &Program, p2: &Program, f1: Fact, f2: Fact, e: Seq<char>)
    requires
        same_views(p1, p2),
        crate::clone::fact_view(f1) == crate::clone::fact_view(f2),
    ensures
        crate::temporal::base_eligible(p1, f1, e) == crate::temporal::base_eligible(p2, f2, e),
{
    let k = f1.atom.predicate@;
    assert(f1.atom@.predicate == k && f2.atom@.predicate == k);
    assert(crate::action::admitted_for(&p1.authority.predicate_admit, k) == crate::action::admitted_for(&p2.authority.predicate_admit, k));
    let s1 = crate::report::admitted_set(&p1.authority, k);
    let s2 = crate::report::admitted_set(&p2.authority, k);
    assert(s1.view_seq() == s2.view_seq());
    assert(crate::report::admits(&p1.authority, f1) == crate::report::admits(&p2.authority, f2));
    assert(crate::temporal::observed(f1) == crate::temporal::observed(f2));
    assert(crate::temporal::time_reason(f1, e) == crate::temporal::time_reason(f2, e));
}

/// A fact at the same index of programs with the same contents is in force in both or neither.
proof fn lemma_same_eligible(p1: &Program, p2: &Program, i: int, e: Seq<char>)
    requires
        same_views(p1, p2),
        0 <= i < p1.facts@.len(),
    ensures
        eligible(p1, e, p1.facts@[i]) == eligible(p2, e, p2.facts@[i]),
{
    lemma_same_fact(p1, p2, i);
    let f1 = p1.facts@[i];
    let f2 = p2.facts@[i];
    lemma_same_base_eligible(p1, p2, f1, f2, e);
    if crate::temporal::superseded(p1, e, f1) {
        let j = choose|j: int| 0 <= j < p1.facts@.len() && #[trigger] crate::temporal::supersedes_fact(p1, e, p1.facts@[j], f1);
        lemma_same_fact(p1, p2, j);
        lemma_same_base_eligible(p1, p2, p1.facts@[j], p2.facts@[j], e);
        assert(crate::temporal::supersedes_fact(p2, e, p2.facts@[j], f2));
    }
    if crate::temporal::superseded(p2, e, f2) {
        let j = choose|j: int| 0 <= j < p2.facts@.len() && #[trigger] crate::temporal::supersedes_fact(p2, e, p2.facts@[j], f2);
        lemma_same_fact(p1, p2, j);
        lemma_same_base_eligible(p1, p2, p1.facts@[j], p2.facts@[j], e);
        assert(crate::temporal::supersedes_fact(p1, e, p1.facts@[j], f1));
    }
}

/// What `supersession_ok` asks of one program holds in another with the same contents.
proof fn lemma_supersession_transfer(p1: &Program, p2: &Program)
    requires
        same_views(p1, p2),
        supersession_ok(p1),
    ensures
        supersession_ok(p2),
{
    assert(crate::clone::facts_view(p1.facts@).len() == p1.facts@.len());
    assert(crate::clone::facts_view(p2.facts@).len() == p2.facts@.len());
    assert forall|i: int, t: int|
        0 <= i < p2.facts@.len() && 0 <= t < p2.facts@[i].supersedes@.len() implies target_ok(
        p2,
        p2.facts@[i],
        #[trigger] p2.facts@[i].supersedes@[t]@,
    ) by {
        lemma_same_fact(p1, p2, i);
        let f1 = p1.facts@[i];
        let f2 = p2.facts@[i];
        assert(strings_view(f1.supersedes@).len() == f1.supersedes@.len());
        assert(strings_view(f2.supersedes@).len() == f2.supersedes@.len());
        assert(strings_view(f1.supersedes@)[t] == strings_view(f2.supersedes@)[t]);
        let target = f2.supersedes@[t]@;
        assert(f1.supersedes@[t]@ == target);
        assert(target_ok(p1, f1, f1.supersedes@[t]@));
        let j = choose|j: int| 0 <= j < p1.facts@.len() && #[trigger] p1.facts@[j].id@ == target;
        lemma_same_fact(p1, p2, j);
        assert(p2.facts@[j].id@ == target);
        assert forall|k: int| 0 <= k < p2.facts@.len() && #[trigger] p2.facts@[k].id@ == target implies supersedes_ok(
            f2,
            p2.facts@[k],
        ) by {
            lemma_same_fact(p1, p2, k);
            assert(p1.facts@[k].id@ == target);
            assert(supersedes_ok(f1, p1.facts@[k]));
        }
    }
}

/// Validity depends only on a program's contents: programs with the same
/// contents are both valid or both invalid.
pub proof fn lemma_valid_same_views(p1: &Program, p2: &Program)
    requires
        same_views(p1, p2),
    ensures
        program_valid(p1) == program_valid(p2),
{
    assert(crate::clone::facts_view(p1.facts@).len() == p1.facts@.len());
    assert(crate::clone::facts_view(p2.facts@).len() == p2.facts@.len());
    assert(crate::clone::rules_view(p1.rules@).len() == p1.rules@.len());
    assert(crate::clone::rules_view(p2.rules@).len() == p2.rules@.len());
    assert(same_views(p2, p1));
    lemma_same_authority_ok(p1, p2);
    lemma_same_ids(p1, p2);
    lemma_same_atom_ok(p1, p2, p1.query@, false);
    assert forall|i: int| 0 <= i < p1.facts@.len() implies fact_ok(p1, #[trigger] p1.facts@[i]) == fact_ok(p2, p2.facts@[i]) by {
        lemma_same_fact_ok(p1, p2, i);
    }
    assert((forall|i: int| 0 <= i < p1.facts@.len() ==> fact_ok(p1, #[trigger] p1.facts@[i])) == (forall|i: int|
        0 <= i < p2.facts@.len() ==> fact_ok(p2, #[trigger] p2.facts@[i]))) by {
        if forall|i: int| 0 <= i < p1.facts@.len() ==> fact_ok(p1, #[trigger] p1.facts@[i]) {
            assert forall|i: int| 0 <= i < p2.facts@.len() implies fact_ok(p2, #[trigger] p2.facts@[i]) by {
                lemma_same_fact_ok(p1, p2, i);
            }
        }
        if forall|i: int| 0 <= i < p2.facts@.len() ==> fact_ok(p2, #[trigger] p2.facts@[i]) {
            assert forall|i: int| 0 <= i < p1.facts@.len() implies fact_ok(p1, #[trigger] p1.facts@[i]) by {
                lemma_same_fact_ok(p1, p2, i);
            }
        }
    }
    assert((forall|i: int| 0 <= i < p1.rules@.len() ==> rule_ok(p1, #[trigger] p1.rules@[i])) == (forall|i: int|
        0 <= i < p2.rules@.len() ==> rule_ok(p2, #[trigger] p2.rules@[i]))) by {
        if forall|i: int| 0 <= i < p1.rules@.len() ==> rule_ok(p1, #[trigger] p1.rules@[i]) {
            assert forall|i: int| 0 <= i < p2.rules@.len() implies rule_ok(p2, #[trigger] p2.rules@[i]) by {
                lemma_same_rule_ok(p1, p2, i);
            }
        }
        if forall|i: int| 0 <= i < p2.rules@.len() ==> rule_ok(p2, #[trigger] p2.rules@[i]) {
            assert forall|i: int| 0 <= i < p1.rules@.len() implies rule_ok(p1, #[trigger] p1.rules@[i]) by {
                lemma_same_rule_ok(p1, p2, i);
            }
        }
    }
    if supersession_ok(p1) {
        lemma_supersession_transfer(p1, p2);
    }
    if supersession_ok(p2) {
        lemma_supersession_transfer(p2, p1);
    }
    assert(program_shape_ok(p1) == program_shape_ok(p2));
    let e = p1.evaluation_time->0@;
    assert(p2.evaluation_time->0@ == e || (p1.evaluation_time is None && p2.evaluation_time is None));
    if is_v2(p1) && program_shape_ok(p1) {
        assert(p1.evaluation_time is Some && p2.evaluation_time is Some);
        assert(p2.evaluation_time->0@ == e);
        if active_atoms_distinct(p1) {
            assert forall|i: int, j: int|
                0 <= i < p2.facts@.len() && 0 <= j < p2.facts@.len() && i != j && eligible(p2, e, #[trigger] p2.facts@[i])
                    && eligible(p2, e, #[trigger] p2.facts@[j]) implies atom_key(p2.facts@[i].atom@) != atom_key(p2.facts@[j].atom@) by {
                lemma_same_eligible(p1, p2, i, e);
                lemma_same_eligible(p1, p2, j, e);
                lemma_same_fact(p1, p2, i);
                lemma_same_fact(p1, p2, j);
            }
        }
        if active_atoms_distinct(p2) {
            assert forall|i: int, j: int|
                0 <= i < p1.facts@.len() && 0 <= j < p1.facts@.len() && i != j && eligible(p1, e, #[trigger] p1.facts@[i])
                    && eligible(p1, e, #[trigger] p1.facts@[j]) implies atom_key(p1.facts@[i].atom@) != atom_key(p1.facts@[j].atom@) by {
                lemma_same_eligible(p1, p2, i, e);
                lemma_same_eligible(p1, p2, j, e);
                lemma_same_fact(p1, p2, i);
                lemma_same_fact(p1, p2, j);
            }
        }
    }
}

fn message(parts: Vec<char>) -> (s: String)
    ensures
        s@ == parts@,
{
    string_from_chars(parts.as_slice())
}

fn check_schema(program: &Program, errors: &mut Vec<String>)
    ensures
        crate::text::grows(old(errors)@, final(errors)@),
        final(errors)@.len() >= old(errors)@.len(),
        (final(errors)@.len() == old(errors)@.len()) == schema_ok(program),
{
    let ghost errors_start = errors@;
    if !str_eq(program.schema.as_str(), PROGRAM_SCHEMA) && !str_eq(program.schema.as_str(), PROGRAM_SCHEMA_V2) {
        let mut out: Vec<char> = Vec::new();
        push_str(&mut out, "$.schema: expected ");
        push_debug(&mut out, PROGRAM_SCHEMA);
        push_str(&mut out, " or ");
        push_debug(&mut out, PROGRAM_SCHEMA_V2);
        push_str(&mut out, ", got ");
        push_debug(&mut out, program.schema.as_str());
        errors.push(message(out));
    }
}

fn check_evaluation_time(program: &Program, errors: &mut Vec<String>)
    ensures
        crate::text::grows(old(errors)@, final(errors)@),
        final(errors)@.len() >= old(errors)@.len(),
        (final(errors)@.len() == old(errors)@.len()) == evaluation_time_ok(program),
        is_v2(program) && program.evaluation_time is Some && !is_canonical_timestamp(program.evaluation_time->0@) ==> has_line(
            final(errors)@,
            "$.evaluation_time"@ + ": expected canonical UTC RFC 3339 seconds, for example 2026-08-14T12:00:00Z"@,
        ),
        !is_v2(program) && program.evaluation_time is Some ==> has_line(
            final(errors)@,
            "$.evaluation_time: temporal fields require schema zerker.reason.program.v2"@,
        ),
{
    let ghost errors_start = errors@;
    let v2 = str_eq(program.schema.as_str(), PROGRAM_SCHEMA_V2);
    match &program.evaluation_time {
        Some(value) => {
            if v2 {
                check_timestamp(value.as_str(), chars_of("$.evaluation_time").as_slice(), errors);
            } else {
                errors.push(
                    String::from_str("$.evaluation_time: temporal fields require schema zerker.reason.program.v2"),
                );
                assert(errors@[errors@.len() - 1]@ == "$.evaluation_time: temporal fields require schema zerker.reason.program.v2"@);
            }
        },
        None => {
            if v2 {
                errors.push(String::from_str("$.evaluation_time: required by program.v2"));
            }
        },
    }
}

/// Reports under `path` a timestamp that is not canonical.
fn check_timestamp(value: &str, path: &[char], errors: &mut Vec<String>)
    ensures
        crate::text::grows(old(errors)@, final(errors)@),
        final(errors)@.len() >= old(errors)@.len(),
        (final(errors)@.len() == old(errors)@.len()) == is_canonical_timestamp(value@),
        !is_canonical_timestamp(value@) ==> has_line(
            final(errors)@,
            path@ + ": expected canonical UTC RFC 3339 seconds, for example 2026-08-14T12:00:00Z"@,
        ),
{
    let ghost errors_start = errors@;
    if canonical_timestamp(value).is_none() {
        let mut out = extend_path(path, ": expected canonical UTC RFC 3339 seconds, for example 2026-08-14T12:00:00Z");
        errors.push(message(out));
        assert(errors@[errors@.len() - 1]@ == path@ + ": expected canonical UTC RFC 3339 seconds, for example 2026-08-14T12:00:00Z"@);
    }
}

fn check_ontology_names(program: &Program, errors: &mut Vec<String>)
    ensures
        crate::text::grows(old(errors)@, final(errors)@),
        final(errors)@.len() >= old(errors)@.len(),
        (final(errors)@.len() == old(errors)@.len()) == (!is_blank(program.ontology.id@) && !is_blank(
            program.ontology.version@,
        )),
{
    let ghost errors_start = errors@;
    if blank(program.ontology.id.as_str()) {
        errors.push(String::from_str("$.ontology.id: must not be empty"));
    }
    if blank(program.ontology.version.as_str()) {
        errors.push(String::from_str("$.ontology.version: must not be empty"));
    }
}

/// Whether `value` is a valid authority class name.
pub fn authority_name_ok(value: &str) -> (b: bool)
    ensures
        b == valid_authority_name(value@),
{
    let cs = chars_of(value);
    if cs.len() == 0 || cs[0] == '-' || cs[cs.len() - 1] == '-' {
        return false;
    }
    let mut i: usize = 0;
    while i < cs.len()
        invariant
            cs@ == value@,
            i <= cs@.len(),
            forall|j: int| 0 <= j < i ==> authority_char(#[trigger] value@[j]),
        decreases cs.len() - i,
    {
        let c = cs[i];
        if !(('a' <= c && c <= 'z') || ('0' <= c && c <= '9') || c == '-') {
            return false;
        }
        i += 1;
    }
    true
}

/// Reports under `path` each admitted authority that is not a declared class.
fn check_admitted(admitted: &StrSet, classes: &StrSet, path: &[char], errors: &mut Vec<String>)
    ensures
        crate::text::grows(old(errors)@, final(errors)@),
        final(errors)@.len() >= old(errors)@.len(),
        (final(errors)@.len() == old(errors)@.len()) == admitted_declared(*admitted, *classes),
{
    let ghost errors_start = errors@;
    let ghost start = errors@.len();
    let mut i: usize = 0;
    while i < admitted.len()
        invariant
            crate::text::grows(errors_start, errors@),
            i <= admitted.view_seq().len(),
            errors@.len() >= start,
            (errors@.len() == start) == forall|k: int| 0 <= k < i ==> classes.has(#[trigger] admitted.view_seq()[k]),
        decreases admitted.view_seq().len() - i,
    {
        let authority = admitted.get(i);
        if !classes.contains(authority.as_str()) {
            let mut out = extend_path(path, ": undeclared authority ");
            push_debug(&mut out, authority.as_str());
            push_str(&mut out, "; add it to $.authority.classes");
            errors.push(message(out));
        }
        i += 1;
    }
    proof {
        if errors@.len() == start {
            assert forall|x: Seq<char>| #[trigger] admitted.has(x) implies classes.has(x) by {
                let k = choose|k: int| 0 <= k < admitted.view_seq().len() && admitted.view_seq()[k] == x;
            }
        } else {
            let k = choose|k: int| 0 <= k < admitted.view_seq().len() && !classes.has(#[trigger] admitted.view_seq()[k]);
            assert(admitted.has(admitted.view_seq()[k]));
        }
    }
}

/// The `m`-th per-predicate admission names a declared predicate and declared classes.
pub open spec fn admit_entry_ok(p: &Program, m: int) -> bool {
    let e = p.authority.predicate_admit.entries()[m];
    p.ontology.predicates.has_key(e.0@) && admitted_declared(e.1, p.authority.classes)
}

fn check_authority(program: &Program, errors: &mut Vec<String>)
    ensures
        crate::text::grows(old(errors)@, final(errors)@),
        final(errors)@.len() >= old(errors)@.len(),
        (final(errors)@.len() == old(errors)@.len()) == authority_ok(program),
{
    let ghost errors_start = errors@;
    let a = &program.authority;
    let ghost start = errors@.len();
    if a.classes.is_empty() {
        errors.push(String::from_str("$.authority.classes: declare at least one authority class"));
    }
    let ghost after_empty = errors@.len();
    let mut i: usize = 0;
    while i < a.classes.len()
        invariant
            crate::text::grows(errors_start, errors@),
            a == &program.authority,
            i <= a.classes.view_seq().len(),
            errors@.len() >= after_empty,
            (errors@.len() == after_empty) == forall|k: int| 0 <= k < i ==> valid_authority_name(#[trigger] a.classes.view_seq()[k]),
        decreases a.classes.view_seq().len() - i,
    {
        let class = a.classes.get(i);
        if !authority_name_ok(class.as_str()) {
            let mut out: Vec<char> = Vec::new();
            push_str(&mut out, "$.authority.classes: invalid authority class ");
            push_debug(&mut out, class.as_str());
            push_str(&mut out, "; use lowercase letters, digits, and internal hyphens");
            errors.push(message(out));
        }
        i += 1;
    }
    let ghost after_names = errors@.len();
    check_admitted(&a.default_admit, &a.classes, chars_of("$.authority.default_admit").as_slice(), errors);
    let ghost after_default = errors@.len();
    let mut k: usize = 0;
    while k < a.predicate_admit.len()
        invariant
            crate::text::grows(errors_start, errors@),
            a == &program.authority,
            k <= a.predicate_admit.entries().len(),
            errors@.len() >= after_default,
            (errors@.len() == after_default) == forall|m: int| 0 <= m < k ==> #[trigger] admit_entry_ok(program, m),
        decreases a.predicate_admit.entries().len() - k,
    {
        let predicate = a.predicate_admit.key_at(k);
        let admitted = a.predicate_admit.value_at(k);
        let mut path = chars_of("$.authority.predicate_admit.");
        push_str(&mut path, predicate.as_str());
        if !program.ontology.predicates.contains_key(predicate.as_str()) {
            let mut out = path.clone();
            push_str(&mut out, ": predicate is not declared in the ontology");
            errors.push(message(out));
        }
        check_admitted(admitted, &a.classes, path.as_slice(), errors);
        proof {
            assert(admit_entry_ok(program, k as int) == (program.ontology.predicates.has_key(predicate@)
                && admitted_declared(*admitted, a.classes)));
        }
        k += 1;
    }
    proof {
        let m = a.predicate_admit;
        use_type_invariant(&program.authority.predicate_admit);
        if errors@.len() == after_default {
            assert forall|key: Seq<char>| #[trigger] m.has_key(key) implies program.ontology.predicates.has_key(key)
                && admitted_declared(m.spec_get(key)->0, a.classes) by {
                crate::collections::lemma_spec_get_entry(&m, key);
                let x = m.keys().index_of(key);
                assert(admit_entry_ok(program, x));
            }
        } else {
            let bad = choose|x: int| 0 <= x < m.entries().len() && !#[trigger] admit_entry_ok(program, x);
            crate::collections::lemma_entry_spec_get(&m, bad);
        }
    }
}


/// Reports a fact's lifecycle fields that its schema does not allow.
fn check_fact_time(program: &Program, v2: bool, index: usize, path: &[char], errors: &mut Vec<String>)
    requires
        index < program.facts@.len(),
        v2 == is_v2(program),
    ensures
        path@ == fact_path(index as int) && !v2 && has_temporal_fields(program.facts@[index as int]) ==> has_line(
            final(errors)@,
            temporal_fields_line(index as int),
        ),
        crate::text::grows(old(errors)@, final(errors)@),
        final(errors)@.len() >= old(errors)@.len(),
        (final(errors)@.len() == old(errors)@.len()) == fact_time_ok(program, program.facts@[index as int]),
{
    let ghost errors_start = errors@;
    let fact = &program.facts[index];
    if !v2 {
        if fact.observed_at.is_some() || fact.valid_from.is_some() || fact.valid_until.is_some()
            || fact.supersedes.len() > 0 {
            let out = extend_path(path, ": temporal fields require schema zerker.reason.program.v2");
            errors.push(message(out));
            assert(errors@[errors@.len() - 1]@ == path@ + ": temporal fields require schema zerker.reason.program.v2"@);
        }
        return;
    }
    let ghost start = errors@.len();
    match &fact.observed_at {
        Some(value) => check_timestamp(value.as_str(), extend_path(path, ".observed_at").as_slice(), errors),
        None => {
            let out = extend_path(path, ".observed_at: required by program.v2");
            errors.push(message(out));
        },
    }
    let ghost after_observed = errors@.len();
    if let Some(value) = &fact.valid_from {
        check_timestamp(value.as_str(), extend_path(path, ".valid_from").as_slice(), errors);
    }
    let ghost after_from = errors@.len();
    if let Some(value) = &fact.valid_until {
        check_timestamp(value.as_str(), extend_path(path, ".valid_until").as_slice(), errors);
    }
    let ghost after_until = errors@.len();
    if let (Some(from), Some(until)) = (&fact.valid_from, &fact.valid_until) {
        if canonical_timestamp(from.as_str()).is_some() && canonical_timestamp(until.as_str()).is_some()
            && !str_lt(from.as_str(), until.as_str()) {
            let out = extend_path(path, ": valid_from must be earlier than valid_until");
            errors.push(message(out));
        }
    }
    let ghost after_interval = errors@.len();
    let mut seen = StrSet::new();
    let mut t: usize = 0;
    while t < fact.supersedes.len()
        invariant
            crate::text::grows(errors_start, errors@),
            fact == &program.facts[index as int],
            t <= fact.supersedes@.len(),
            errors@.len() >= after_interval,
            forall|x: Seq<char>| #[trigger] seen.has(x) <==> strings_view(fact.supersedes@).take(t as int).contains(x),
            (errors@.len() == after_interval) == (all_distinct(strings_view(fact.supersedes@).take(t as int))
                && !strings_view(fact.supersedes@).take(t as int).contains(fact.id@)),
        decreases fact.supersedes@.len() - t,
    {
        let target = &fact.supersedes[t];
        let ghost before = errors@.len();
        let ghost pre = strings_view(fact.supersedes@).take(t as int);
        let ghost x = target@;
        let added = seen.insert(target.clone());
        if !added {
            let mut out = extend_path(path, ".supersedes: duplicate fact id ");
            push_debug(&mut out, target.as_str());
            errors.push(message(out));
        }
        let is_self = str_eq(target.as_str(), fact.id.as_str());
        if is_self {
            let out = extend_path(path, ".supersedes: a fact cannot supersede itself");
            errors.push(message(out));
        }
        proof {
            let post = strings_view(fact.supersedes@).take(t + 1);
            assert(strings_view(fact.supersedes@)[t as int] == x);
            assert(post =~= pre.push(x));
            crate::collections::lemma_all_distinct_push(pre, x);
            assert(post.contains(fact.id@) == (pre.contains(fact.id@) || x == fact.id@)) by {
                if post.contains(fact.id@) {
                    let k = choose|k: int| 0 <= k < post.len() && post[k] == fact.id@;
                    if k < pre.len() {
                        assert(pre[k] == post[k]);
                    }
                }
                if pre.contains(fact.id@) {
                    let k = choose|k: int| 0 <= k < pre.len() && pre[k] == fact.id@;
                    assert(post[k] == pre[k]);
                }
                if x == fact.id@ {
                    assert(post[pre.len() as int] == x);
                }
            }
            assert forall|y: Seq<char>| #[trigger] seen.has(y) <==> post.contains(y) by {
                if post.contains(y) {
                    let k = choose|k: int| 0 <= k < post.len() && post[k] == y;
                    if k < pre.len() {
                        assert(pre[k] == post[k]);
                    }
                }
                if pre.contains(y) {
                    let k = choose|k: int| 0 <= k < pre.len() && pre[k] == y;
                    assert(post[k] == pre[k]);
                }
                if y == x {
                    assert(post[pre.len() as int] == x);
                }
            }
        }
        t += 1;
    }
    proof {
        assert(strings_view(fact.supersedes@).take(fact.supersedes@.len() as int) =~= strings_view(fact.supersedes@));
    }
}


/// `seen` holds exactly the non-blank ids among the first `n`.
pub open spec fn seen_matches(seen: StrSet, ids: Seq<Seq<char>>, n: int) -> bool {
    forall|x: Seq<char>| #[trigger] seen.has(x) <==> (!is_blank(x) && ids.take(n).contains(x))
}

/// The first `n` ids are non-blank and distinct.
pub open spec fn ids_prefix_ok(ids: Seq<Seq<char>>, n: int) -> bool {
    &&& forall|k: int| 0 <= k < n ==> !is_blank(#[trigger] ids[k])
    &&& all_distinct(ids.take(n))
}

proof fn lemma_take_push_contains(ids: Seq<Seq<char>>, n: int, y: Seq<char>)
    requires
        0 <= n < ids.len(),
    ensures
        ids.take(n + 1) == ids.take(n).push(ids[n]),
        ids.take(n + 1).contains(y) == (ids.take(n).contains(y) || y == ids[n]),
{
    let pre = ids.take(n);
    let post = ids.take(n + 1);
    assert(post =~= pre.push(ids[n]));
    if post.contains(y) {
        let k = choose|k: int| 0 <= k < post.len() && post[k] == y;
        if k < pre.len() {
            assert(pre[k] == post[k]);
        }
    }
    if pre.contains(y) {
        let k = choose|k: int| 0 <= k < pre.len() && pre[k] == y;
        assert(post[k] == pre[k]);
    }
    if y == ids[n] {
        assert(post[n] == y);
    }
}

proof fn lemma_id_step(seen: StrSet, ids: Seq<Seq<char>>, n: int)
    requires
        0 <= n < ids.len(),
        seen_matches(seen, ids, n),
    ensures
        ids_prefix_ok(ids, n + 1) == (ids_prefix_ok(ids, n) && !is_blank(ids[n]) && !seen.has(ids[n])),
{
    lemma_take_push_contains(ids, n, ids[n]);
    crate::collections::lemma_all_distinct_push(ids.take(n), ids[n]);
    if ids_prefix_ok(ids, n) && !is_blank(ids[n]) {
        assert(seen.has(ids[n]) == ids.take(n).contains(ids[n]));
    }
    if ids_prefix_ok(ids, n + 1) {
        assert(!is_blank(ids[n]));
    }
}

/// Reports a blank or repeated id; records a non-blank id as seen.
fn check_one_id(id: &String, path: &[char], seen: &mut StrSet, errors: &mut Vec<String>)
    ensures
        crate::text::grows(old(errors)@, final(errors)@),
        final(errors)@.len() >= old(errors)@.len(),
        (final(errors)@.len() == old(errors)@.len()) == (!is_blank(id@) && !old(seen).has(id@)),
        forall|x: Seq<char>| #[trigger] final(seen).has(x) <==> (old(seen).has(x) || (x == id@ && !is_blank(id@))),
{
    let ghost errors_start = errors@;
    if blank(id.as_str()) {
        let out = extend_path(path, ".id: must not be empty");
        errors.push(message(out));
    } else if !seen.insert(id.clone()) {
        let mut out = extend_path(path, ".id: duplicate id ");
        push_debug(&mut out, id.as_str());
        errors.push(message(out));
    }
}

/// Reports everything wrong with fact `index` on its own: its id (against
/// the ids seen so far), authority, atom (against the atoms seen so far, in
/// v1), and lifecycle fields.
fn check_fact_entry(
    program: &Program,
    v2: bool,
    index: usize,
    seen: &mut StrSet,
    keys: &mut crate::collections::StrMap<String>,
    errors: &mut Vec<String>,
)
    requires
        index < program.facts@.len(),
        v2 == is_v2(program),
    ensures
        crate::text::grows(old(errors)@, final(errors)@),
        final(errors)@.len() >= old(errors)@.len(),
        (final(errors)@.len() == old(errors)@.len()) == (!is_blank(program.facts@[index as int].id@) && !old(
            seen,
        ).has(program.facts@[index as int].id@) && fact_ok(program, program.facts@[index as int]) && (v2
            || !old(keys).has_key(atom_key(program.facts@[index as int].atom@)))),
        forall|x: Seq<char>| #[trigger] final(seen).has(x) <==> (old(seen).has(x) || (x == program.facts@[index as int].id@
            && !is_blank(x))),
        forall|x: Seq<char>| #[trigger] final(keys).has_key(x) <==> (old(keys).has_key(x) || x == atom_key(
            program.facts@[index as int].atom@,
        )),
        !program.authority.classes.has(program.facts@[index as int].authority@) ==> has_line(
            final(errors)@,
            undeclared_authority_line(index as int, program.facts@[index as int].authority@),
        ),
        !v2 && old(keys).has_key(atom_key(program.facts@[index as int].atom@)) ==> has_duplicate_line(final(errors)@, index as int),
        !v2 && has_temporal_fields(program.facts@[index as int]) ==> has_line(final(errors)@, temporal_fields_line(index as int)),
{
    let ghost errors_start = errors@;
    let fact = &program.facts[index];
    let path = indexed_path(chars_of("$.facts").as_slice(), index);
    let ghost e0 = errors@.len();
    check_one_id(&fact.id, path.as_slice(), seen, errors);
    let ghost e1 = errors@.len();
    if !program.authority.classes.contains(fact.authority.as_str()) {
        let mut out = extend_path(path.as_slice(), ".authority: undeclared authority ");
        push_debug(&mut out, fact.authority.as_str());
        push_str(&mut out, "; add it to $.authority.classes");
        let line = message(out);
        proof {
            reveal_strlit("$.facts");
            assert(line@ == undeclared_authority_line(index as int, fact.authority@));
        }
        errors.push(line);
        proof {
            assert(errors@[errors@.len() - 1]@ == undeclared_authority_line(index as int, fact.authority@));
        }
    }
    let ghost e2 = errors@.len();
    let ghost after_authority = errors@;
    let key = fact.atom.key();
    match keys.get(key.as_str()) {
        Some(existing) => {
            if !v2 {
                let mut out = extend_path(path.as_slice(), ": duplicates the atom from fact ");
                push_debug(&mut out, existing.as_str());
                push_str(&mut out, "; combine provenance before reasoning");
                let line = message(out);
                proof {
                    reveal_strlit("$.facts");
                    assert(line@ == fact_path(index as int) + ": duplicates the atom from fact "@ + crate::text::debug_text(existing@)
                        + "; combine provenance before reasoning"@);
                    assert(duplicate_atom_line(index as int, line@));
                }
                errors.push(line);
                proof {
                    assert(duplicate_atom_line(index as int, errors@[errors@.len() - 1]@));
                }
            }
        },
        None => {},
    }
    keys.insert(key, fact.id.clone());
    let ghost e3 = errors@.len();
    let ghost before_atom = errors@;
    proof {
        lemma_lines_kept(after_authority, before_atom);
    }
    validate_atom(&fact.atom, &program.ontology, false, path.as_slice(), errors);
    let ghost e4 = errors@.len();
    let ghost before_time = errors@;
    proof {
        reveal_strlit("$.facts");
        assert(path@ == fact_path(index as int));
    }
    check_fact_time(program, v2, index, path.as_slice(), errors);
    proof {
        lemma_lines_kept(before_atom, before_time);
        lemma_lines_kept(before_time, errors@);
    }
}


fn check_target(program: &Program, index: usize, t: usize, path: &[char], errors: &mut Vec<String>)
    requires
        index < program.facts@.len(),
        t < program.facts@[index as int].supersedes@.len(),
    ensures
        crate::text::grows(old(errors)@, final(errors)@),
        final(errors)@.len() >= old(errors)@.len(),
        (final(errors)@.len() == old(errors)@.len()) == target_ok(
            program,
            program.facts@[index as int],
            program.facts@[index as int].supersedes@[t as int]@,
        ),
{
    let ghost errors_start = errors@;
    let facts = &program.facts;
    let fact = &facts[index];
    let target = &fact.supersedes[t];
    let ghost start = errors@.len();
    let mut found = false;
    let mut j: usize = 0;
    while j < facts.len()
        invariant
            crate::text::grows(errors_start, errors@),
            facts == &program.facts,
            fact == &program.facts@[index as int],
            target == &fact.supersedes@[t as int],
            j <= facts@.len(),
            found == exists|m: int| 0 <= m < j && #[trigger] facts@[m].id@ == target@,
            errors@.len() >= start,
            (errors@.len() == start) == forall|m: int| 0 <= m < j && #[trigger] facts@[m].id@ == target@ ==> supersedes_ok(*fact, facts@[m]),
        decreases facts.len() - j,
    {
        let other = &facts[j];
        if str_eq(other.id.as_str(), target.as_str()) {
            found = true;
            let ghost before = errors@.len();
            let same = str_eq(fact.atom.predicate.as_str(), other.atom.predicate.as_str())
                && crate::model::args_eq(&fact.atom.arguments, &other.atom.arguments);
            if !same {
                let mut out = extend_path(path, ".supersedes: fact ");
                push_debug(&mut out, target.as_str());
                push_str(&mut out, " is about a different predicate or arguments");
                errors.push(message(out));
            }
            if let (Some(observed), Some(target_observed)) = (&fact.observed_at, &other.observed_at) {
                if canonical_timestamp(observed.as_str()).is_some() && canonical_timestamp(target_observed.as_str()).is_some()
                    && !str_lt(target_observed.as_str(), observed.as_str()) {
                    let mut out = extend_path(path, ".supersedes: observed_at must be later than fact ");
                    push_debug(&mut out, target.as_str());
                    errors.push(message(out));
                }
            }
            proof {
                assert((errors@.len() == before) == supersedes_ok(*fact, facts@[j as int]));
            }
        }
        j += 1;
    }
    if !found {
        let mut out = extend_path(path, ".supersedes: fact ");
        push_debug(&mut out, target.as_str());
        push_str(&mut out, " does not exist");
        errors.push(message(out));
    }
}

fn check_supersession(program: &Program, errors: &mut Vec<String>)
    ensures
        crate::text::grows(old(errors)@, final(errors)@),
        final(errors)@.len() >= old(errors)@.len(),
        (final(errors)@.len() == old(errors)@.len()) == supersession_ok(program),
{
    let ghost errors_start = errors@;
    let facts = &program.facts;
    let ghost start = errors@.len();
    let mut i: usize = 0;
    while i < facts.len()
        invariant
            crate::text::grows(errors_start, errors@),
            facts == &program.facts,
            i <= facts@.len(),
            errors@.len() >= start,
            (errors@.len() == start) == forall|a: int, t: int| #![trigger facts@[a].supersedes@[t]]
                0 <= a < i && 0 <= t < facts@[a].supersedes@.len() ==> target_ok(program, facts@[a], facts@[a].supersedes@[t]@),
        decreases facts.len() - i,
    {
        let path = indexed_path(chars_of("$.facts").as_slice(), i);
        let ghost before_i = errors@.len();
        let mut t: usize = 0;
        while t < facts[i].supersedes.len()
            invariant
                crate::text::grows(errors_start, errors@),
                facts == &program.facts,
                i < facts@.len(),
                t <= facts@[i as int].supersedes@.len(),
                errors@.len() >= before_i,
                (errors@.len() == before_i) == forall|u: int| 0 <= u < t ==> target_ok(program, facts@[i as int], #[trigger] facts@[i as int].supersedes@[u]@),
            decreases facts@[i as int].supersedes@.len() - t,
        {
            check_target(program, i, t, path.as_slice(), errors);
            t += 1;
        }
        proof {
            if errors@.len() == start {
                assert forall|a: int, t: int| #![trigger facts@[a].supersedes@[t]]
                    0 <= a < i + 1 && 0 <= t < facts@[a].supersedes@.len() implies target_ok(program, facts@[a], facts@[a].supersedes@[t]@) by {
                    if a == i {
                        assert(target_ok(program, facts@[i as int], facts@[i as int].supersedes@[t]@));
                    }
                }
            }
            if errors@.len() != start && errors@.len() == before_i {
                assert(!forall|a: int, t: int| #![trigger facts@[a].supersedes@[t]]
                    0 <= a < i && 0 <= t < facts@[a].supersedes@.len() ==> target_ok(program, facts@[a], facts@[a].supersedes@[t]@));
            }
            if errors@.len() != before_i {
                let u = choose|u: int| 0 <= u < facts@[i as int].supersedes@.len() && !target_ok(program, facts@[i as int], #[trigger] facts@[i as int].supersedes@[u]@);
                assert(!target_ok(program, facts@[i as int], facts@[i as int].supersedes@[u]@));
            }
        }
        i += 1;
    }
}


/// Whether some body atom of the rule binds the variable `name`.
fn body_binds_exec(rule: &Rule, name: &str) -> (b: bool)
    ensures
        b == body_binds(*rule, name@),
{
    let mut j: usize = 0;
    while j < rule.when.len()
        invariant
            j <= rule.when@.len(),
            forall|a: int, k: int|
                0 <= a < j && 0 <= k < rule.when@[a]@.arguments.len() && is_variable(
                    #[trigger] rule.when@[a]@.arguments[k],
                ) ==> variable_of(rule.when@[a]@.arguments[k]) != name@,
        decreases rule.when.len() - j,
    {
        let atom = &rule.when[j];
        proof { lemma_json_views(atom.arguments@); }
        let mut k: usize = 0;
        while k < atom.arguments.len()
            invariant
                atom == &rule.when@[j as int],
                j < rule.when@.len(),
                k <= atom.arguments@.len(),
                json_views(atom.arguments@).len() == atom.arguments@.len(),
                forall|m: int| 0 <= m < atom.arguments@.len() ==> #[trigger] json_views(atom.arguments@)[m] == atom.arguments@[m]@,
                forall|a: int, m: int|
                    0 <= a < j && 0 <= m < rule.when@[a]@.arguments.len() && is_variable(
                        #[trigger] rule.when@[a]@.arguments[m],
                    ) ==> variable_of(rule.when@[a]@.arguments[m]) != name@,
                forall|m: int| 0 <= m < k && is_variable(#[trigger] atom@.arguments[m]) ==> variable_of(atom@.arguments[m]) != name@,
            decreases atom.arguments.len() - k,
        {
            assert(atom@.arguments[k as int] == atom.arguments@[k as int]@);
            match variable_name(&atom.arguments[k]) {
                Some(v) => {
                    if str_eq(v.as_str(), name) {
                        assert(is_variable(rule.when@[j as int]@.arguments[k as int]));
                        return true;
                    }
                },
                None => {},
            }
            k += 1;
        }
        j += 1;
    }
    false
}

/// The head variables of a rule.
fn head_variables(rule: &Rule) -> (vars: StrSet)
    ensures
        forall|x: Seq<char>| #[trigger] vars.has(x) <==> exists|m: int|
            0 <= m < rule.head@.arguments.len() && is_variable(#[trigger] rule.head@.arguments[m])
                && variable_of(rule.head@.arguments[m]) == x,
{
    let head = &rule.head;
    proof { lemma_json_views(head.arguments@); }
    let mut vars = StrSet::new();
    let mut m: usize = 0;
    while m < head.arguments.len()
        invariant
            head == &rule.head,
            m <= head.arguments@.len(),
            json_views(head.arguments@).len() == head.arguments@.len(),
            forall|k: int| 0 <= k < head.arguments@.len() ==> #[trigger] json_views(head.arguments@)[k] == head.arguments@[k]@,
            forall|x: Seq<char>| #[trigger] vars.has(x) <==> exists|k: int|
                0 <= k < m && is_variable(#[trigger] head@.arguments[k]) && variable_of(head@.arguments[k]) == x,
        decreases head.arguments.len() - m,
    {
        assert(head@.arguments[m as int] == head.arguments@[m as int]@);
        let ghost before = vars;
        match variable_name(&head.arguments[m]) {
            Some(v) => {
                vars.insert(v);
            },
            None => {},
        }
        proof {
            assert forall|x: Seq<char>| #[trigger] vars.has(x) <==> exists|k: int|
                0 <= k < m + 1 && is_variable(#[trigger] head@.arguments[k]) && variable_of(head@.arguments[k]) == x by {
                if vars.has(x) && !before.has(x) {
                    assert(is_variable(head@.arguments[m as int]));
                }
                if exists|k: int| 0 <= k < m + 1 && is_variable(#[trigger] head@.arguments[k]) && variable_of(head@.arguments[k]) == x {
                    let k = choose|k: int| 0 <= k < m + 1 && is_variable(#[trigger] head@.arguments[k]) && variable_of(head@.arguments[k]) == x;
                    if k < m {
                        assert(before.has(x));
                    }
                }
            }
        }
        m += 1;
    }
    vars
}

/// Reports everything wrong with rule `index`: its id (against the ids seen
/// so far), its atoms, and head variables the body does not bind.
fn check_rule_entry(program: &Program, index: usize, seen: &mut StrSet, errors: &mut Vec<String>)
    requires
        index < program.rules@.len(),
    ensures
        crate::text::grows(old(errors)@, final(errors)@),
        final(errors)@.len() >= old(errors)@.len(),
        (final(errors)@.len() == old(errors)@.len()) == (!is_blank(program.rules@[index as int].id@) && !old(
            seen,
        ).has(program.rules@[index as int].id@) && rule_ok(program, program.rules@[index as int])),
        forall|x: Seq<char>| #[trigger] final(seen).has(x) <==> (old(seen).has(x) || (x == program.rules@[index as int].id@
            && !is_blank(x))),
{
    let ghost errors_start = errors@;
    let rule = &program.rules[index];
    let path = indexed_path(chars_of("$.rules").as_slice(), index);
    let ghost e0 = errors@.len();
    check_one_id(&rule.id, path.as_slice(), seen, errors);
    let ghost e1 = errors@.len();
    let when_path = extend_path(path.as_slice(), ".when");
    let mut j: usize = 0;
    while j < rule.when.len()
        invariant
            crate::text::grows(errors_start, errors@),
            rule == &program.rules@[index as int],
            j <= rule.when@.len(),
            errors@.len() >= e1,
            (errors@.len() == e1) == forall|a: int| 0 <= a < j ==> atom_ok(#[trigger] rule.when@[a]@, &program.ontology, true),
        decreases rule.when.len() - j,
    {
        let atom_path = indexed_path(when_path.as_slice(), j);
        validate_atom(&rule.when[j], &program.ontology, true, atom_path.as_slice(), errors);
        j += 1;
    }
    let ghost e2 = errors@.len();
    let head_path = extend_path(path.as_slice(), ".then");
    validate_atom(&rule.head, &program.ontology, true, head_path.as_slice(), errors);
    let ghost e3 = errors@.len();
    let vars = head_variables(rule);
    let mut v: usize = 0;
    while v < vars.len()
        invariant
            crate::text::grows(errors_start, errors@),
            rule == &program.rules@[index as int],
            v <= vars.view_seq().len(),
            errors@.len() >= e3,
            (errors@.len() == e3) == forall|a: int| 0 <= a < v ==> body_binds(*rule, #[trigger] vars.view_seq()[a]),
        decreases vars.view_seq().len() - v,
    {
        let name = vars.get(v);
        if !body_binds_exec(rule, name.as_str()) {
            let mut out = extend_path(head_path.as_slice(), ": variable ");
            push_debug(&mut out, name.as_str());
            push_str(&mut out, " is not bound in the rule body");
            errors.push(message(out));
        }
        v += 1;
    }
    proof {
        let r = *rule;
        let all_bound = forall|m: int| 0 <= m < r.head@.arguments.len() && is_variable(#[trigger] r.head@.arguments[m]) ==> body_binds(
            r,
            variable_of(r.head@.arguments[m]),
        );
        if errors@.len() == e3 {
            assert forall|m: int| 0 <= m < r.head@.arguments.len() && is_variable(#[trigger] r.head@.arguments[m]) implies body_binds(
                r,
                variable_of(r.head@.arguments[m]),
            ) by {
                let x = variable_of(r.head@.arguments[m]);
                assert(vars.has(x));
                let a = choose|a: int| 0 <= a < vars.view_seq().len() && vars.view_seq()[a] == x;
            }
        } else {
            let a = choose|a: int| 0 <= a < vars.view_seq().len() && !body_binds(*rule, #[trigger] vars.view_seq()[a]);
            let x = vars.view_seq()[a];
            assert(vars.has(x));
            let m = choose|m: int| 0 <= m < r.head@.arguments.len() && is_variable(#[trigger] r.head@.arguments[m])
                && variable_of(r.head@.arguments[m]) == x;
            assert(!all_bound);
        }
    }
}


/// Fact ids are distinct when all ids are.
pub proof fn lemma_fact_ids_distinct(p: &Program)
    requires
        ids_ok(p),
    ensures
        all_distinct(fact_ids(p.facts@)),
{
    let ids = all_ids(p);
    let f = fact_ids(p.facts@);
    assert forall|i: int, j: int| 0 <= i < f.len() && 0 <= j < f.len() && i != j implies f[i] != f[j] by {
        assert(ids[i] == f[i] && ids[j] == f[j]);
    }
}

/// With distinct ids, a fact's id is an eligible id exactly when the fact is eligible.
proof fn lemma_eligible_by_id(p: &Program, e: Seq<char>, i: int)
    requires
        all_distinct(fact_ids(p.facts@)),
        0 <= i < p.facts@.len(),
    ensures
        eligible_id(p, e, p.facts@[i].id@) == eligible(p, e, p.facts@[i]),
{
    if eligible_id(p, e, p.facts@[i].id@) {
        let k = choose|k: int| 0 <= k < p.facts@.len() && #[trigger] p.facts@[k].id@ == p.facts@[i].id@ && eligible(p, e, p.facts@[k]);
        assert(fact_ids(p.facts@)[k] == p.facts@[k].id@);
        assert(fact_ids(p.facts@)[i] == p.facts@[i].id@);
    }
}

/// Reports pairs of facts in force at the evaluation time that make the same atom.
fn check_active_atoms(program: &Program, errors: &mut Vec<String>)
    requires
        program_shape_ok(program),
        is_v2(program),
    ensures
        crate::text::grows(old(errors)@, final(errors)@),
        final(errors)@.len() >= old(errors)@.len(),
        (final(errors)@.len() == old(errors)@.len()) == active_atoms_distinct(program),
        forall|k: int| old(errors)@.len() <= k < final(errors)@.len() ==> active_duplicate_line(#[trigger] final(errors)@[k]@),
{
    let ghost errors_start = errors@;
    proof {
        lemma_fact_ids_distinct(program);
        assert(all_observed(program.facts@)) by {
            assert forall|i: int| 0 <= i < program.facts@.len() implies (#[trigger] program.facts@[i]).observed_at is Some by {
                assert(fact_ok(program, program.facts@[i]));
            }
        }
    }
    let report = match build_temporal_report(program) {
        Some(r) => r,
        None => {
            return;
        },
    };
    let ghost e = program.evaluation_time->0@;
    let facts = &program.facts;
    let ghost start = errors@.len();
    let ghost keys = fact_keys(facts@);
    let mut atoms: crate::collections::StrMap<String> = crate::collections::StrMap::new();
    let mut i: usize = 0;
    while i < facts.len()
        invariant
            crate::text::grows(errors_start, errors@),
            facts == &program.facts,
            keys == fact_keys(facts@),
            e == program.evaluation_time->0@,
            all_distinct(fact_ids(facts@)),
            crate::temporal::temporal_report_ok(program, e, &report),
            i <= facts@.len(),
            errors@.len() >= start,
            forall|x: Seq<char>| #[trigger] atoms.has_key(x) <==> exists|k: int| 0 <= k < i && eligible(program, e, #[trigger] facts@[k]) && keys[k] == x,
            (errors@.len() == start) == forall|a: int, b: int|
                0 <= a < i && 0 <= b < i && a != b && eligible(program, e, #[trigger] facts@[a]) && eligible(program, e, #[trigger] facts@[b]) ==> keys[a] != keys[b],
            start == errors_start.len(),
            forall|k: int| start <= k < errors@.len() ==> active_duplicate_line(#[trigger] errors@[k]@),
        decreases facts.len() - i,
    {
        let fact = &facts[i];
        let active = crate::text::strings_contain(&report.eligible_fact_ids, fact.id.as_str());
        proof {
            lemma_eligible_by_id(program, e, i as int);
            assert(active == eligible(program, e, facts@[i as int]));
        }
        let ghost before = errors@.len();
        let ghost before_atoms = atoms;
        if active {
            let key = fact.atom.key();
            assert(key@ == keys[i as int]);
            match atoms.get(key.as_str()) {
                Some(existing) => {
                    let mut out: Vec<char> = Vec::new();
                    push_str(&mut out, "$.facts: active facts ");
                    push_debug(&mut out, existing.as_str());
                    push_str(&mut out, " and ");
                    push_debug(&mut out, fact.id.as_str());
                    push_str(&mut out, " duplicate the same atom; supersede one explicitly");
                    let line = message(out);
                    assert(active_duplicate_line(line@)) by {
                        assert(line@ == "$.facts: active facts "@ + crate::text::debug_text(existing@) + " and "@ + crate::text::debug_text(
                            fact.id@,
                        ) + " duplicate the same atom; supersede one explicitly"@);
                    }
                    errors.push(line);
                },
                None => {},
            }
            atoms.insert(key, fact.id.clone());
        }
        proof {
            let ok_i = forall|a: int, b: int|
                0 <= a < i && 0 <= b < i && a != b && eligible(program, e, #[trigger] facts@[a]) && eligible(program, e, #[trigger] facts@[b]) ==> keys[a] != keys[b];
            let ok_n = forall|a: int, b: int|
                0 <= a < i + 1 && 0 <= b < i + 1 && a != b && eligible(program, e, #[trigger] facts@[a]) && eligible(program, e, #[trigger] facts@[b]) ==> keys[a] != keys[b];
            let ex = exists|k: int| 0 <= k < i && eligible(program, e, #[trigger] facts@[k]) && keys[k] == keys[i as int];
            if ok_n && active && ex {
                let k = choose|k: int| 0 <= k < i && eligible(program, e, #[trigger] facts@[k]) && keys[k] == keys[i as int];
                assert(eligible(program, e, facts@[k]) && eligible(program, e, facts@[i as int]));
            }
            if ok_i && (active ==> !ex) {
                assert forall|a: int, b: int|
                    0 <= a < i + 1 && 0 <= b < i + 1 && a != b && eligible(program, e, #[trigger] facts@[a]) && eligible(program, e, #[trigger] facts@[b]) implies keys[a] != keys[b] by {
                    if a == i || b == i {
                        let k = if a == i { b } else { a };
                        if keys[a] == keys[b] {
                            assert(eligible(program, e, facts@[k]) && keys[k] == keys[i as int]);
                        }
                    }
                }
            }
            assert(ok_n == (ok_i && (active ==> !ex)));
            assert((errors@.len() == before) == !(active && ex)) by {
                if active {
                    assert(before_atoms.has_key(keys[i as int]) == ex);
                }
            }
            assert forall|x: Seq<char>| #[trigger] atoms.has_key(x) <==> exists|k: int| 0 <= k < i + 1 && eligible(program, e, #[trigger] facts@[k]) && keys[k] == x by {
                if exists|k: int| 0 <= k < i + 1 && eligible(program, e, #[trigger] facts@[k]) && keys[k] == x {
                    let k = choose|k: int| 0 <= k < i + 1 && eligible(program, e, #[trigger] facts@[k]) && keys[k] == x;
                    if k < i {
                        assert(before_atoms.has_key(x));
                    }
                }
                if before_atoms.has_key(x) {
                    let k = choose|k: int| 0 <= k < i && eligible(program, e, #[trigger] facts@[k]) && keys[k] == x;
                }
            }
        }
        i += 1;
    }
}


/// The path of the fact at `index`.
pub open spec fn fact_path(index: int) -> Seq<char> {
    "$.facts"@ + seq!['['] + crate::text::decimal(index as nat) + seq![']']
}

/// The line reporting that the fact at `index` names an undeclared authority.
/// The fact carries a lifecycle field: an observation time, a validity
/// bound, or superseded facts.
pub open spec fn has_temporal_fields(f: Fact) -> bool {
    f.observed_at is Some || f.valid_from is Some || f.valid_until is Some || f.supersedes@.len() > 0
}

/// The line reporting lifecycle fields on the fact at `index` of a program v1.
pub open spec fn temporal_fields_line(index: int) -> Seq<char> {
    fact_path(index) + ": temporal fields require schema zerker.reason.program.v2"@
}

pub open spec fn undeclared_authority_line(index: int, authority: Seq<char>) -> Seq<char> {
    fact_path(index) + ".authority: undeclared authority "@ + crate::text::debug_text(authority)
        + "; add it to $.authority.classes"@
}

/// A line reporting that the fact at `index` repeats the atom of an earlier fact.
pub open spec fn duplicate_atom_line(index: int, line: Seq<char>) -> bool {
    exists|earlier: Seq<char>|
        line == fact_path(index) + ": duplicates the atom from fact "@ + crate::text::debug_text(earlier)
            + "; combine provenance before reasoning"@
}

/// Some line of the errors is `line`.
pub open spec fn has_line(errors: Seq<String>, line: Seq<char>) -> bool {
    exists|k: int| 0 <= k < errors.len() && (#[trigger] errors[k])@ == line
}

/// Some line of the errors reports a repeated atom at `index`.
pub open spec fn has_duplicate_line(errors: Seq<String>, index: int) -> bool {
    exists|k: int| 0 <= k < errors.len() && duplicate_atom_line(index, (#[trigger] errors[k])@)
}

/// A validation message made of lines, one of which is `line`.
pub open spec fn message_has_line(m: Seq<char>, line: Seq<char>) -> bool {
    exists|lines: Seq<Seq<char>>| m == crate::text::join_lines(lines) && lines.contains(line)
}

pub proof fn lemma_lines_kept(a: Seq<String>, b: Seq<String>)
    requires
        crate::text::grows(a, b),
    ensures
        forall|l: Seq<char>| has_line(a, l) ==> #[trigger] has_line(b, l),
        forall|i: int| has_duplicate_line(a, i) ==> #[trigger] has_duplicate_line(b, i),
{
    assert forall|l: Seq<char>| has_line(a, l) implies #[trigger] has_line(b, l) by {
        let k = choose|k: int| 0 <= k < a.len() && (#[trigger] a[k])@ == l;
        assert(b[k] == a[k]);
    }
    assert forall|i: int| has_duplicate_line(a, i) implies #[trigger] has_duplicate_line(b, i) by {
        let k = choose|k: int| 0 <= k < a.len() && duplicate_atom_line(i, (#[trigger] a[k])@);
        assert(b[k] == a[k]);
    }
}

/// The fact at `index` repeats the atom key of an earlier fact.
pub open spec fn repeats_earlier_atom(keys: Seq<Seq<char>>, index: int) -> bool {
    keys.take(index).contains(keys[index])
}

/// A validation message made of lines, one of which reports a repeated atom
/// at `index`.
pub open spec fn message_has_duplicate(m: Seq<char>, index: int) -> bool {
    exists|lines: Seq<Seq<char>>, k: int| m == crate::text::join_lines(lines) && 0 <= k < lines.len() && duplicate_atom_line(index, lines[k])
}

/// A line reporting two facts in force that state the same atom.
pub open spec fn active_duplicate_line(line: Seq<char>) -> bool {
    exists|a: Seq<char>, b: Seq<char>|
        line == "$.facts: active facts "@ + crate::text::debug_text(a) + " and "@ + crate::text::debug_text(b)
            + " duplicate the same atom; supersede one explicitly"@
}

/// A validation message made of lines, one of which reports two facts in
/// force with the same atom.
pub open spec fn message_has_active_duplicate(m: Seq<char>) -> bool {
    exists|lines: Seq<Seq<char>>, k: int| m == crate::text::join_lines(lines) && 0 <= k < lines.len() && active_duplicate_line(lines[k])
}

/// Everything `validate` checks before facts.
pub open spec fn header_ok(p: &Program) -> bool {
    &&& schema_ok(p)
    &&& evaluation_time_ok(p)
    &&& !is_blank(p.ontology.id@)
    &&& !is_blank(p.ontology.version@)
    &&& authority_ok(p)
}

/// Checks a program against its schema, ontology, authority policy, and
/// lifecycle rules; the error lists every problem found, one per line.
pub fn validate(program: &Program) -> (r: Result<(), ReasonError>)
    ensures
        r is Ok <==> program_valid(program),
        r matches Err(e) ==> e is InvalidProgram,
        forall|i: int|
            0 <= i < program.facts@.len() && !program.authority.classes.has(#[trigger] program.facts@[i].authority@) ==> (r matches Err(
                ReasonError::InvalidProgram(m),
            ) && message_has_line(m@, undeclared_authority_line(i, program.facts@[i].authority@))),
        forall|i: int, j: int|
            0 <= i < j < program.facts@.len() && !is_v2(program) && atom_key(#[trigger] program.facts@[i].atom@) == atom_key(
                #[trigger] program.facts@[j].atom@,
            ) ==> (r matches Err(ReasonError::InvalidProgram(m)) && message_has_duplicate(m@, j)),
        is_v2(program) && program.evaluation_time is Some && !is_canonical_timestamp(program.evaluation_time->0@) ==> (r matches Err(
            ReasonError::InvalidProgram(m),
        ) && message_has_line(
            m@,
            "$.evaluation_time"@ + ": expected canonical UTC RFC 3339 seconds, for example 2026-08-14T12:00:00Z"@,
        )),
        !is_v2(program) && program.evaluation_time is Some ==> (r matches Err(ReasonError::InvalidProgram(m)) && message_has_line(
            m@,
            "$.evaluation_time: temporal fields require schema zerker.reason.program.v2"@,
        )),
        is_v2(program) && program_shape_ok(program) && !active_atoms_distinct(program) ==> (r matches Err(
            ReasonError::InvalidProgram(m),
        ) && message_has_active_duplicate(m@)),
        forall|i: int|
            0 <= i < program.facts@.len() && !is_v2(program) && has_temporal_fields(#[trigger] program.facts@[i]) ==> (r matches Err(
                ReasonError::InvalidProgram(m),
            ) && message_has_line(m@, temporal_fields_line(i))),
{
    let mut errors: Vec<String> = Vec::new();
    let v2 = str_eq(program.schema.as_str(), PROGRAM_SCHEMA_V2);
    check_schema(program, &mut errors);
    check_evaluation_time(program, &mut errors);
    let ghost after_time = errors@;
    check_ontology_names(program, &mut errors);
    check_authority(program, &mut errors);
    let ghost before_facts = errors@;
    proof {
        assert(crate::text::grows(after_time, before_facts));
    }
    let ghost ids = all_ids(program);
    let ghost fk = fact_keys(program.facts@);
    let ghost nf = program.facts@.len() as int;
    assert(ids.len() == nf + program.rules@.len());
    let mut seen = StrSet::new();
    let mut keys: crate::collections::StrMap<String> = crate::collections::StrMap::new();
    let facts = &program.facts;
    let mut i: usize = 0;
    while i < facts.len()
        invariant
            facts == &program.facts,
            v2 == is_v2(program),
            ids == all_ids(program),
            fk == fact_keys(facts@),
            nf == facts@.len(),
            ids.len() == nf + program.rules@.len(),
            i <= nf,
            seen_matches(seen, ids, i as int),
            forall|x: Seq<char>| #[trigger] keys.has_key(x) <==> fk.take(i as int).contains(x),
            (errors@.len() == 0) == (header_ok(program) && ids_prefix_ok(ids, i as int) && (forall|k: int|
                0 <= k < i ==> fact_ok(program, #[trigger] facts@[k])) && (!v2 ==> all_distinct(fk.take(i as int)))),
            forall|x: int| 0 <= x < i && !program.authority.classes.has(#[trigger] facts@[x].authority@) ==> has_line(
                errors@,
                undeclared_authority_line(x, facts@[x].authority@),
            ),
            forall|y: int| 0 <= y < i && !v2 && #[trigger] repeats_earlier_atom(fk, y) ==> has_duplicate_line(errors@, y),
            forall|x: int| 0 <= x < i && !v2 && has_temporal_fields(#[trigger] facts@[x]) ==> has_line(errors@, temporal_fields_line(x)),
            crate::text::grows(before_facts, errors@),
        decreases facts.len() - i,
    {
        let ghost before = errors@.len();
        let ghost before_lines = errors@;
        let ghost seen0 = seen;
        let ghost keys0 = keys;
        check_fact_entry(program, v2, i, &mut seen, &mut keys, &mut errors);
        proof {
            assert(ids[i as int] == facts@[i as int].id@) by {
                assert(fact_ids(facts@)[i as int] == facts@[i as int].id@);
            }
            assert(fk[i as int] == atom_key(facts@[i as int].atom@));
            lemma_id_step(seen0, ids, i as int);
            lemma_take_push_contains(fk, i as int, fk[i as int]);
            crate::collections::lemma_all_distinct_push(fk.take(i as int), fk[i as int]);
            assert(keys0.has_key(fk[i as int]) == fk.take(i as int).contains(fk[i as int]));
            assert forall|x: Seq<char>| #[trigger] seen.has(x) <==> (!is_blank(x) && ids.take(i + 1).contains(x)) by {
                lemma_take_push_contains(ids, i as int, x);
            }
            assert forall|x: Seq<char>| #[trigger] keys.has_key(x) <==> fk.take(i + 1).contains(x) by {
                lemma_take_push_contains(fk, i as int, x);
            }
            lemma_lines_kept(before_lines, errors@);
            assert forall|t: int| 0 <= t < before_facts.len() implies #[trigger] errors@[t] == before_facts[t] by {
                assert(before_lines[t] == before_facts[t]);
            }
            assert forall|x: int| 0 <= x < i + 1 && !program.authority.classes.has(#[trigger] facts@[x].authority@) implies has_line(
                errors@,
                undeclared_authority_line(x, facts@[x].authority@),
            ) by {
                if x < i {
                    assert(has_line(before_lines, undeclared_authority_line(x, facts@[x].authority@)));
                }
            }
            assert forall|x: int| 0 <= x < i + 1 && !v2 && has_temporal_fields(#[trigger] facts@[x]) implies has_line(
                errors@,
                temporal_fields_line(x),
            ) by {
                if x < i {
                    assert(has_line(before_lines, temporal_fields_line(x)));
                }
            }
            assert forall|y: int| 0 <= y < i + 1 && !v2 && #[trigger] repeats_earlier_atom(fk, y) implies has_duplicate_line(errors@, y) by {
                if y < i {
                    assert(has_duplicate_line(before_lines, y));
                } else {
                    assert(keys0.has_key(fk[y]));
                }
            }
        }
        i += 1;
    }
    let ghost after_facts = errors@;
    if v2 {
        check_supersession(program, &mut errors);
    }
    proof { lemma_lines_kept(after_facts, errors@); }
    let ghost after_supersession = errors@;
    let rules = &program.rules;
    let mut j: usize = 0;
    while j < rules.len()
        invariant
            rules == &program.rules,
            v2 == is_v2(program),
            ids == all_ids(program),
            fk == fact_keys(program.facts@),
            nf == program.facts@.len(),
            ids.len() == nf + rules@.len(),
            j <= rules@.len(),
            seen_matches(seen, ids, nf + j),
            (errors@.len() == 0) == (header_ok(program) && ids_prefix_ok(ids, nf + j) && (forall|k: int|
                0 <= k < nf ==> fact_ok(program, #[trigger] program.facts@[k])) && (!v2 ==> all_distinct(fk.take(nf)))
                && (v2 ==> supersession_ok(program)) && (forall|k: int| 0 <= k < j ==> rule_ok(program, #[trigger] rules@[k]))),
            crate::text::grows(after_supersession, errors@),
        decreases rules.len() - j,
    {
        let ghost seen0 = seen;
        let ghost rule_before = errors@;
        check_rule_entry(program, j, &mut seen, &mut errors);
        proof {
            assert forall|t: int| 0 <= t < after_supersession.len() implies #[trigger] errors@[t] == after_supersession[t] by {
                assert(rule_before[t] == after_supersession[t]);
            }
        }
        proof {
            assert(ids[nf + j] == rules@[j as int].id@) by {
                let rv = program.rules@.map_values(|r: Rule| r.id@);
                assert(rv[j as int] == rules@[j as int].id@);
            }
            lemma_id_step(seen0, ids, nf + j);
            assert forall|x: Seq<char>| #[trigger] seen.has(x) <==> (!is_blank(x) && ids.take(nf + j + 1).contains(x)) by {
                lemma_take_push_contains(ids, nf + j, x);
            }
        }
        j += 1;
    }
    let ghost before_query = errors@;
    validate_atom(&program.query, &program.ontology, false, chars_of("$.query").as_slice(), &mut errors);
    proof {
        assert(ids.take(ids.len() as int) =~= ids);
        assert(fk.take(nf) =~= fk);
        assert((errors@.len() == 0) == program_shape_ok(program));
    }
    let ghost before_active = errors@;
    if errors.len() == 0 && v2 {
        check_active_atoms(program, &mut errors);
    }
    proof {
        lemma_lines_kept(after_supersession, before_query);
        lemma_lines_kept(before_query, before_active);
        lemma_lines_kept(before_active, errors@);
        lemma_lines_kept(after_time, before_facts);
        lemma_lines_kept(before_facts, after_facts);
        let lines = crate::text::strings_view(errors@);
        let t1 = "$.evaluation_time"@ + ": expected canonical UTC RFC 3339 seconds, for example 2026-08-14T12:00:00Z"@;
        let t2 = "$.evaluation_time: temporal fields require schema zerker.reason.program.v2"@;
        assert forall|l: Seq<char>| has_line(after_time, l) implies errors@.len() > 0 && lines.contains(l) by {
            assert(has_line(errors@, l));
            let k = choose|k: int| 0 <= k < errors@.len() && (#[trigger] errors@[k])@ == l;
            assert(lines[k] == errors@[k]@);
        }
        if is_v2(program) && program.evaluation_time is Some && !is_canonical_timestamp(program.evaluation_time->0@) {
            assert(has_line(after_time, t1));
        }
        if !is_v2(program) && program.evaluation_time is Some {
            assert(has_line(after_time, t2));
        }
        if is_v2(program) && program_shape_ok(program) && !active_atoms_distinct(program) {
            assert(before_active.len() == 0);
            assert(active_duplicate_line(errors@[0]@));
            assert(lines[0] == errors@[0]@);
        }
        assert forall|i: int|
            0 <= i < program.facts@.len() && !program.authority.classes.has(#[trigger] program.facts@[i].authority@) implies errors@.len() > 0
                && lines.contains(undeclared_authority_line(i, program.facts@[i].authority@)) by {
            assert(has_line(after_facts, undeclared_authority_line(i, program.facts@[i].authority@)));
            assert(has_line(errors@, undeclared_authority_line(i, program.facts@[i].authority@)));
            let k = choose|k: int| 0 <= k < errors@.len() && (#[trigger] errors@[k])@ == undeclared_authority_line(i, program.facts@[i].authority@);
            assert(lines[k] == errors@[k]@);
        }
        assert forall|i: int|
            0 <= i < program.facts@.len() && !is_v2(program) && has_temporal_fields(#[trigger] program.facts@[i]) implies errors@.len() > 0
                && lines.contains(temporal_fields_line(i)) by {
            assert(has_line(after_facts, temporal_fields_line(i)));
            assert(has_line(errors@, temporal_fields_line(i)));
            let k = choose|k: int| 0 <= k < errors@.len() && (#[trigger] errors@[k])@ == temporal_fields_line(i);
            assert(lines[k] == errors@[k]@);
        }
        assert forall|i: int, j: int|
            0 <= i < j < program.facts@.len() && !is_v2(program) && atom_key(#[trigger] program.facts@[i].atom@) == atom_key(
                #[trigger] program.facts@[j].atom@,
            ) implies errors@.len() > 0 && exists|k: int| 0 <= k < lines.len() && duplicate_atom_line(j, lines[k]) by {
            assert(fk[i] == atom_key(program.facts@[i].atom@));
            assert(fk[j] == atom_key(program.facts@[j].atom@));
            assert(fk.take(j)[i] == fk[i]);
            assert(repeats_earlier_atom(fk, j));
            assert(has_duplicate_line(after_facts, j));
            assert(has_duplicate_line(errors@, j));
            let k = choose|k: int| 0 <= k < errors@.len() && duplicate_atom_line(j, (#[trigger] errors@[k])@);
            assert(lines[k] == errors@[k]@);
        }
    }
    if errors.len() == 0 {
        Ok(())
    } else {
        Err(ReasonError::InvalidProgram(join_newline(&errors)))
    }
}

} // verus!
