use vstd::prelude::*;

use crate::collections::strictly_sorted;
use crate::json::{array_of, json_views, lemma_json_views_push, string_array, string_value, strings_json, JsonV, JsonValue, ObjectBuilder};
use crate::model::{atom_key, clone_opt_string, clone_strings, opt_view, AtomV, Atom, Fact, Program};
use crate::program::is_v2;
use crate::temporal::FactTemporal;
use crate::text::{push_str, string_from_chars, strings_view};

verus! {

/// Whether a proof node states a supplied fact or a rule application.
#[derive(Clone, Copy, Debug, PartialEq, Eq, Structural)]
pub enum ProofNodeKind {
    Fact,
    Derivation,
}

/// One step of a proof: an atom and what supports it.
pub struct ProofNode {
    pub id: String,
    pub kind: ProofNodeKind,
    pub atom: Atom,
    pub source_id: Option<String>,
    pub authority: Option<String>,
    pub temporal: Option<FactTemporal>,
    pub premises: Vec<String>,
}

/// A derivation of one atom: the root node, every node it uses in ascending
/// id order, and a digest over both.
pub struct Proof {
    pub root: String,
    pub nodes: Vec<ProofNode>,
    pub digest: String,
}

/// The id of the node that proves an atom: `node_` and the hexadecimal
/// SHA-256 of the atom's canonical key.
pub open spec fn node_id_spec(a: AtomV) -> Seq<char> {
    "node_"@ + crate::digest::hex_sha256_of(atom_key(a))
}

pub fn node_id(atom: &Atom) -> (id: String)
    ensures
        id@ == node_id_spec(atom@),
{
    let key = atom.key();
    let key_chars = crate::text::chars_of(key.as_str());
    let mut out: Vec<char> = Vec::new();
    push_str(&mut out, "node_");
    crate::digest::push_hex_sha256(&mut out, key_chars.as_slice());
    string_from_chars(out.as_slice())
}

/// The lifecycle that a program v2 fact carries into its proof node.
pub open spec fn temporal_of(p: &Program, f: Fact) -> Option<(Seq<char>, Option<Seq<char>>, Option<Seq<char>>, Seq<Seq<char>>)> {
    if is_v2(p) {
        Some((crate::temporal::observed(f), opt_view(f.valid_from), opt_view(f.valid_until), strings_view(f.supersedes@)))
    } else {
        None
    }
}

/// The contents of an optional lifecycle record.
pub open spec fn temporal_view(t: Option<FactTemporal>) -> Option<(Seq<char>, Option<Seq<char>>, Option<Seq<char>>, Seq<Seq<char>>)> {
    match t {
        Some(x) => Some((x.observed_at@, opt_view(x.valid_from), opt_view(x.valid_until), strings_view(x.supersedes@))),
        None => None,
    }
}

/// The lifecycle record of a fact, present in program v2.
pub fn fact_temporal(program: &Program, fact: &Fact) -> (t: Option<FactTemporal>)
    ensures
        temporal_view(t) == temporal_of(program, *fact),
{
    if crate::text::str_eq(program.schema.as_str(), crate::model::PROGRAM_SCHEMA_V2) {
        let observed_at = match &fact.observed_at {
            Some(o) => o.clone(),
            None => String::new(),
        };
        assert(observed_at@ == crate::temporal::observed(*fact)) by {
            if fact.observed_at is None {
                assert(observed_at@ =~= Seq::<char>::empty());
            }
        }
        Some(FactTemporal {
            observed_at,
            valid_from: clone_opt_string(&fact.valid_from),
            valid_until: clone_opt_string(&fact.valid_until),
            supersedes: clone_strings(&fact.supersedes),
        })
    } else {
        None
    }
}

/// A copy of a lifecycle record.
pub fn clone_temporal(t: &Option<FactTemporal>) -> (r: Option<FactTemporal>)
    ensures
        temporal_view(r) == temporal_view(*t),
{
    match t {
        Some(x) => Some(FactTemporal {
            observed_at: x.observed_at.clone(),
            valid_from: clone_opt_string(&x.valid_from),
            valid_until: clone_opt_string(&x.valid_until),
            supersedes: clone_strings(&x.supersedes),
        }),
        None => None,
    }
}

/// An atom as a serde_json `Value`: members in ascending name order.
pub open spec fn atom_value(a: AtomV) -> JsonV {
    if a.negated {
        JsonV::Object(
            seq!["arguments"@, "negated"@, "predicate"@],
            seq![JsonV::Array(a.arguments), JsonV::Bool(true), JsonV::Str(a.predicate)],
        )
    } else {
        JsonV::Object(seq!["arguments"@, "predicate"@], seq![JsonV::Array(a.arguments), JsonV::Str(a.predicate)])
    }
}

pub open spec fn opt_members(name: Seq<char>, v: Option<JsonV>) -> (Seq<Seq<char>>, Seq<JsonV>) {
    match v {
        Some(x) => (seq![name], seq![x]),
        None => (Seq::empty(), Seq::empty()),
    }
}

/// A lifecycle record as a serde_json `Value`: members in ascending name
/// order, absent fields and an empty `supersedes` left out.
pub open spec fn temporal_value(t: FactTemporal) -> JsonV {
    let sup: Option<JsonV> = if t.supersedes@.len() > 0 {
        Some(JsonV::Array(strings_json(strings_view(t.supersedes@))))
    } else {
        None
    };
    let s = opt_members("supersedes"@, sup);
    let f = opt_members("valid_from"@, match t.valid_from { Some(v) => Some(JsonV::Str(v@)), None => None });
    let u = opt_members("valid_until"@, match t.valid_until { Some(v) => Some(JsonV::Str(v@)), None => None });
    JsonV::Object(seq!["observed_at"@] + s.0 + f.0 + u.0, seq![JsonV::Str(t.observed_at@)] + s.1 + f.1 + u.1)
}

pub open spec fn kind_name(k: ProofNodeKind) -> Seq<char> {
    match k {
        ProofNodeKind::Fact => "fact"@,
        ProofNodeKind::Derivation => "derivation"@,
    }
}

/// A proof node as a serde_json `Value`: members in ascending name order,
/// absent optional members left out.
pub open spec fn node_value(n: ProofNode) -> JsonV {
    let au = opt_members("authority"@, match n.authority { Some(v) => Some(JsonV::Str(v@)), None => None });
    let src = opt_members("source_id"@, match n.source_id { Some(v) => Some(JsonV::Str(v@)), None => None });
    let tm = opt_members("temporal"@, match n.temporal { Some(t) => Some(temporal_value(t)), None => None });
    JsonV::Object(
        seq!["atom"@] + au.0 + seq!["id"@, "kind"@, "premises"@] + src.0 + tm.0,
        seq![atom_value(n.atom@)] + au.1 + seq![
            JsonV::Str(n.id@),
            JsonV::Str(kind_name(n.kind)),
            JsonV::Array(strings_json(strings_view(n.premises@))),
        ] + src.1 + tm.1,
    )
}

pub open spec fn nodes_value(nodes: Seq<ProofNode>) -> Seq<JsonV> {
    nodes.map_values(|n: ProofNode| node_value(n))
}

/// The digest of a proof: of the object `{"nodes": .., "root": ..}`.
pub open spec fn proof_digest_spec(root: Seq<char>, nodes: Seq<ProofNode>) -> Seq<char> {
    crate::model::json_digest(JsonV::Object(seq!["nodes"@, "root"@], seq![JsonV::Array(nodes_value(nodes)), JsonV::Str(root)]))
}

pub fn add_opt_value(b: &mut ObjectBuilder, name: &str, v: Option<JsonValue>)
    ensures
        final(b).key_views() == old(b).key_views() + opt_members(name@, match v { Some(x) => Some(x@), None => None }).0,
        final(b).value_views() == old(b).value_views() + opt_members(name@, match v { Some(x) => Some(x@), None => None }).1,
{
    match v {
        Some(x) => {
            b.add(name, x);
        },
        None => {},
    }
    assert(b.key_views() =~= old(b).key_views() + opt_members(name@, match v { Some(x) => Some(x@), None => None }).0);
    assert(b.value_views() =~= old(b).value_views() + opt_members(name@, match v { Some(x) => Some(x@), None => None }).1);
}

pub fn opt_string_value(v: &Option<String>) -> (r: Option<JsonValue>)
    ensures
        match r { Some(x) => Some(x@), None => None } == match *v { Some(s) => Some(JsonV::Str(s@)), None => None::<JsonV> },
{
    match v {
        Some(s) => Some(string_value(s.as_str())),
        None => None,
    }
}

pub fn atom_to_value(a: &Atom) -> (j: JsonValue)
    ensures
        j@ == atom_value(a@),
{
    let mut b = ObjectBuilder::new();
    b.add("arguments", array_of(crate::json::json_vec_clone(&a.arguments)));
    if a.negated {
        b.add("negated", JsonValue::Bool(true));
    }
    b.add("predicate", string_value(a.predicate.as_str()));
    let j = b.finish();
    proof {
        if a.negated {
            assert(b.key_views() =~= seq!["arguments"@, "negated"@, "predicate"@]);
            assert(b.value_views() =~= seq![JsonV::Array(a@.arguments), JsonV::Bool(true), JsonV::Str(a.predicate@)]);
        } else {
            assert(b.key_views() =~= seq!["arguments"@, "predicate"@]);
            assert(b.value_views() =~= seq![JsonV::Array(a@.arguments), JsonV::Str(a.predicate@)]);
        }
    }
    j
}

pub fn temporal_to_value(t: &FactTemporal) -> (j: JsonValue)
    ensures
        j@ == temporal_value(*t),
{
    let mut b = ObjectBuilder::new();
    b.add("observed_at", string_value(t.observed_at.as_str()));
    let ghost k0 = b.key_views();
    let ghost v0 = b.value_views();
    let sup = if t.supersedes.len() > 0 {
        Some(string_array(t.supersedes.as_slice()))
    } else {
        None
    };
    add_opt_value(&mut b, "supersedes", sup);
    add_opt_value(&mut b, "valid_from", opt_string_value(&t.valid_from));
    add_opt_value(&mut b, "valid_until", opt_string_value(&t.valid_until));
    let j = b.finish();
    proof {
        assert(k0 =~= seq!["observed_at"@]);
        assert(v0 =~= seq![JsonV::Str(t.observed_at@)]);
    }
    j
}

pub fn node_to_value(n: &ProofNode) -> (j: JsonValue)
    ensures
        j@ == node_value(*n),
{
    let mut b = ObjectBuilder::new();
    b.add("atom", atom_to_value(&n.atom));
    let ghost k0 = b.key_views();
    let ghost v0 = b.value_views();
    add_opt_value(&mut b, "authority", opt_string_value(&n.authority));
    let ghost k1 = b.key_views();
    let ghost v1 = b.value_views();
    b.add("id", string_value(n.id.as_str()));
    let kind = match n.kind {
        ProofNodeKind::Fact => "fact",
        ProofNodeKind::Derivation => "derivation",
    };
    b.add("kind", string_value(kind));
    b.add("premises", string_array(n.premises.as_slice()));
    let ghost k2 = b.key_views();
    let ghost v2 = b.value_views();
    add_opt_value(&mut b, "source_id", opt_string_value(&n.source_id));
    let tv = match &n.temporal {
        Some(t) => Some(temporal_to_value(t)),
        None => None,
    };
    add_opt_value(&mut b, "temporal", tv);
    let j = b.finish();
    proof {
        assert(k0 =~= seq!["atom"@]);
        assert(v0 =~= seq![atom_value(n.atom@)]);
        assert(k2 =~= k1 + seq!["id"@, "kind"@, "premises"@]);
        assert(v2 =~= v1 + seq![
            JsonV::Str(n.id@),
            JsonV::Str(kind_name(n.kind)),
            JsonV::Array(strings_json(strings_view(n.premises@))),
        ]);
    }
    j
}

/// The digest of a proof with the given root and nodes.
pub fn proof_digest(root: &str, nodes: &Vec<ProofNode>) -> (d: String)
    ensures
        d@ == proof_digest_spec(root@, nodes@),
{
    let mut values: Vec<JsonValue> = Vec::new();
    let mut i: usize = 0;
    while i < nodes.len()
        invariant
            i <= nodes@.len(),
            json_views(values@) == nodes_value(nodes@.take(i as int)),
        decreases nodes.len() - i,
    {
        let ghost before = values@;
        let v = node_to_value(&nodes[i]);
        values.push(v);
        proof {
            lemma_json_views_push(before, v);
            assert(nodes_value(nodes@.take(i + 1)) =~= nodes_value(nodes@.take(i as int)).push(node_value(nodes@[i as int])));
        }
        i += 1;
    }
    proof {
        assert(nodes@.take(nodes@.len() as int) =~= nodes@);
    }
    let mut b = ObjectBuilder::new();
    b.add("nodes", array_of(values));
    b.add("root", string_value(root));
    let j = b.finish();
    proof {
        assert(b.key_views() =~= seq!["nodes"@, "root"@]);
        assert(b.value_views() =~= seq![JsonV::Array(nodes_value(nodes@)), JsonV::Str(root@)]);
    }
    crate::model::digest_json(&j)
}

} // verus!
