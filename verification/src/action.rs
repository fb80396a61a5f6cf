use vstd::prelude::*;

use crate::collections::StrMap;
use crate::engine::{bindings_view, Bindings};
use crate::json::{encode, json_views, lemma_json_views_push, string_value, strings_json, JsonV, JsonValue, ObjectBuilder};
use crate::model::{opt_view, program_json, AtomV, Atom, Program};
use crate::text::{blank, chars_of, is_blank, push_str, starts_with, str_eq, strings_view};

verus! {

pub const ACTION_REQUEST_SCHEMA: &'static str = "zerker.reason.action.v1";
pub const AUTHORIZATION_RESULT_SCHEMA: &'static str = "zerker.reason.authorization.v1";
pub const AUTHORIZATION_BUNDLE_SCHEMA: &'static str = "zerker.reason.authorization-bundle.v1";
pub const AUTHORIZATION_VERIFICATION_SCHEMA: &'static str = "zerker.reason.authorization-verification.v1";
pub const SYSTEM_AUTHORITY: &'static str = "system-bound";
pub const SYSTEM_FACT_PREFIX: &'static str = "zerker.action.binding.";
pub const AUTHORIZATION_PREDICATE: &'static str = "action_authorized";

/// A mission: who asked for what, under which instruction, with constraints.
pub struct Mission {
    pub id: String,
    pub principal: String,
    pub instruction_digest: String,
    pub issued_at: String,
    pub valid_until: Option<String>,
    pub constraints: StrMap<JsonValue>,
}

/// A declared effect of an action.
pub struct ActionEffect {
    pub kind: String,
    pub resource: String,
    pub value: Option<JsonValue>,
}

/// An exact tool call proposed for authorization.
pub struct ProposedAction {
    pub id: String,
    pub tool: String,
    pub proposed_at: String,
    pub arguments: StrMap<JsonValue>,
    pub effects: Vec<ActionEffect>,
}

/// A request to authorize an action under a mission and a policy.
pub struct ActionRequest {
    pub schema: String,
    pub mission: Mission,
    pub action: ProposedAction,
    pub policy: Program,
}

/// An object bound into an authorization by id and digest.
pub struct BoundObject {
    pub id: String,
    pub digest: String,
}

/// The exact action an authorization is about.
pub struct BoundAction {
    pub id: String,
    pub digest: String,
    pub tool: String,
    pub arguments: StrMap<JsonValue>,
    pub effects: Vec<ActionEffect>,
}

/// The decision of an authorization.
#[derive(Clone, Copy, Debug, PartialEq, Eq, Structural)]
pub enum AuthorizationStatus {
    Authorized,
    Denied,
    Conflicted,
    InsufficientEvidence,
}

/// Something that keeps an action from being authorized, or that the
/// authority or time policy withheld.
pub struct AuthorizationIssue {
    pub code: String,
    pub message: String,
    pub atom: Option<Atom>,
    pub fact_ids: Vec<String>,
}

/// An authorization: the decision, what it binds, and the reasoning behind it.
pub struct AuthorizationResult {
    pub schema: String,
    pub status: AuthorizationStatus,
    pub request_digest: String,
    pub mission: BoundObject,
    pub action: BoundAction,
    pub reasoning: crate::reasoning::CheckResult,
    pub issues: Vec<AuthorizationIssue>,
}

/// The outcome of independently verifying an authorization.
pub struct AuthorizationVerification {
    pub schema: String,
    pub status: &'static str,
    pub authorization_status: AuthorizationStatus,
    pub request_digest: String,
    pub reasoning_result_digest: String,
}

/// The `i`-th reserved predicate and its arity.
pub open spec fn reserved_entry(i: int) -> (Seq<char>, nat) {
    if i == 0 {
        ("action_authorized"@, 1nat)
    } else if i == 1 {
        ("mission_active"@, 1nat)
    } else if i == 2 {
        ("mission_action"@, 2nat)
    } else if i == 3 {
        ("mission_principal"@, 2nat)
    } else if i == 4 {
        ("mission_instruction"@, 2nat)
    } else if i == 5 {
        ("mission_constraint"@, 3nat)
    } else if i == 6 {
        ("action_tool"@, 2nat)
    } else if i == 7 {
        ("action_argument"@, 3nat)
    } else {
        ("action_effect"@, 4nat)
    }
}

pub fn reserved_predicate(i: usize) -> (r: (&'static str, usize))
    requires
        i < 9,
    ensures
        r.0@ == reserved_entry(i as int).0,
        r.1 == reserved_entry(i as int).1,
{
    if i == 0 {
        ("action_authorized", 1)
    } else if i == 1 {
        ("mission_active", 1)
    } else if i == 2 {
        ("mission_action", 2)
    } else if i == 3 {
        ("mission_principal", 2)
    } else if i == 4 {
        ("mission_instruction", 2)
    } else if i == 5 {
        ("mission_constraint", 3)
    } else if i == 6 {
        ("action_tool", 2)
    } else if i == 7 {
        ("action_argument", 3)
    } else {
        ("action_effect", 4)
    }
}

/// One of the nine predicates that only request bindings may supply.
pub open spec fn is_reserved(name: Seq<char>) -> bool {
    exists|i: int| 0 <= i < 9 && #[trigger] reserved_entry(i).0 == name
}

/// The query every action policy must ask: `action_authorized(action id)`.
pub open spec fn authorization_query_spec(action_id: Seq<char>) -> AtomV {
    AtomV { predicate: "action_authorized"@, arguments: seq![JsonV::Str(action_id)], negated: false }
}

pub fn authorization_query(action_id: &str) -> (a: Atom)
    ensures
        a@ == authorization_query_spec(action_id@),
{
    let mut args: Vec<JsonValue> = Vec::new();
    let s = string_value(action_id);
    args.push(s);
    proof {
        lemma_json_views_push(Seq::empty(), s);
        assert(Seq::<JsonValue>::empty().push(s) =~= args@);
        assert(json_views(Seq::<JsonValue>::empty()) =~= Seq::<JsonV>::empty());
    }
    let a = Atom { predicate: String::from_str(AUTHORIZATION_PREDICATE), arguments: args, negated: false };
    assert(a@.arguments =~= seq![JsonV::Str(action_id@)]);
    a
}

pub open spec fn is_lower_hex(c: char) -> bool {
    ('0' <= c && c <= '9') || ('a' <= c && c <= 'f')
}

/// `sha256:` followed by 64 lowercase hexadecimal digits.
pub open spec fn valid_digest_spec(s: Seq<char>) -> bool {
    &&& s.len() == 71
    &&& s.take(7) == "sha256:"@
    &&& forall|i: int| 7 <= i < 71 ==> is_lower_hex(#[trigger] s[i])
}

/// Whether `value` is `sha256:` followed by 64 lowercase hexadecimal digits.
pub fn valid_digest(value: &str) -> (b: bool)
    ensures
        b == valid_digest_spec(value@),
{
    proof { reveal_strlit("sha256:"); }
    if !starts_with(value, "sha256:") {
        return false;
    }
    let cs = chars_of(value);
    if cs.len() != 71 {
        return false;
    }
    let mut i: usize = 7;
    while i < 71
        invariant
            cs@ == value@,
            cs@.len() == 71,
            7 <= i <= 71,
            forall|j: int| 7 <= j < i ==> is_lower_hex(#[trigger] value@[j]),
        decreases 71 - i,
    {
        let c = cs[i];
        if !(('0' <= c && c <= '9') || ('a' <= c && c <= 'f')) {
            return false;
        }
        i += 1;
    }
    true
}

/// The text a request binding carries for a value: a string as itself,
/// other scalars tagged with their kind, arrays and objects as `json:` and
/// their compact serde_json text.
pub open spec fn canonical_value_spec(v: JsonV) -> Seq<char> {
    match v {
        JsonV::Str(s) => s,
        JsonV::Number(n) => "number:"@ + n,
        JsonV::Bool(b) => if b { "boolean:true"@ } else { "boolean:false"@ },
        JsonV::Null => "null:"@,
        _ => "json:"@ + encode(v),
    }
}

pub fn canonical_value(v: &JsonValue) -> (s: String)
    ensures
        s@ == canonical_value_spec(v@),
{
    match v {
        JsonValue::String(s) => s.clone(),
        JsonValue::Number(n) => {
            let mut out = chars_of("number:");
            push_str(&mut out, n.as_str());
            crate::text::string_from_chars(out.as_slice())
        },
        JsonValue::Bool(b) => {
            if *b {
                String::from_str("boolean:true")
            } else {
                String::from_str("boolean:false")
            }
        },
        JsonValue::Null => String::from_str("null:"),
        _ => {
            let mut out = chars_of("json:");
            let text = crate::json::encode_value(v);
            let mut i: usize = 0;
            let ghost start = out@;
            while i < text.len()
                invariant
                    i <= text@.len(),
                    out@ == start + text@.take(i as int),
                decreases text.len() - i,
            {
                out.push(text[i]);
                proof {
                    assert(text@.take(i + 1) =~= text@.take(i as int).push(text@[i as int]));
                }
                i += 1;
            }
            assert(text@.take(text@.len() as int) =~= text@);
            crate::text::string_from_chars(out.as_slice())
        },
    }
}

/// The hexadecimal digest that names a binding: of the JSON array `[key, value]`.
pub open spec fn binding_hex(key: Seq<char>, value: JsonV) -> Seq<char> {
    crate::digest::hex_sha256_of(encode(JsonV::Array(seq![JsonV::Str(key), value])))
}

pub fn binding_digest(key: &String, value: &JsonValue) -> (s: Vec<char>)
    ensures
        s@ == binding_hex(key@, value@),
{
    let mut items: Vec<JsonValue> = Vec::new();
    items.push(string_value(key.as_str()));
    items.push(crate::json::json_clone(value));
    proof {
        crate::json::lemma_json_views(items@);
        assert(json_views(items@) =~= seq![JsonV::Str(key@), value@]);
    }
    let pair = JsonValue::Array(items);
    let text = crate::json::encode_value(&pair);
    let mut out: Vec<char> = Vec::new();
    crate::digest::push_hex_sha256(&mut out, text.as_slice());
    assert(out@ =~= binding_hex(key@, value@));
    out
}

/// The bindings of a map as JSON, in key order.
pub open spec fn map_json(m: &Bindings) -> JsonV {
    JsonV::Object(m.keys(), m.entries().map_values(|e: (String, JsonValue)| e.1@))
}

pub fn map_to_json(m: &Bindings) -> (j: JsonValue)
    ensures
        j@ == map_json(m),
{
    let mut keys: Vec<String> = Vec::new();
    let mut values: Vec<JsonValue> = Vec::new();
    let mut i: usize = 0;
    while i < m.len()
        invariant
            i <= m.entries().len(),
            strings_view(keys@) == m.keys().take(i as int),
            json_views(values@) == m.entries().take(i as int).map_values(|e: (String, JsonValue)| e.1@),
        decreases m.entries().len() - i,
    {
        let ghost kb = keys@;
        let ghost vb = values@;
        keys.push(m.key_at(i).clone());
        let v = crate::json::json_clone(m.value_at(i));
        values.push(v);
        proof {
            crate::json::lemma_strings_view_push(kb, m.entries()[i as int].0);
            lemma_json_views_push(vb, v);
            assert(m.keys().take(i + 1) =~= m.keys().take(i as int).push(m.entries()[i as int].0@));
            assert(m.entries().take(i + 1).map_values(|e: (String, JsonValue)| e.1@) =~= m.entries().take(i as int).map_values(
                |e: (String, JsonValue)| e.1@,
            ).push(m.entries()[i as int].1@));
        }
        i += 1;
    }
    proof {
        assert(m.keys().take(m.keys().len() as int) =~= m.keys());
        assert(m.entries().take(m.entries().len() as int) =~= m.entries());
    }
    JsonValue::Object(keys, values)
}

/// An effect as serde_json writes it.
pub open spec fn effect_json(e: ActionEffect) -> JsonV {
    let v = crate::certificate::opt_members("value"@, match e.value { Some(x) => Some(x@), None => None });
    JsonV::Object(seq!["kind"@, "resource"@] + v.0, seq![JsonV::Str(e.kind@), JsonV::Str(e.resource@)] + v.1)
}

pub open spec fn effects_json(s: Seq<ActionEffect>) -> Seq<JsonV> {
    s.map_values(|e: ActionEffect| effect_json(e))
}

fn effect_to_json(e: &ActionEffect) -> (j: JsonValue)
    ensures
        j@ == effect_json(*e),
{
    let mut b = ObjectBuilder::new();
    b.add("kind", string_value(e.kind.as_str()));
    b.add("resource", string_value(e.resource.as_str()));
    let ghost k0 = b.key_views();
    let ghost v0 = b.value_views();
    let v = match &e.value {
        Some(x) => Some(crate::json::json_clone(x)),
        None => None,
    };
    crate::certificate::add_opt_value(&mut b, "value", v);
    let j = b.finish();
    proof {
        assert(k0 =~= seq!["kind"@, "resource"@]);
        assert(v0 =~= seq![JsonV::Str(e.kind@), JsonV::Str(e.resource@)]);
    }
    j
}

pub fn effects_to_json(effects: &Vec<ActionEffect>) -> (j: JsonValue)
    ensures
        j@ == JsonV::Array(effects_json(effects@)),
{
    let mut items: Vec<JsonValue> = Vec::new();
    let mut i: usize = 0;
    while i < effects.len()
        invariant
            i <= effects@.len(),
            json_views(items@) == effects_json(effects@.take(i as int)),
        decreases effects.len() - i,
    {
        let ghost before = items@;
        let v = effect_to_json(&effects[i]);
        items.push(v);
        proof {
            lemma_json_views_push(before, v);
            assert(effects_json(effects@.take(i + 1)) =~= effects_json(effects@.take(i as int)).push(effect_json(effects@[i as int])));
        }
        i += 1;
    }
    proof {
        assert(effects@.take(effects@.len() as int) =~= effects@);
    }
    JsonValue::Array(items)
}

/// A mission as serde_json writes it.
pub open spec fn mission_json(m: &Mission) -> JsonV {
    let u = crate::model::opt_member("valid_until"@, m.valid_until);
    JsonV::Object(
        seq!["id"@, "principal"@, "instruction_digest"@, "issued_at"@] + u.0 + seq!["constraints"@],
        seq![JsonV::Str(m.id@), JsonV::Str(m.principal@), JsonV::Str(m.instruction_digest@), JsonV::Str(m.issued_at@)] + u.1
            + seq![map_json(&m.constraints)],
    )
}

pub fn mission_to_json(m: &Mission) -> (j: JsonValue)
    ensures
        j@ == mission_json(m),
{
    let mut b = ObjectBuilder::new();
    b.add("id", string_value(m.id.as_str()));
    b.add("principal", string_value(m.principal.as_str()));
    b.add("instruction_digest", string_value(m.instruction_digest.as_str()));
    b.add("issued_at", string_value(m.issued_at.as_str()));
    let ghost k0 = b.key_views();
    let ghost v0 = b.value_views();
    crate::model::add_opt(&mut b, "valid_until", &m.valid_until);
    let ghost k1 = b.key_views();
    let ghost v1 = b.value_views();
    b.add("constraints", map_to_json(&m.constraints));
    let j = b.finish();
    proof {
        assert(k0 =~= seq!["id"@, "principal"@, "instruction_digest"@, "issued_at"@]);
        assert(v0 =~= seq![JsonV::Str(m.id@), JsonV::Str(m.principal@), JsonV::Str(m.instruction_digest@), JsonV::Str(m.issued_at@)]);
        let u = crate::model::opt_member("valid_until"@, m.valid_until);
        assert(b.key_views() =~= k0 + u.0 + seq!["constraints"@]);
        assert(b.value_views() =~= v0 + u.1 + seq![map_json(&m.constraints)]);
    }
    j
}

/// A proposed action as serde_json writes it.
pub open spec fn action_json(a: &ProposedAction) -> JsonV {
    JsonV::Object(
        seq!["id"@, "tool"@, "proposed_at"@, "arguments"@, "effects"@],
        seq![
            JsonV::Str(a.id@),
            JsonV::Str(a.tool@),
            JsonV::Str(a.proposed_at@),
            map_json(&a.arguments),
            JsonV::Array(effects_json(a.effects@)),
        ],
    )
}

pub fn action_to_json(a: &ProposedAction) -> (j: JsonValue)
    ensures
        j@ == action_json(a),
{
    let mut b = ObjectBuilder::new();
    b.add("id", string_value(a.id.as_str()));
    b.add("tool", string_value(a.tool.as_str()));
    b.add("proposed_at", string_value(a.proposed_at.as_str()));
    b.add("arguments", map_to_json(&a.arguments));
    b.add("effects", effects_to_json(&a.effects));
    let j = b.finish();
    proof {
        assert(b.key_views() =~= seq!["id"@, "tool"@, "proposed_at"@, "arguments"@, "effects"@]);
        assert(b.value_views() =~= seq![
            JsonV::Str(a.id@),
            JsonV::Str(a.tool@),
            JsonV::Str(a.proposed_at@),
            map_json(&a.arguments),
            JsonV::Array(effects_json(a.effects@)),
        ]);
    }
    j
}

/// A request as serde_json writes it.
pub open spec fn request_json(r: &ActionRequest) -> JsonV {
    JsonV::Object(
        seq!["schema"@, "mission"@, "action"@, "policy"@],
        seq![JsonV::Str(r.schema@), mission_json(&r.mission), action_json(&r.action), program_json(&r.policy)],
    )
}

pub fn request_to_json(r: &ActionRequest) -> (j: JsonValue)
    ensures
        j@ == request_json(r),
{
    let mut b = ObjectBuilder::new();
    b.add("schema", string_value(r.schema.as_str()));
    b.add("mission", mission_to_json(&r.mission));
    b.add("action", action_to_json(&r.action));
    b.add("policy", crate::model::program_to_json(&r.policy));
    let j = b.finish();
    proof {
        assert(b.key_views() =~= seq!["schema"@, "mission"@, "action"@, "policy"@]);
        assert(b.value_views() =~= seq![JsonV::Str(r.schema@), mission_json(&r.mission), action_json(&r.action), program_json(&r.policy)]);
    }
    j
}


pub open spec fn has_prefix(s: Seq<char>, prefix: Seq<char>) -> bool {
    prefix.len() <= s.len() && s.take(prefix.len() as int) == prefix
}

/// What an action request must satisfy before its effective program is
/// built: its own fields are present and well formed, the policy is program
/// v2, and the policy neither declares nor supplies what only request
/// bindings may supply.
pub open spec fn request_shape_ok(r: &ActionRequest) -> bool {
    let p = r.policy;
    &&& r.schema@ == ACTION_REQUEST_SCHEMA@
    &&& !is_blank(r.mission.id@)
    &&& !is_blank(r.mission.principal@)
    &&& valid_digest_spec(r.mission.instruction_digest@)
    &&& !is_blank(r.action.id@)
    &&& !is_blank(r.action.tool@)
    &&& forall|k: Seq<char>| #[trigger] r.mission.constraints.has_key(k) ==> !is_blank(k)
    &&& forall|k: Seq<char>| #[trigger] r.action.arguments.has_key(k) ==> !is_blank(k)
    &&& forall|i: int| 0 <= i < r.action.effects@.len() ==> !is_blank((#[trigger] r.action.effects@[i]).kind@) && !is_blank(
        r.action.effects@[i].resource@,
    )
    &&& p.schema@ == crate::model::PROGRAM_SCHEMA_V2@
    &&& !p.authority.classes.has(SYSTEM_AUTHORITY@)
    &&& !p.authority.default_admit.has(SYSTEM_AUTHORITY@)
    &&& forall|k: Seq<char>| #[trigger] p.authority.predicate_admit.has_key(k) ==> !p.authority.predicate_admit.spec_get(
        k,
    )->0.has(SYSTEM_AUTHORITY@)
    &&& forall|i: int| 0 <= i < 9 ==> !p.ontology.predicates.has_key(#[trigger] reserved_entry(i).0)
        && !p.authority.predicate_admit.has_key(reserved_entry(i).0)
    &&& forall|j: int| 0 <= j < p.facts@.len() ==> {
        let f = #[trigger] p.facts@[j];
        &&& !is_reserved(f.atom.predicate@)
        &&& !has_prefix(f.id@, SYSTEM_FACT_PREFIX@)
        &&& f.authority@ != SYSTEM_AUTHORITY@
    }
    &&& forall|j: int| 0 <= j < p.rules@.len() ==> is_reserved((#[trigger] p.rules@[j]).head.predicate@)
        ==> p.rules@[j].head.predicate@ == AUTHORIZATION_PREDICATE@
    &&& p.query@ == authorization_query_spec(r.action.id@)
}

fn message(out: Vec<char>) -> (s: String)
    ensures
        s@ == out@,
{
    crate::text::string_from_chars(out.as_slice())
}

fn required(value: &str, path: &str, errors: &mut Vec<String>)
    ensures
        crate::text::grows(old(errors)@, final(errors)@),
        final(errors)@.len() >= old(errors)@.len(),
        (final(errors)@.len() == old(errors)@.len()) == !is_blank(value@),
{
    let ghost errors_start = errors@;
    if blank(value) {
        let mut out = chars_of(path);
        push_str(&mut out, ": must not be empty");
        errors.push(message(out));
    }
}

fn required_keys(m: &Bindings, path: &str, errors: &mut Vec<String>)
    ensures
        crate::text::grows(old(errors)@, final(errors)@),
        final(errors)@.len() >= old(errors)@.len(),
        (final(errors)@.len() == old(errors)@.len()) == forall|k: Seq<char>| #[trigger] m.has_key(k) ==> !is_blank(k),
{
    let ghost errors_start = errors@;
    let ghost start = errors@.len();
    let mut i: usize = 0;
    while i < m.len()
        invariant
            crate::text::grows(errors_start, errors@),
            i <= m.entries().len(),
            errors@.len() >= start,
            (errors@.len() == start) == forall|j: int| 0 <= j < i ==> !is_blank(#[trigger] m.entries()[j].0@),
        decreases m.entries().len() - i,
    {
        required(m.key_at(i).as_str(), path, errors);
        i += 1;
    }
    proof {
        if errors@.len() == start {
            assert forall|k: Seq<char>| #[trigger] m.has_key(k) implies !is_blank(k) by {
                crate::collections::lemma_spec_get_entry(m, k);
            }
        } else {
            let j = choose|j: int| 0 <= j < m.entries().len() && is_blank(#[trigger] m.entries()[j].0@);
            assert(m.keys()[j] == m.entries()[j].0@);
            assert(m.has_key(m.entries()[j].0@));
        }
    }
}

/// Whether `name` is a reserved predicate.
fn reserved(name: &str) -> (b: bool)
    ensures
        b == is_reserved(name@),
{
    let mut i: usize = 0;
    while i < 9
        invariant
            i <= 9,
            forall|k: int| 0 <= k < i ==> reserved_entry(k).0 != name@,
        decreases 9 - i,
    {
        let (p, _) = reserved_predicate(i);
        if str_eq(p, name) {
            return true;
        }
        i += 1;
    }
    false
}

fn check_policy_facts(request: &ActionRequest, errors: &mut Vec<String>)
    ensures
        crate::text::grows(old(errors)@, final(errors)@),
        final(errors)@.len() >= old(errors)@.len(),
        (final(errors)@.len() == old(errors)@.len()) == forall|j: int| 0 <= j < request.policy.facts@.len() ==> {
            let f = #[trigger] request.policy.facts@[j];
            &&& !is_reserved(f.atom.predicate@)
            &&& !has_prefix(f.id@, SYSTEM_FACT_PREFIX@)
            &&& f.authority@ != SYSTEM_AUTHORITY@
        },
{
    let ghost errors_start = errors@;
    let facts = &request.policy.facts;
    let ghost start = errors@.len();
    let mut j: usize = 0;
    while j < facts.len()
        invariant
            crate::text::grows(errors_start, errors@),
            facts == &request.policy.facts,
            j <= facts@.len(),
            errors@.len() >= start,
            (errors@.len() == start) == forall|k: int| 0 <= k < j ==> {
                let f = #[trigger] facts@[k];
                &&& !is_reserved(f.atom.predicate@)
                &&& !has_prefix(f.id@, SYSTEM_FACT_PREFIX@)
                &&& f.authority@ != SYSTEM_AUTHORITY@
            },
        decreases facts.len() - j,
    {
        let fact = &facts[j];
        let path = crate::validate::indexed_path(chars_of("$.policy.facts").as_slice(), j);
        let ghost before = errors@.len();
        if reserved(fact.atom.predicate.as_str()) {
            let mut out = crate::validate::extend_path(path.as_slice(), ".predicate: ");
            crate::text::push_debug(&mut out, fact.atom.predicate.as_str());
            push_str(&mut out, " is reserved for request bindings");
            errors.push(message(out));
        }
        if starts_with(fact.id.as_str(), SYSTEM_FACT_PREFIX) {
            let mut out = crate::validate::extend_path(path.as_slice(), ".id: prefix ");
            crate::text::push_debug(&mut out, SYSTEM_FACT_PREFIX);
            push_str(&mut out, " is reserved");
            errors.push(message(out));
        }
        if str_eq(fact.authority.as_str(), SYSTEM_AUTHORITY) {
            let mut out = crate::validate::extend_path(path.as_slice(), ".authority: ");
            crate::text::push_debug(&mut out, SYSTEM_AUTHORITY);
            push_str(&mut out, " is reserved");
            errors.push(message(out));
        }
        j += 1;
    }
}

fn check_policy_rules(request: &ActionRequest, errors: &mut Vec<String>)
    ensures
        crate::text::grows(old(errors)@, final(errors)@),
        final(errors)@.len() >= old(errors)@.len(),
        (final(errors)@.len() == old(errors)@.len()) == forall|j: int| 0 <= j < request.policy.rules@.len() ==> is_reserved(
            (#[trigger] request.policy.rules@[j]).head.predicate@,
        ) ==> request.policy.rules@[j].head.predicate@ == AUTHORIZATION_PREDICATE@,
{
    let ghost errors_start = errors@;
    let rules = &request.policy.rules;
    let ghost start = errors@.len();
    let mut j: usize = 0;
    while j < rules.len()
        invariant
            crate::text::grows(errors_start, errors@),
            rules == &request.policy.rules,
            j <= rules@.len(),
            errors@.len() >= start,
            (errors@.len() == start) == forall|k: int| 0 <= k < j ==> is_reserved((#[trigger] rules@[k]).head.predicate@)
                ==> rules@[k].head.predicate@ == AUTHORIZATION_PREDICATE@,
        decreases rules.len() - j,
    {
        let rule = &rules[j];
        if reserved(rule.head.predicate.as_str()) && !str_eq(rule.head.predicate.as_str(), AUTHORIZATION_PREDICATE) {
            let path = crate::validate::indexed_path(chars_of("$.policy.rules").as_slice(), j);
            let mut out = crate::validate::extend_path(path.as_slice(), ".then.predicate: ");
            crate::text::push_debug(&mut out, rule.head.predicate.as_str());
            push_str(&mut out, " can only be supplied by request bindings");
            errors.push(message(out));
        }
        j += 1;
    }
}

fn check_reserved_declarations(request: &ActionRequest, errors: &mut Vec<String>)
    ensures
        crate::text::grows(old(errors)@, final(errors)@),
        final(errors)@.len() >= old(errors)@.len(),
        (final(errors)@.len() == old(errors)@.len()) == forall|i: int| 0 <= i < 9 ==> !request.policy.ontology.predicates.has_key(
            #[trigger] reserved_entry(i).0,
        ) && !request.policy.authority.predicate_admit.has_key(reserved_entry(i).0),
{
    let ghost errors_start = errors@;
    let ghost start = errors@.len();
    let mut i: usize = 0;
    while i < 9
        invariant
            crate::text::grows(errors_start, errors@),
            i <= 9,
            errors@.len() >= start,
            (errors@.len() == start) == forall|k: int| 0 <= k < i ==> !request.policy.ontology.predicates.has_key(
                #[trigger] reserved_entry(k).0,
            ) && !request.policy.authority.predicate_admit.has_key(reserved_entry(k).0),
        decreases 9 - i,
    {
        let (name, _) = reserved_predicate(i);
        if request.policy.ontology.predicates.contains_key(name) {
            let mut out = chars_of("$.policy.ontology.predicates.");
            push_str(&mut out, name);
            push_str(&mut out, ": reserved for action authorization");
            errors.push(message(out));
        }
        if request.policy.authority.predicate_admit.contains_key(name) {
            let mut out = chars_of("$.policy.authority.predicate_admit.");
            push_str(&mut out, name);
            push_str(&mut out, ": reserved for action authorization");
            errors.push(message(out));
        }
        i += 1;
    }
}

fn check_effects(request: &ActionRequest, errors: &mut Vec<String>)
    ensures
        crate::text::grows(old(errors)@, final(errors)@),
        final(errors)@.len() >= old(errors)@.len(),
        (final(errors)@.len() == old(errors)@.len()) == forall|i: int| 0 <= i < request.action.effects@.len() ==> !is_blank(
            (#[trigger] request.action.effects@[i]).kind@,
        ) && !is_blank(request.action.effects@[i].resource@),
{
    let ghost errors_start = errors@;
    let effects = &request.action.effects;
    let ghost start = errors@.len();
    let mut i: usize = 0;
    while i < effects.len()
        invariant
            crate::text::grows(errors_start, errors@),
            effects == &request.action.effects,
            i <= effects@.len(),
            errors@.len() >= start,
            (errors@.len() == start) == forall|k: int| 0 <= k < i ==> !is_blank((#[trigger] effects@[k]).kind@) && !is_blank(
                effects@[k].resource@,
            ),
        decreases effects.len() - i,
    {
        let path = crate::validate::indexed_path(chars_of("$.action.effects").as_slice(), i);
        let kind_path = message(crate::validate::extend_path(path.as_slice(), ".kind"));
        let resource_path = message(crate::validate::extend_path(path.as_slice(), ".resource"));
        required(effects[i].kind.as_str(), kind_path.as_str(), errors);
        required(effects[i].resource.as_str(), resource_path.as_str(), errors);
        i += 1;
    }
}

/// The line reporting the system authority among the declared classes.
pub open spec fn reserved_classes_line() -> Seq<char> {
    "$.policy.authority.classes: "@ + crate::text::debug_text(SYSTEM_AUTHORITY@) + " is reserved for request bindings"@
}

/// The line reporting the system authority in the admission list of predicate `k`.
pub open spec fn reserved_admit_line(k: Seq<char>) -> Seq<char> {
    "$.policy.authority.predicate_admit."@ + k + ": "@ + crate::text::debug_text(SYSTEM_AUTHORITY@) + " is reserved for request bindings"@
}

/// The line reporting the system authority among the default admissions.
pub open spec fn reserved_default_line() -> Seq<char> {
    "$.policy.authority.default_admit: "@ + crate::text::debug_text(SYSTEM_AUTHORITY@) + " is reserved for request bindings"@
}


/// Reports every way the request's own fields and its policy break the
/// action contract.
fn check_request_shape(request: &ActionRequest, errors: &mut Vec<String>)
    ensures
        crate::text::grows(old(errors)@, final(errors)@),
        request.policy.authority.classes.has(SYSTEM_AUTHORITY@) ==> crate::program::has_line(final(errors)@, reserved_classes_line()),
        request.policy.authority.default_admit.has(SYSTEM_AUTHORITY@) ==> crate::program::has_line(
            final(errors)@,
            reserved_default_line(),
        ),
        forall|k: Seq<char>|
            #[trigger] request.policy.authority.predicate_admit.has_key(k) && request.policy.authority.predicate_admit.spec_get(
                k,
            )->0.has(SYSTEM_AUTHORITY@) ==> crate::program::has_line(final(errors)@, reserved_admit_line(k)),
        final(errors)@.len() >= old(errors)@.len(),
        (final(errors)@.len() == old(errors)@.len()) == request_shape_ok(request),
{
    let ghost errors_start = errors@;
    if !str_eq(request.schema.as_str(), ACTION_REQUEST_SCHEMA) {
        let mut out = chars_of("$.schema: expected ");
        crate::text::push_debug(&mut out, ACTION_REQUEST_SCHEMA);
        push_str(&mut out, ", got ");
        crate::text::push_debug(&mut out, request.schema.as_str());
        errors.push(message(out));
    }
    required(request.mission.id.as_str(), "$.mission.id", errors);
    required(request.mission.principal.as_str(), "$.mission.principal", errors);
    if !valid_digest(request.mission.instruction_digest.as_str()) {
        errors.push(
            String::from_str("$.mission.instruction_digest: expected sha256 followed by 64 lowercase hexadecimal characters"),
        );
    }
    required(request.action.id.as_str(), "$.action.id", errors);
    required(request.action.tool.as_str(), "$.action.tool", errors);
    required_keys(&request.mission.constraints, "$.mission.constraints key", errors);
    required_keys(&request.action.arguments, "$.action.arguments key", errors);
    check_effects(request, errors);
    if !str_eq(request.policy.schema.as_str(), crate::model::PROGRAM_SCHEMA_V2) {
        let mut out = chars_of("$.policy.schema: action authorization requires ");
        crate::text::push_debug(&mut out, crate::model::PROGRAM_SCHEMA_V2);
        errors.push(message(out));
    }
    if request.policy.authority.classes.contains(SYSTEM_AUTHORITY) {
        let mut out = chars_of("$.policy.authority.classes: ");
        crate::text::push_debug(&mut out, SYSTEM_AUTHORITY);
        push_str(&mut out, " is reserved for request bindings");
        errors.push(message(out));
        assert(errors@[errors@.len() - 1]@ == reserved_classes_line());
    }
    let ghost after_classes = errors@;
    if request.policy.authority.default_admit.contains(SYSTEM_AUTHORITY) {
        let mut out = chars_of("$.policy.authority.default_admit: ");
        crate::text::push_debug(&mut out, SYSTEM_AUTHORITY);
        push_str(&mut out, " is reserved for request bindings");
        errors.push(message(out));
        assert(errors@[errors@.len() - 1]@ == reserved_default_line());
    }
    let ghost after_default = errors@;
    check_admission_lists(request, errors);
    let ghost s1 = errors@;
    check_reserved_declarations(request, errors);
    let ghost s2 = errors@;
    check_policy_facts(request, errors);
    let ghost s3 = errors@;
    check_policy_rules(request, errors);
    let ghost s4 = errors@;
    let expected_query = authorization_query(request.action.id.as_str());
    if !crate::model::atom_eq(&request.policy.query, &expected_query) {
        let mut out = chars_of("$.policy.query: expected action_authorized(");
        crate::text::push_debug(&mut out, request.action.id.as_str());
        push_str(&mut out, ")");
        errors.push(message(out));
    }
    proof {
        crate::program::lemma_lines_kept(after_classes, after_default);
        crate::program::lemma_lines_kept(after_default, s1);
        crate::program::lemma_lines_kept(s1, s2);
        crate::program::lemma_lines_kept(s2, s3);
        crate::program::lemma_lines_kept(s3, s4);
        crate::program::lemma_lines_kept(s4, errors@);
        if request.policy.authority.classes.has(SYSTEM_AUTHORITY@) {
            assert(crate::program::has_line(after_classes, reserved_classes_line()));
        }
        assert forall|k: Seq<char>|
            #[trigger] request.policy.authority.predicate_admit.has_key(k) && request.policy.authority.predicate_admit.spec_get(
                k,
            )->0.has(SYSTEM_AUTHORITY@) implies crate::program::has_line(errors@, reserved_admit_line(k)) by {
            assert(crate::program::has_line(s1, reserved_admit_line(k)));
        }
    }
}


/// `d` padded with leading zeros to at least `width` characters.
pub open spec fn zero_pad(d: Seq<char>, width: nat) -> Seq<char>
    decreases width - d.len(),
{
    if d.len() >= width {
        d
    } else {
        zero_pad(seq!['0'] + d, width)
    }
}

pub type FactView = (Seq<char>, AtomV, Seq<char>, Option<Seq<char>>, Option<Seq<char>>, Option<Seq<char>>, Seq<Seq<char>>);

/// A fact that binds part of the request: id under the reserved prefix,
/// authority `system-bound`, observed when the request says.
pub open spec fn system_fact_view(suffix: Seq<char>, atom: AtomV, observed: Seq<char>, until: Option<Seq<char>>) -> FactView {
    (SYSTEM_FACT_PREFIX@ + suffix, atom, SYSTEM_AUTHORITY@, Some(observed), None, until, Seq::empty())
}

/// An atom of string arguments.
pub open spec fn string_atom_spec(predicate: Seq<char>, args: Seq<Seq<char>>) -> AtomV {
    AtomV { predicate, arguments: strings_json(args), negated: false }
}

/// The binding of a mission constraint.
pub open spec fn constraint_fact(r: &ActionRequest, e: (String, JsonValue)) -> FactView {
    let m = r.mission;
    system_fact_view(
        "mission.constraint."@ + binding_hex(e.0@, e.1@),
        string_atom_spec("mission_constraint"@, seq![m.id@, e.0@, canonical_value_spec(e.1@)]),
        m.issued_at@,
        opt_view(m.valid_until),
    )
}

/// The binding of an action argument.
pub open spec fn argument_fact(r: &ActionRequest, e: (String, JsonValue)) -> FactView {
    system_fact_view(
        "action.argument."@ + binding_hex(e.0@, e.1@),
        string_atom_spec("action_argument"@, seq![r.action.id@, e.0@, canonical_value_spec(e.1@)]),
        r.action.proposed_at@,
        None,
    )
}

/// The binding of the `i`-th declared effect.
pub open spec fn effect_fact(r: &ActionRequest, i: int) -> FactView {
    let e = r.action.effects@[i];
    let value = match e.value {
        Some(v) => canonical_value_spec(v@),
        None => "none:"@,
    };
    system_fact_view(
        "action.effect."@ + zero_pad(crate::text::decimal(i as nat), 4),
        string_atom_spec("action_effect"@, seq![r.action.id@, e.kind@, e.resource@, value]),
        r.action.proposed_at@,
        None,
    )
}

/// The facts that bind the request into its effective program, in order:
/// the mission's activity, action, principal and instruction, its
/// constraints in key order, the action's tool, its arguments in key order,
/// and its effects in declared order.
pub open spec fn system_facts(r: &ActionRequest) -> Seq<FactView> {
    let m = r.mission;
    let a = r.action;
    let until = opt_view(m.valid_until);
    seq![
        system_fact_view("mission.active"@, string_atom_spec("mission_active"@, seq![m.id@]), m.issued_at@, until),
        system_fact_view("mission.action"@, string_atom_spec("mission_action"@, seq![m.id@, a.id@]), a.proposed_at@, until),
        system_fact_view("mission.principal"@, string_atom_spec("mission_principal"@, seq![m.id@, m.principal@]), m.issued_at@, until),
        system_fact_view(
            "mission.instruction"@,
            string_atom_spec("mission_instruction"@, seq![m.id@, m.instruction_digest@]),
            m.issued_at@,
            until,
        ),
    ] + m.constraints.entries().map_values(|e: (String, JsonValue)| constraint_fact(r, e)) + seq![
        system_fact_view("action.tool"@, string_atom_spec("action_tool"@, seq![a.id@, a.tool@]), a.proposed_at@, None),
    ] + a.arguments.entries().map_values(|e: (String, JsonValue)| argument_fact(r, e)) + Seq::new(
        a.effects@.len(),
        |i: int| effect_fact(r, i),
    )
}

/// The declared argument types of a predicate, if declared.
pub open spec fn declared(m: &StrMap<crate::model::Predicate>, k: Seq<char>) -> Option<Seq<crate::model::ScalarType>> {
    match m.spec_get(k) {
        Some(p) => Some(p.arguments@),
        None => None,
    }
}

/// The members of the admission set of a predicate, if it has one.
pub open spec fn admitted_for(m: &StrMap<crate::collections::StrSet>, k: Seq<char>) -> Option<Seq<Seq<char>>> {
    match m.spec_get(k) {
        Some(s) => Some(s.view_seq()),
        None => None,
    }
}

/// `p` is the effective program of request `r`: its policy, with the
/// reserved predicates declared as string predicates admitted only for
/// `system-bound`, that class added, the request's binding facts appended,
/// and the query `action_authorized(action id)`.
pub open spec fn effective_ok(r: &ActionRequest, p: &Program) -> bool {
    let q = r.policy;
    &&& p.schema@ == q.schema@
    &&& p.ontology.id@ == q.ontology.id@
    &&& p.ontology.version@ == q.ontology.version@
    &&& forall|k: Seq<char>| #[trigger] declared(&p.ontology.predicates, k) == if is_reserved(k) {
        Some(Seq::new(reserved_arity_of(k), |i: int| crate::model::ScalarType::String))
    } else {
        declared(&q.ontology.predicates, k)
    }
    &&& forall|x: Seq<char>| #[trigger] p.authority.classes.has(x) <==> (q.authority.classes.has(x) || x == SYSTEM_AUTHORITY@)
    &&& p.authority.default_admit.view_seq() == q.authority.default_admit.view_seq()
    &&& forall|k: Seq<char>| #[trigger] admitted_for(&p.authority.predicate_admit, k) == if is_reserved(k) {
        Some(seq![SYSTEM_AUTHORITY@])
    } else {
        admitted_for(&q.authority.predicate_admit, k)
    }
    &&& opt_view(p.evaluation_time) == opt_view(q.evaluation_time)
    &&& crate::clone::facts_view(p.facts@) == crate::clone::facts_view(q.facts@) + system_facts(r)
    &&& crate::clone::rules_view(p.rules@) == crate::clone::rules_view(q.rules@)
    &&& p.query@ == authorization_query_spec(r.action.id@)
}

/// The effective program of a request is unique up to its contents, so its
/// validity is determined by the request.
pub proof fn lemma_effective_same(r: &ActionRequest, p1: &Program, p2: &Program)
    requires
        effective_ok(r, p1),
        effective_ok(r, p2),
    ensures
        crate::program::same_views(p1, p2),
        crate::program::program_valid(p1) == crate::program::program_valid(p2),
{
    assert forall|k: Seq<char>| #[trigger] declared(&p1.ontology.predicates, k) == declared(&p2.ontology.predicates, k) by {
        assert(declared(&p1.ontology.predicates, k) == declared(&p2.ontology.predicates, k));
    }
    assert forall|x: Seq<char>| #[trigger] p1.authority.classes.has(x) <==> p2.authority.classes.has(x) by {
        assert(p1.authority.classes.has(x) <==> (r.policy.authority.classes.has(x) || x == SYSTEM_AUTHORITY@));
        assert(p2.authority.classes.has(x) <==> (r.policy.authority.classes.has(x) || x == SYSTEM_AUTHORITY@));
    }
    assert forall|k: Seq<char>| #[trigger] admitted_for(&p1.authority.predicate_admit, k) == admitted_for(&p2.authority.predicate_admit, k) by {
        assert(admitted_for(&p1.authority.predicate_admit, k) == admitted_for(&p2.authority.predicate_admit, k));
    }
    crate::program::lemma_valid_same_views(p1, p2);
}

/// The arity of a reserved predicate: that of the first entry with its name.
pub open spec fn reserved_arity_of(k: Seq<char>) -> nat {
    reserved_arity_from(k, 0)
}

pub open spec fn reserved_arity_from(k: Seq<char>, i: int) -> nat
    decreases 9 - i,
{
    if i >= 9 {
        0
    } else if reserved_entry(i).0 == k {
        reserved_entry(i).1
    } else {
        reserved_arity_from(k, i + 1)
    }
}


/// The reserved predicate names are distinct.
pub proof fn lemma_reserved_distinct(i: int, j: int)
    requires
        0 <= i < 9,
        0 <= j < 9,
        reserved_entry(i).0 == reserved_entry(j).0,
    ensures
        i == j,
{
    reveal_strlit("action_authorized");
    reveal_strlit("mission_active");
    reveal_strlit("mission_action");
    reveal_strlit("mission_principal");
    reveal_strlit("mission_instruction");
    reveal_strlit("mission_constraint");
    reveal_strlit("action_tool");
    reveal_strlit("action_argument");
    reveal_strlit("action_effect");
    let a = reserved_entry(i).0;
    let b = reserved_entry(j).0;
    if i != j {
        assert(a.len() == b.len());
        if a.len() == 14 {
            assert(a[12] != b[12]);
        } else if a.len() == 17 {
            assert(a[0] != b[0]);
        } else if a.len() == 15 {
            assert(a[0] != b[0]);
        } else if a.len() == 18 {
            assert(a[8] != b[8]);
        }
    }
}

/// A reserved name's arity is that of its entry.
pub proof fn lemma_reserved_arity(i: int)
    requires
        0 <= i < 9,
    ensures
        is_reserved(reserved_entry(i).0),
        reserved_arity_of(reserved_entry(i).0) == reserved_entry(i).1,
{
    let k = reserved_entry(i).0;
    assert(is_reserved(k));
    lemma_arity_from(k, i, 0);
}

proof fn lemma_arity_from(k: Seq<char>, i: int, m: int)
    requires
        0 <= m <= i < 9,
        k == reserved_entry(i).0,
    ensures
        reserved_arity_from(k, m) == reserved_entry(i).1,
    decreases i - m,
{
    if reserved_entry(m).0 == k {
        lemma_reserved_distinct(i, m);
    } else {
        lemma_arity_from(k, i, m + 1);
    }
}


/// An atom of string arguments.
fn string_atom(predicate: &str, args: Vec<String>) -> (a: Atom)
    ensures
        a@ == string_atom_spec(predicate@, strings_view(args@)),
{
    let mut values: Vec<JsonValue> = Vec::new();
    let mut i: usize = 0;
    while i < args.len()
        invariant
            i <= args@.len(),
            json_views(values@) == strings_json(strings_view(args@.take(i as int))),
        decreases args.len() - i,
    {
        let ghost before = values@;
        let v = string_value(args[i].as_str());
        values.push(v);
        proof {
            lemma_json_views_push(before, v);
            assert(strings_json(strings_view(args@.take(i + 1))) =~= strings_json(strings_view(args@.take(i as int))).push(JsonV::Str(args@[i as int]@)));
        }
        i += 1;
    }
    assert(args@.take(args@.len() as int) =~= args@);
    Atom { predicate: String::from_str(predicate), arguments: values, negated: false }
}

fn strings2(a: &String, b: &String) -> (v: Vec<String>)
    ensures
        strings_view(v@) == seq![a@, b@],
{
    let mut v: Vec<String> = Vec::new();
    v.push(a.clone());
    v.push(b.clone());
    assert(strings_view(v@) =~= seq![a@, b@]);
    v
}

fn strings3(a: &String, b: &String, c: String) -> (v: Vec<String>)
    ensures
        strings_view(v@) == seq![a@, b@, c@],
{
    let mut v: Vec<String> = Vec::new();
    v.push(a.clone());
    v.push(b.clone());
    v.push(c);
    assert(strings_view(v@) =~= seq![a@, b@, c@]);
    v
}

/// Appends a binding fact.
fn push_system_fact(facts: &mut Vec<crate::model::Fact>, suffix: Vec<char>, atom: Atom, observed: &str, until: Option<String>)
    ensures
        crate::clone::facts_view(final(facts)@) == crate::clone::facts_view(old(facts)@).push(
            system_fact_view(suffix@, atom@, observed@, opt_view(until)),
        ),
{
    let mut id = chars_of(SYSTEM_FACT_PREFIX);
    let mut i: usize = 0;
    let ghost start = id@;
    while i < suffix.len()
        invariant
            i <= suffix@.len(),
            id@ == start + suffix@.take(i as int),
        decreases suffix.len() - i,
    {
        id.push(suffix[i]);
        proof {
            assert(suffix@.take(i + 1) =~= suffix@.take(i as int).push(suffix@[i as int]));
        }
        i += 1;
    }
    assert(suffix@.take(suffix@.len() as int) =~= suffix@);
    let ghost u = opt_view(until);
    let f = crate::model::Fact {
        id: message(id),
        atom,
        authority: String::from_str(SYSTEM_AUTHORITY),
        observed_at: Some(String::from_str(observed)),
        valid_from: None,
        valid_until: until,
        supersedes: Vec::new(),
    };
    let ghost before = facts@;
    facts.push(f);
    proof {
        assert(strings_view(f.supersedes@) =~= Seq::<Seq<char>>::empty());
        assert(f.id@ == SYSTEM_FACT_PREFIX@ + suffix@);
        assert(crate::clone::fact_view(f) == system_fact_view(suffix@, atom@, observed@, u));
        assert(crate::clone::facts_view(facts@) =~= crate::clone::facts_view(before).push(crate::clone::fact_view(f)));
    }
}

/// `s` padded with leading zeros to at least four characters.
fn pad4(s: Vec<char>) -> (r: Vec<char>)
    ensures
        r@ == zero_pad(s@, 4),
    decreases 4 - s@.len(),
{
    if s.len() >= 4 {
        s
    } else {
        let mut t: Vec<char> = Vec::new();
        t.push('0');
        let mut i: usize = 0;
        while i < s.len()
            invariant
                i <= s@.len(),
                t@ == seq!['0'] + s@.take(i as int),
            decreases s.len() - i,
        {
            t.push(s[i]);
            proof {
                assert(s@.take(i + 1) =~= s@.take(i as int).push(s@[i as int]));
            }
            i += 1;
        }
        assert(s@.take(s@.len() as int) =~= s@);
        pad4(t)
    }
}

fn concat(a: &str, b: Vec<char>) -> (r: Vec<char>)
    ensures
        r@ == a@ + b@,
{
    let mut out = chars_of(a);
    let ghost start = out@;
    let mut i: usize = 0;
    while i < b.len()
        invariant
            i <= b@.len(),
            out@ == start + b@.take(i as int),
        decreases b.len() - i,
    {
        out.push(b[i]);
        proof {
            assert(b@.take(i + 1) =~= b@.take(i as int).push(b@[i as int]));
        }
        i += 1;
    }
    assert(b@.take(b@.len() as int) =~= b@);
    out
}

pub open spec fn fixed_facts(r: &ActionRequest) -> Seq<FactView> {
    let m = r.mission;
    let a = r.action;
    let until = opt_view(m.valid_until);
    seq![
        system_fact_view("mission.active"@, string_atom_spec("mission_active"@, seq![m.id@]), m.issued_at@, until),
        system_fact_view("mission.action"@, string_atom_spec("mission_action"@, seq![m.id@, a.id@]), a.proposed_at@, until),
        system_fact_view("mission.principal"@, string_atom_spec("mission_principal"@, seq![m.id@, m.principal@]), m.issued_at@, until),
        system_fact_view(
            "mission.instruction"@,
            string_atom_spec("mission_instruction"@, seq![m.id@, m.instruction_digest@]),
            m.issued_at@,
            until,
        ),
    ]
}

pub open spec fn constraint_facts(r: &ActionRequest) -> Seq<FactView> {
    r.mission.constraints.entries().map_values(|e: (String, JsonValue)| constraint_fact(r, e))
}

pub open spec fn tool_facts(r: &ActionRequest) -> Seq<FactView> {
    seq![system_fact_view("action.tool"@, string_atom_spec("action_tool"@, seq![r.action.id@, r.action.tool@]), r.action.proposed_at@, None)]
}

pub open spec fn argument_facts(r: &ActionRequest) -> Seq<FactView> {
    r.action.arguments.entries().map_values(|e: (String, JsonValue)| argument_fact(r, e))
}

pub open spec fn effect_facts(r: &ActionRequest) -> Seq<FactView> {
    Seq::new(r.action.effects@.len(), |i: int| effect_fact(r, i))
}

pub proof fn lemma_system_facts(r: &ActionRequest)
    ensures
        system_facts(r) == fixed_facts(r) + constraint_facts(r) + tool_facts(r) + argument_facts(r) + effect_facts(r),
{
    assert(system_facts(r) =~= fixed_facts(r) + constraint_facts(r) + tool_facts(r) + argument_facts(r) + effect_facts(r));
}

/// Every binding fact of a request carries the `system-bound` authority and
/// a reserved predicate other than `action_authorized`.
pub proof fn lemma_system_fact_shape(r: &ActionRequest, i: int)
    requires
        0 <= i < system_facts(r).len(),
    ensures
        system_facts(r)[i].2 == SYSTEM_AUTHORITY@,
        exists|j: int| 1 <= j < 9 && #[trigger] reserved_entry(j).0 == system_facts(r)[i].1.predicate,
{
    lemma_system_facts(r);
    let f = fixed_facts(r);
    let c = constraint_facts(r);
    let t = tool_facts(r);
    let g = argument_facts(r);
    let e = effect_facts(r);
    let x = system_facts(r)[i];
    if i < f.len() {
        assert(x == f[i]);
        if i == 0 {
            assert(reserved_entry(1).0 == x.1.predicate);
        } else if i == 1 {
            assert(reserved_entry(2).0 == x.1.predicate);
        } else if i == 2 {
            assert(reserved_entry(3).0 == x.1.predicate);
        } else {
            assert(reserved_entry(4).0 == x.1.predicate);
        }
    } else if i < f.len() + c.len() {
        assert(x == c[i - f.len()]);
        assert(reserved_entry(5).0 == x.1.predicate);
    } else if i < f.len() + c.len() + t.len() {
        assert(x == t[i - f.len() - c.len()]);
        assert(reserved_entry(6).0 == x.1.predicate);
    } else if i < f.len() + c.len() + t.len() + g.len() {
        assert(x == g[i - f.len() - c.len() - t.len()]);
        assert(reserved_entry(7).0 == x.1.predicate);
    } else {
        assert(x == e[i - f.len() - c.len() - t.len() - g.len()]);
        assert(reserved_entry(8).0 == x.1.predicate);
    }
}

/// The facts that bind the request, appended to `facts`.
fn push_bindings(request: &ActionRequest, facts: &mut Vec<crate::model::Fact>)
    ensures
        crate::clone::facts_view(final(facts)@) == crate::clone::facts_view(old(facts)@) + system_facts(request),
{
    let m = &request.mission;
    let a = &request.action;
    let ghost base = crate::clone::facts_view(facts@);
    let mut ids: Vec<String> = Vec::new();
    ids.push(m.id.clone());
    assert(strings_view(ids@) =~= seq![m.id@]);
    push_system_fact(facts, chars_of("mission.active"), string_atom("mission_active", ids), m.issued_at.as_str(), crate::model::clone_opt_string(&m.valid_until));
    push_system_fact(facts, chars_of("mission.action"), string_atom("mission_action", strings2(&m.id, &a.id)), a.proposed_at.as_str(), crate::model::clone_opt_string(&m.valid_until));
    push_system_fact(facts, chars_of("mission.principal"), string_atom("mission_principal", strings2(&m.id, &m.principal)), m.issued_at.as_str(), crate::model::clone_opt_string(&m.valid_until));
    push_system_fact(facts, chars_of("mission.instruction"), string_atom("mission_instruction", strings2(&m.id, &m.instruction_digest)), m.issued_at.as_str(), crate::model::clone_opt_string(&m.valid_until));
    assert(crate::clone::facts_view(facts@) =~= base + fixed_facts(request));
    let mut i: usize = 0;
    while i < m.constraints.len()
        invariant
            m == &request.mission,
            i <= m.constraints.entries().len(),
            crate::clone::facts_view(facts@) == base + fixed_facts(request) + constraint_facts(request).take(i as int),
        decreases m.constraints.entries().len() - i,
    {
        let key = m.constraints.key_at(i);
        let value = m.constraints.value_at(i);
        let suffix = concat("mission.constraint.", binding_digest(key, value));
        let atom = string_atom("mission_constraint", strings3(&m.id, key, canonical_value(value)));
        let ghost before = crate::clone::facts_view(facts@);
        push_system_fact(facts, suffix, atom, m.issued_at.as_str(), crate::model::clone_opt_string(&m.valid_until));
        proof {
            assert(constraint_facts(request).take(i + 1) =~= constraint_facts(request).take(i as int).push(
                constraint_fact(request, m.constraints.entries()[i as int]),
            ));
        }
        i += 1;
    }
    assert(constraint_facts(request).take(constraint_facts(request).len() as int) =~= constraint_facts(request));
    push_system_fact(facts, chars_of("action.tool"), string_atom("action_tool", strings2(&a.id, &a.tool)), a.proposed_at.as_str(), None);
    let ghost mid = crate::clone::facts_view(facts@);
    assert(mid =~= base + fixed_facts(request) + constraint_facts(request) + tool_facts(request));
    let mut j: usize = 0;
    while j < a.arguments.len()
        invariant
            a == &request.action,
            j <= a.arguments.entries().len(),
            crate::clone::facts_view(facts@) == mid + argument_facts(request).take(j as int),
        decreases a.arguments.entries().len() - j,
    {
        let key = a.arguments.key_at(j);
        let value = a.arguments.value_at(j);
        let suffix = concat("action.argument.", binding_digest(key, value));
        let atom = string_atom("action_argument", strings3(&a.id, key, canonical_value(value)));
        push_system_fact(facts, suffix, atom, a.proposed_at.as_str(), None);
        proof {
            assert(argument_facts(request).take(j + 1) =~= argument_facts(request).take(j as int).push(
                argument_fact(request, a.arguments.entries()[j as int]),
            ));
        }
        j += 1;
    }
    assert(argument_facts(request).take(argument_facts(request).len() as int) =~= argument_facts(request));
    let ghost mid2 = crate::clone::facts_view(facts@);
    let mut k: usize = 0;
    while k < a.effects.len()
        invariant
            a == &request.action,
            k <= a.effects@.len(),
            crate::clone::facts_view(facts@) == mid2 + effect_facts(request).take(k as int),
        decreases a.effects.len() - k,
    {
        let effect = &a.effects[k];
        let suffix = concat("action.effect.", pad4(chars_of(crate::text::decimal_string(k as u64).as_str())));
        let value = match &effect.value {
            Some(v) => canonical_value(v),
            None => String::from_str("none:"),
        };
        let mut args: Vec<String> = Vec::new();
        args.push(a.id.clone());
        args.push(effect.kind.clone());
        args.push(effect.resource.clone());
        args.push(value);
        let ghost vv = value@;
        assert(strings_view(args@) =~= seq![a.id@, effect.kind@, effect.resource@, vv]);
        let atom = string_atom("action_effect", args);
        push_system_fact(facts, suffix, atom, a.proposed_at.as_str(), None);
        proof {
            assert(effect_facts(request).take(k + 1) =~= effect_facts(request).take(k as int).push(effect_fact(request, k as int)));
        }
        k += 1;
    }
    assert(effect_facts(request).take(effect_facts(request).len() as int) =~= effect_facts(request));
    proof { lemma_system_facts(request); }
    assert(crate::clone::facts_view(facts@) =~= base + system_facts(request));
}


fn string_types(n: usize) -> (v: Vec<crate::model::ScalarType>)
    ensures
        v@ == Seq::new(n as nat, |i: int| crate::model::ScalarType::String),
{
    let mut v: Vec<crate::model::ScalarType> = Vec::new();
    let mut i: usize = 0;
    while i < n
        invariant
            i <= n,
            v@ == Seq::new(i as nat, |k: int| crate::model::ScalarType::String),
        decreases n - i,
    {
        v.push(crate::model::ScalarType::String);
        proof {
            assert(v@ =~= Seq::new((i + 1) as nat, |k: int| crate::model::ScalarType::String));
        }
        i += 1;
    }
    v
}

/// The program the reasoning kernel checks for a request: its policy with
/// the request bound in (see `effective_ok`).
pub fn effective_program(request: &ActionRequest) -> (p: Program)
    ensures
        effective_ok(request, &p),
{
    let q = &request.policy;
    let mut predicates = crate::clone::clone_predicates(&q.ontology.predicates);
    let mut admissions = crate::clone::clone_admissions(&q.authority.predicate_admit);
    let mut classes = crate::model::clone_set(&q.authority.classes);
    let ghost c0 = classes;
    classes.insert(String::from_str(SYSTEM_AUTHORITY));
    let mut i: usize = 0;
    while i < 9
        invariant
            q == &request.policy,
            i <= 9,
            forall|k: Seq<char>| #[trigger] declared(&predicates, k) == if exists|j: int| 0 <= j < i && #[trigger] reserved_entry(j).0 == k {
                Some(Seq::new(reserved_arity_of(k), |t: int| crate::model::ScalarType::String))
            } else {
                declared(&q.ontology.predicates, k)
            },
            forall|k: Seq<char>| #[trigger] admitted_for(&admissions, k) == if exists|j: int| 0 <= j < i && #[trigger] reserved_entry(j).0 == k {
                Some(seq![SYSTEM_AUTHORITY@])
            } else {
                admitted_for(&q.authority.predicate_admit, k)
            },
        decreases 9 - i,
    {
        let (name, arity) = reserved_predicate(i);
        proof { lemma_reserved_arity(i as int); }
        let ghost p0 = predicates;
        let ghost adm0 = admissions;
        predicates.insert(String::from_str(name), crate::model::Predicate { arguments: string_types(arity) });
        let mut only = crate::collections::StrSet::new();
        only.insert(String::from_str(SYSTEM_AUTHORITY));
        proof {
            use_type_invariant(&only);
            assert(only.view_seq() =~= seq![SYSTEM_AUTHORITY@]) by {
                let v = only.view_seq();
                assert(v.contains(SYSTEM_AUTHORITY@));
                if v.len() > 1 {
                    assert(v[0] != v[1]) by {
                        assert(crate::text::seq_lt(v[0], v[1]));
                        crate::text::lemma_seq_lt_irreflexive(v[0]);
                    }
                    assert(only.has(v[0]) && only.has(v[1]));
                }
                if v.len() == 1 {
                    assert(v[0] == SYSTEM_AUTHORITY@);
                }
            }
        }
        admissions.insert(String::from_str(name), only);
        proof {
            assert forall|k: Seq<char>| #[trigger] declared(&predicates, k) == if exists|j: int| 0 <= j < i + 1 && #[trigger] reserved_entry(j).0 == k {
                Some(Seq::new(reserved_arity_of(k), |t: int| crate::model::ScalarType::String))
            } else {
                declared(&q.ontology.predicates, k)
            } by {
                if k == name@ {
                    assert(reserved_entry(i as int).0 == k);
                } else {
                    assert(declared(&predicates, k) == declared(&p0, k));
                    if exists|j: int| 0 <= j < i + 1 && #[trigger] reserved_entry(j).0 == k {
                        let j = choose|j: int| 0 <= j < i + 1 && #[trigger] reserved_entry(j).0 == k;
                        assert(j != i);
                    }
                }
            }
            assert forall|k: Seq<char>| #[trigger] admitted_for(&admissions, k) == if exists|j: int| 0 <= j < i + 1 && #[trigger] reserved_entry(j).0 == k {
                Some(seq![SYSTEM_AUTHORITY@])
            } else {
                admitted_for(&q.authority.predicate_admit, k)
            } by {
                if k == name@ {
                    assert(reserved_entry(i as int).0 == k);
                } else {
                    assert(admitted_for(&admissions, k) == admitted_for(&adm0, k));
                    if exists|j: int| 0 <= j < i + 1 && #[trigger] reserved_entry(j).0 == k {
                        let j = choose|j: int| 0 <= j < i + 1 && #[trigger] reserved_entry(j).0 == k;
                        assert(j != i);
                    }
                }
            }
        }
        i += 1;
    }
    let mut facts = crate::clone::clone_facts(&q.facts);
    push_bindings(request, &mut facts);
    let p = Program {
        schema: q.schema.clone(),
        ontology: crate::model::Ontology { id: q.ontology.id.clone(), version: q.ontology.version.clone(), predicates },
        authority: crate::model::AuthorityPolicy {
            classes,
            default_admit: crate::model::clone_set(&q.authority.default_admit),
            predicate_admit: admissions,
        },
        evaluation_time: crate::model::clone_opt_string(&q.evaluation_time),
        facts,
        rules: crate::clone::clone_rules(&q.rules),
        query: authorization_query(request.action.id.as_str()),
    };
    proof {
        assert forall|k: Seq<char>| #[trigger] declared(&p.ontology.predicates, k) == if is_reserved(k) {
            Some(Seq::new(reserved_arity_of(k), |t: int| crate::model::ScalarType::String))
        } else {
            declared(&q.ontology.predicates, k)
        } by {
            assert(declared(&predicates, k) == declared(&p.ontology.predicates, k));
        }
        assert forall|k: Seq<char>| #[trigger] admitted_for(&p.authority.predicate_admit, k) == if is_reserved(k) {
            Some(seq![SYSTEM_AUTHORITY@])
        } else {
            admitted_for(&q.authority.predicate_admit, k)
        } by {
            assert(admitted_for(&admissions, k) == admitted_for(&p.authority.predicate_admit, k));
        }
    }
    p
}


/// Checks an action request: its own fields and policy (see
/// `request_shape_ok`), then the validity of its effective program.
pub fn validate_action_request(request: &ActionRequest) -> (r: Result<(), crate::error::ReasonError>)
    ensures
        r matches Err(e) ==> e is InvalidAction,
        r is Ok ==> request_shape_ok(request) && exists|p: Program| #[trigger] effective_ok(request, &p) && crate::program::program_valid(&p),
        !request_shape_ok(request) ==> r is Err,
        request_shape_ok(request) && r is Err ==> exists|p: Program| #[trigger] effective_ok(request, &p) && !crate::program::program_valid(&p),
        request_shape_ok(request) && (exists|p: Program| #[trigger] effective_ok(request, &p) && crate::program::program_valid(&p)) ==> r is Ok,
        request.policy.authority.classes.has(SYSTEM_AUTHORITY@) ==> (r matches Err(crate::error::ReasonError::InvalidAction(m))
            && crate::program::message_has_line(m@, reserved_classes_line())),
        request.policy.authority.default_admit.has(SYSTEM_AUTHORITY@) ==> (r matches Err(
            crate::error::ReasonError::InvalidAction(m),
        ) && crate::program::message_has_line(m@, reserved_default_line())),
        forall|k: Seq<char>|
            #[trigger] request.policy.authority.predicate_admit.has_key(k) && request.policy.authority.predicate_admit.spec_get(
                k,
            )->0.has(SYSTEM_AUTHORITY@) ==> (r matches Err(crate::error::ReasonError::InvalidAction(m))
                && crate::program::message_has_line(m@, reserved_admit_line(k))),
{
    let mut errors: Vec<String> = Vec::new();
    check_request_shape(request, &mut errors);
    proof {
        let lines = crate::text::strings_view(errors@);
        assert forall|l: Seq<char>| crate::program::has_line(errors@, l) implies errors@.len() > 0 && lines.contains(l) by {
            let k = choose|k: int| 0 <= k < errors@.len() && (#[trigger] errors@[k])@ == l;
            assert(lines[k] == errors@[k]@);
        }
    }
    if errors.len() > 0 {
        return Err(crate::error::ReasonError::InvalidAction(crate::text::join_newline(&errors)));
    }
    let program = effective_program(request);
    match crate::program::validate(&program) {
        Ok(()) => Ok(()),
        Err(e) => {
            proof {
                if exists|p: Program| #[trigger] effective_ok(request, &p) && crate::program::program_valid(&p) {
                    let p = choose|p: Program| #[trigger] effective_ok(request, &p) && crate::program::program_valid(&p);
                    lemma_effective_same(request, &p, &program);
                }
            }
            Err(crate::error::ReasonError::InvalidAction(e.message()))
        },
    }
}

/// The authorization decision a reasoning status amounts to.
pub open spec fn authorization_status_spec(s: crate::reasoning::Status) -> AuthorizationStatus {
    match s {
        crate::reasoning::Status::Proved => AuthorizationStatus::Authorized,
        crate::reasoning::Status::Disproved => AuthorizationStatus::Denied,
        crate::reasoning::Status::Inconsistent => AuthorizationStatus::Conflicted,
        crate::reasoning::Status::Unknown => AuthorizationStatus::InsufficientEvidence,
    }
}

pub fn authorization_status(s: crate::reasoning::Status) -> (a: AuthorizationStatus)
    ensures
        a == authorization_status_spec(s),
{
    match s {
        crate::reasoning::Status::Proved => AuthorizationStatus::Authorized,
        crate::reasoning::Status::Disproved => AuthorizationStatus::Denied,
        crate::reasoning::Status::Inconsistent => AuthorizationStatus::Conflicted,
        crate::reasoning::Status::Unknown => AuthorizationStatus::InsufficientEvidence,
    }
}

pub type IssueView = (Seq<char>, Seq<char>, Option<AtomV>, Seq<Seq<char>>);

pub open spec fn issue_view(i: AuthorizationIssue) -> IssueView {
    (i.code@, i.message@, match i.atom { Some(a) => Some(a@), None => None }, strings_view(i.fact_ids@))
}

pub open spec fn issues_view(s: Seq<AuthorizationIssue>) -> Seq<IssueView> {
    s.map_values(|i: AuthorizationIssue| issue_view(i))
}

/// The issues that explain the status, in order.
pub open spec fn status_issues(r: &crate::reasoning::CheckResult, status: AuthorizationStatus) -> Seq<IssueView> {
    match status {
        AuthorizationStatus::Authorized => Seq::empty(),
        AuthorizationStatus::Denied => seq![
            (
                "explicit_denial"@,
                "The policy derives explicit denial for this exact action."@,
                Some(crate::engine::complement_spec(r.query@)),
                Seq::empty(),
            ),
        ],
        AuthorizationStatus::Conflicted => seq![
            (
                "conflicting_authorization"@,
                "The policy derives both authorization and explicit denial; action must fail closed."@,
                Some(r.query@),
                match r.conflict { Some(c) => strings_view(c.fact_ids@), None => Seq::empty() },
            ),
        ],
        AuthorizationStatus::InsufficientEvidence => r.missing@.map_values(
            |a: Atom| ("missing_requirement"@, "A required premise is not currently derivable."@, Some(a@), Seq::<Seq<char>>::empty()),
        ) + if r.missing@.len() == 0 {
            seq![
                (
                    "no_authorization_derivation"@,
                    "No authorization or explicit denial derivation was found."@,
                    Some(r.query@),
                    Seq::<Seq<char>>::empty(),
                ),
            ]
        } else {
            Seq::empty()
        },
    }
}

/// One issue per fact withheld by authority.
pub open spec fn authority_issues(r: &crate::reasoning::CheckResult) -> Seq<IssueView> {
    r.authority.withheld@.map_values(
        |w: crate::report::WithheldFact| ("authority_withheld"@, w.reason@, Some(w.atom@), seq![w.fact_id@]),
    )
}

/// One issue per fact withheld by time.
pub open spec fn temporal_issues(r: &crate::reasoning::CheckResult) -> Seq<IssueView> {
    match r.temporal {
        Some(t) => t.withheld@.map_values(
            |w: crate::temporal::TemporallyWithheldFact|
                (
                    if w.superseded_by@.len() == 0 { "temporally_ineligible"@ } else { "superseded"@ },
                    w.reason@,
                    Some(w.atom@),
                    seq![w.fact_id@] + strings_view(w.superseded_by@),
                ),
        ),
        None => Seq::empty(),
    }
}

/// The issues of an authorization: those that explain the status, then
/// those for facts withheld by authority, then by time.
pub open spec fn issues_spec(r: &crate::reasoning::CheckResult, status: AuthorizationStatus) -> Seq<IssueView> {
    status_issues(r, status) + authority_issues(r) + temporal_issues(r)
}

fn no_ids() -> (v: Vec<String>)
    ensures
        strings_view(v@) == Seq::<Seq<char>>::empty(),
{
    let v: Vec<String> = Vec::new();
    assert(strings_view(v@) =~= Seq::<Seq<char>>::empty());
    v
}

fn issue(code: &str, message_text: &str, atom: Option<Atom>, fact_ids: Vec<String>) -> (i: AuthorizationIssue)
    ensures
        issue_view(i) == (code@, message_text@, match atom { Some(a) => Some(a@), None => None }, strings_view(fact_ids@)),
{
    AuthorizationIssue { code: String::from_str(code), message: String::from_str(message_text), atom, fact_ids }
}

fn push_issue(issues: &mut Vec<AuthorizationIssue>, i: AuthorizationIssue)
    ensures
        issues_view(final(issues)@) == issues_view(old(issues)@).push(issue_view(i)),
{
    let ghost before = issues@;
    issues.push(i);
    assert(issues_view(issues@) =~= issues_view(before).push(issue_view(i)));
}

/// The issues that explain an authorization decision.
pub fn authorization_issues(r: &crate::reasoning::CheckResult, status: AuthorizationStatus) -> (issues: Vec<AuthorizationIssue>)
    ensures
        issues_view(issues@) == issues_spec(r, status),
{
    let mut issues: Vec<AuthorizationIssue> = Vec::new();
    match status {
        AuthorizationStatus::Authorized => {
            assert(issues_view(issues@) =~= status_issues(r, status));
        },
        AuthorizationStatus::Denied => {
            push_issue(&mut issues, issue(
                "explicit_denial",
                "The policy derives explicit denial for this exact action.",
                Some(crate::engine::complement(&r.query)),
                no_ids(),
            ));
            assert(issues_view(issues@) =~= status_issues(r, status));
        },
        AuthorizationStatus::Conflicted => {
            let ids = match &r.conflict {
                Some(c) => crate::model::clone_strings(&c.fact_ids),
                None => no_ids(),
            };
            assert(strings_view(ids@) == match r.conflict { Some(c) => strings_view(c.fact_ids@), None => Seq::<Seq<char>>::empty() });
            push_issue(&mut issues, issue(
                "conflicting_authorization",
                "The policy derives both authorization and explicit denial; action must fail closed.",
                Some(r.query.duplicate()),
                ids,
            ));
            assert(issues_view(issues@) =~= status_issues(r, status));
        },
        AuthorizationStatus::InsufficientEvidence => {
            let mut k: usize = 0;
            while k < r.missing.len()
                invariant
                    k <= r.missing@.len(),
                    issues_view(issues@) == r.missing@.take(k as int).map_values(
                        |a: Atom| ("missing_requirement"@, "A required premise is not currently derivable."@, Some(a@), Seq::<Seq<char>>::empty()),
                    ),
                decreases r.missing.len() - k,
            {
                push_issue(&mut issues, issue(
                    "missing_requirement",
                    "A required premise is not currently derivable.",
                    Some(r.missing[k].duplicate()),
                    no_ids(),
                ));
                proof {
                    assert(r.missing@.take(k + 1) =~= r.missing@.take(k as int).push(r.missing@[k as int]));
                    assert(r.missing@.take(k + 1).map_values(
                        |a: Atom| ("missing_requirement"@, "A required premise is not currently derivable."@, Some(a@), Seq::<Seq<char>>::empty()),
                    ) =~= r.missing@.take(k as int).map_values(
                        |a: Atom| ("missing_requirement"@, "A required premise is not currently derivable."@, Some(a@), Seq::<Seq<char>>::empty()),
                    ).push(("missing_requirement"@, "A required premise is not currently derivable."@, Some(r.missing@[k as int]@), Seq::<Seq<char>>::empty())));
                }
                k += 1;
            }
            assert(r.missing@.take(r.missing@.len() as int) =~= r.missing@);
            if r.missing.len() == 0 {
                push_issue(&mut issues, issue(
                    "no_authorization_derivation",
                    "No authorization or explicit denial derivation was found.",
                    Some(r.query.duplicate()),
                    no_ids(),
                ));
            }
            assert(issues_view(issues@) =~= status_issues(r, status));
        },
    }
    let ghost s0 = issues_view(issues@);
    assert(s0 =~= status_issues(r, status));
    let mut w: usize = 0;
    while w < r.authority.withheld.len()
        invariant
            w <= r.authority.withheld@.len(),
            issues_view(issues@) == s0 + authority_issues(r).take(w as int),
        decreases r.authority.withheld.len() - w,
    {
        let x = &r.authority.withheld[w];
        let mut ids: Vec<String> = Vec::new();
        ids.push(x.fact_id.clone());
        assert(strings_view(ids@) =~= seq![x.fact_id@]);
        push_issue(&mut issues, AuthorizationIssue {
            code: String::from_str("authority_withheld"),
            message: x.reason.clone(),
            atom: Some(x.atom.duplicate()),
            fact_ids: ids,
        });
        proof {
            assert(authority_issues(r).take(w + 1) =~= authority_issues(r).take(w as int).push(authority_issues(r)[w as int]));
        }
        w += 1;
    }
    assert(authority_issues(r).take(authority_issues(r).len() as int) =~= authority_issues(r));
    let ghost s1 = issues_view(issues@);
    match &r.temporal {
        Some(t) => {
            let mut v: usize = 0;
            while v < t.withheld.len()
                invariant
                    r.temporal == Some(*t),
                    v <= t.withheld@.len(),
                    issues_view(issues@) == s1 + temporal_issues(r).take(v as int),
                decreases t.withheld.len() - v,
            {
                let x = &t.withheld[v];
                let mut ids: Vec<String> = Vec::new();
                ids.push(x.fact_id.clone());
                assert(strings_view(ids@) =~= seq![x.fact_id@]);
                assert(strings_view(x.superseded_by@).take(0) =~= Seq::<Seq<char>>::empty());
                let mut m: usize = 0;
                while m < x.superseded_by.len()
                    invariant
                        m <= x.superseded_by@.len(),
                        strings_view(ids@) == seq![x.fact_id@] + strings_view(x.superseded_by@).take(m as int),
                    decreases x.superseded_by.len() - m,
                {
                    let ghost before = ids@;
                    ids.push(x.superseded_by[m].clone());
                    proof {
                        crate::json::lemma_strings_view_push(before, x.superseded_by@[m as int]);
                        assert(strings_view(x.superseded_by@).take(m + 1) =~= strings_view(x.superseded_by@).take(m as int).push(x.superseded_by@[m as int]@));
                        assert(strings_view(ids@) =~= seq![x.fact_id@] + strings_view(x.superseded_by@).take(m + 1));
                    }
                    m += 1;
                }
                assert(strings_view(x.superseded_by@).take(x.superseded_by@.len() as int) =~= strings_view(x.superseded_by@));
                let code = if x.superseded_by.len() == 0 { "temporally_ineligible" } else { "superseded" };
                push_issue(&mut issues, AuthorizationIssue {
                    code: String::from_str(code),
                    message: x.reason.clone(),
                    atom: Some(x.atom.duplicate()),
                    fact_ids: ids,
                });
                proof {
                    assert(temporal_issues(r).take(v + 1) =~= temporal_issues(r).take(v as int).push(temporal_issues(r)[v as int]));
                }
                v += 1;
            }
            assert(temporal_issues(r).take(temporal_issues(r).len() as int) =~= temporal_issues(r));
        },
        None => {
            assert(temporal_issues(r) =~= Seq::<IssueView>::empty());
        },
    }
    issues
}


/// Maps with the same keys and the same values have the same JSON form.
pub proof fn lemma_map_json_eq(a: &Bindings, b: &Bindings)
    requires
        crate::collections::strictly_sorted(a.keys()),
        crate::collections::strictly_sorted(b.keys()),
        forall|k: Seq<char>| #[trigger] a.has_key(k) <==> b.has_key(k),
        forall|k: Seq<char>| a.has_key(k) ==> (#[trigger] a.spec_get(k))->0@ == b.spec_get(k)->0@,
    ensures
        map_json(a) == map_json(b),
{
    assert forall|x: Seq<char>| a.keys().contains(x) <==> b.keys().contains(x) by {
        assert(a.has_key(x) == b.has_key(x));
    }
    crate::collections::lemma_sorted_same_members(a.keys(), b.keys());
    let va = a.entries().map_values(|e: (String, JsonValue)| e.1@);
    let vb = b.entries().map_values(|e: (String, JsonValue)| e.1@);
    assert(a.entries().len() == a.keys().len());
    assert(b.entries().len() == b.keys().len());
    assert(va =~= vb) by {
        assert forall|i: int| 0 <= i < va.len() implies va[i] == vb[i] by {
            crate::collections::lemma_entry_spec_get(a, i);
            crate::collections::lemma_entry_spec_get(b, i);
            assert(a.keys()[i] == a.entries()[i].0@);
            assert(b.keys()[i] == b.entries()[i].0@);
        }
    }
}

/// A copy of a map of bindings with the same JSON form.
pub fn clone_map(m: &Bindings) -> (r: Bindings)
    ensures
        map_json(&r) == map_json(m),
        bindings_view(&r) == bindings_view(m),
{
    let r = crate::engine::clone_bindings(m);
    proof {
        use_type_invariant(m);
        use_type_invariant(&r);
        assert forall|k: Seq<char>| #[trigger] r.has_key(k) <==> m.has_key(k) by {
            assert(bindings_view(&r).contains_key(k) == r.has_key(k));
            assert(bindings_view(m).contains_key(k) == m.has_key(k));
        }
        assert forall|k: Seq<char>| r.has_key(k) implies (#[trigger] r.spec_get(k))->0@ == m.spec_get(k)->0@ by {
            assert(bindings_view(&r)[k] == bindings_view(m)[k]);
        }
        lemma_map_json_eq(&r, m);
    }
    r
}

pub fn clone_effects(v: &Vec<ActionEffect>) -> (r: Vec<ActionEffect>)
    ensures
        effects_json(r@) == effects_json(v@),
{
    let mut out: Vec<ActionEffect> = Vec::new();
    let mut i: usize = 0;
    while i < v.len()
        invariant
            i <= v@.len(),
            out@.len() == i,
            forall|k: int| 0 <= k < i ==> effect_json(#[trigger] out@[k]) == effect_json(v@[k]),
        decreases v.len() - i,
    {
        let e = &v[i];
        let value = match &e.value {
            Some(x) => Some(crate::json::json_clone(x)),
            None => None,
        };
        out.push(ActionEffect { kind: e.kind.clone(), resource: e.resource.clone(), value });
        i += 1;
    }
    assert(effects_json(out@) =~= effects_json(v@)) by {
        assert forall|k: int| 0 <= k < out@.len() implies #[trigger] effects_json(out@)[k] == effects_json(v@)[k] by {
            assert(effect_json(out@[k]) == effect_json(v@[k]));
        }
    }
    out
}

/// The bound action of a request: its id, digest, tool, arguments, and effects.
pub open spec fn bound_action_ok(r: &ActionRequest, b: &BoundAction) -> bool {
    &&& b.id@ == r.action.id@
    &&& b.digest@ == crate::model::json_digest(action_json(&r.action))
    &&& b.tool@ == r.action.tool@
    &&& map_json(&b.arguments) == map_json(&r.action.arguments)
    &&& effects_json(b.effects@) == effects_json(r.action.effects@)
}

/// What an authorization of a request holds: the reasoning result for its
/// effective program, the decision and issues that result amounts to, and
/// the digests that bind the request, mission, and action.
pub open spec fn authorization_ok(r: &ActionRequest, a: &AuthorizationResult) -> bool {
    &&& a.schema@ == AUTHORIZATION_RESULT_SCHEMA@
    &&& exists|p: Program| #[trigger] effective_ok(r, &p) && crate::program::program_valid(&p) && crate::reasoning::check_result_ok(&p, &a.reasoning)
    &&& a.status == authorization_status_spec(a.reasoning.status)
    &&& issues_view(a.issues@) == issues_spec(&a.reasoning, a.status)
    &&& a.request_digest@ == crate::model::json_digest(request_json(r))
    &&& a.mission.id@ == r.mission.id@
    &&& a.mission.digest@ == crate::model::json_digest(mission_json(&r.mission))
    &&& bound_action_ok(r, &a.action)
}

fn bind_action(request: &ActionRequest) -> (b: BoundAction)
    ensures
        bound_action_ok(request, &b),
{
    BoundAction {
        id: request.action.id.clone(),
        digest: crate::model::digest_json(&action_to_json(&request.action)),
        tool: request.action.tool.clone(),
        arguments: clone_map(&request.action.arguments),
        effects: clone_effects(&request.action.effects),
    }
}

/// Authorizes an action: validates the request, checks its effective
/// program, and reports the decision with its issues and bindings.
pub fn authorize(request: &ActionRequest) -> (r: Result<AuthorizationResult, crate::error::ReasonError>)
    requires
        request.policy.rules@.len() * 1024 <= usize::MAX,
    ensures
        r matches Err(e) ==> (e is InvalidAction || e is InvalidProgram || e is ResourceLimit),
        !request_shape_ok(request) ==> r is Err,
        r is Err ==> !request_shape_ok(request) || (exists|p: Program| #[trigger] effective_ok(request, &p) && !crate::program::program_valid(&p))
            || r matches Err(crate::error::ReasonError::ResourceLimit),
        request_shape_ok(request) && (exists|p: Program| #[trigger] effective_ok(request, &p) && crate::program::program_valid(&p)) ==> (r is Ok
            || r matches Err(crate::error::ReasonError::ResourceLimit)),
        r matches Err(crate::error::ReasonError::ResourceLimit) ==> exists|p: Program| #[trigger] effective_ok(request, &p)
            && crate::reasoning::saturation_limited(&p),
        r matches Ok(a) ==> authorization_ok(request, &a),
        request.policy.authority.classes.has(SYSTEM_AUTHORITY@) ==> (r matches Err(crate::error::ReasonError::InvalidAction(m))
            && crate::program::message_has_line(m@, reserved_classes_line())),
        r matches Ok(a) ==> exists|p: Program|
            #[trigger] effective_ok(request, &p) && crate::reasoning::result_complete(&p, &a.reasoning) && (a.reasoning.proof is None
                ==> !crate::reasoning::derivable(&p, p.query@)),
        r matches Ok(a) ==> exists|p: Program|
            #[trigger] effective_ok(request, &p) && crate::program::program_valid(&p) && crate::reasoning::check_exact(&p, &a.reasoning),
{
    match validate_action_request(request) {
        Ok(()) => {},
        Err(e) => {
            return Err(e);
        },
    }
    let program = effective_program(request);
    assert(program.rules@.len() == request.policy.rules@.len()) by {
        assert(crate::clone::rules_view(program.rules@).len() == crate::clone::rules_view(request.policy.rules@).len());
    }
    let reasoning = match crate::reasoning::check(&program) {
        Ok(x) => x,
        Err(e) => {
            assert(effective_ok(request, &program));
            proof {
                if exists|p: Program| #[trigger] effective_ok(request, &p) && crate::program::program_valid(&p) {
                    let p = choose|p: Program| #[trigger] effective_ok(request, &p) && crate::program::program_valid(&p);
                    lemma_effective_same(request, &p, &program);
                }
            }
            return Err(e);
        },
    };
    let status = authorization_status(reasoning.status);
    let issues = authorization_issues(&reasoning, status);
    let a = AuthorizationResult {
        schema: String::from_str(AUTHORIZATION_RESULT_SCHEMA),
        status,
        request_digest: crate::model::digest_json(&request_to_json(request)),
        mission: BoundObject {
            id: request.mission.id.clone(),
            digest: crate::model::digest_json(&mission_to_json(&request.mission)),
        },
        action: bind_action(request),
        reasoning,
        issues,
    };
    assert(effective_ok(request, &program) && crate::program::program_valid(&program) && crate::reasoning::check_result_ok(&program, &a.reasoning));
    assert(effective_ok(request, &program) && crate::reasoning::result_complete(&program, &a.reasoning));
    assert(effective_ok(request, &program) && crate::program::program_valid(&program) && crate::reasoning::check_exact(&program, &a.reasoning));
    Ok(a)
}


fn opt_atom_eq(a: &Option<Atom>, b: &Option<Atom>) -> (r: bool)
    ensures
        r == (match *a { Some(x) => Some(x@), None => None::<AtomV> } == match *b { Some(x) => Some(x@), None => None::<AtomV> }),
{
    match (a, b) {
        (Some(x), Some(y)) => crate::model::atom_eq(x, y),
        (None, None) => true,
        _ => false,
    }
}

/// Whether two lists of issues have the same contents.
fn issues_eq(a: &Vec<AuthorizationIssue>, b: &Vec<AuthorizationIssue>) -> (r: bool)
    ensures
        r == (issues_view(a@) == issues_view(b@)),
{
    if a.len() != b.len() {
        assert(issues_view(a@).len() != issues_view(b@).len());
        return false;
    }
    let mut i: usize = 0;
    while i < a.len()
        invariant
            a@.len() == b@.len(),
            i <= a@.len(),
            forall|k: int| 0 <= k < i ==> issue_view(#[trigger] a@[k]) == issue_view(b@[k]),
        decreases a.len() - i,
    {
        let x = &a[i];
        let y = &b[i];
        if !(str_eq(x.code.as_str(), y.code.as_str()) && str_eq(x.message.as_str(), y.message.as_str()) && opt_atom_eq(&x.atom, &y.atom)
            && crate::compare::strings_eq(&x.fact_ids, &y.fact_ids)) {
            assert(issues_view(a@)[i as int] != issues_view(b@)[i as int]);
            return false;
        }
        i += 1;
    }
    assert(issues_view(a@) =~= issues_view(b@));
    true
}

/// What an accepted authorization holds for its request: the request is
/// well formed; the authorization binds exactly this request, mission, and
/// action; its reasoning result recomputes (same digest) from the effective
/// program, which is valid; its decision and issues are those of that
/// result; and a reasoning result that is not unknown is one the verifier
/// accepts.
pub open spec fn authorization_accepted(r: &ActionRequest, a: &AuthorizationResult) -> bool {
    &&& request_shape_ok(r)
    &&& a.schema@ == AUTHORIZATION_RESULT_SCHEMA@
    &&& a.request_digest@ == crate::model::json_digest(request_json(r))
    &&& a.mission.id@ == r.mission.id@
    &&& a.mission.digest@ == crate::model::json_digest(mission_json(&r.mission))
    &&& bound_action_ok(r, &a.action)
    &&& exists|p: Program, e: crate::reasoning::CheckResult|
        #[trigger] effective_ok(r, &p) && crate::program::program_valid(&p) && #[trigger] crate::reasoning::check_result_ok(&p, &e)
            && crate::model::json_digest(crate::result_json::check_result_json(&a.reasoning)) == crate::model::json_digest(
            crate::result_json::check_result_json(&e),
        ) && a.status == authorization_status_spec(e.status) && issues_view(a.issues@) == issues_spec(&e, a.status) && (
        a.reasoning.status != crate::reasoning::Status::Unknown ==> crate::checker::result_accepted(&p, &a.reasoning))
}

fn auth_error(text: &str) -> (e: crate::error::ReasonError)
    ensures
        e matches crate::error::ReasonError::InvalidAuthorization(m) && m@ == text@,
{
    crate::error::ReasonError::InvalidAuthorization(String::from_str(text))
}

/// The certificate replays for the request: it is well formed and binds this
/// request, mission, and action; and for the effective program of the
/// request (unique up to its contents) and the result `check` computes for
/// it, the certificate carries that result's digest and the decision and
/// issues it amounts to, and a result that is not unknown is one the proof
/// verifier accepts.
pub open spec fn authorization_replays(r: &ActionRequest, a: &AuthorizationResult) -> bool {
    &&& request_shape_ok(r)
    &&& a.schema@ == AUTHORIZATION_RESULT_SCHEMA@
    &&& a.request_digest@ == crate::model::json_digest(request_json(r))
    &&& a.mission.id@ == r.mission.id@
    &&& a.mission.digest@ == crate::model::json_digest(mission_json(&r.mission))
    &&& bound_action_ok(r, &a.action)
    &&& forall|p: Program, e: crate::reasoning::CheckResult|
        #![trigger effective_ok(r, &p), crate::reasoning::check_exact(&p, &e)]
        effective_ok(r, &p) && crate::program::program_valid(&p) && crate::reasoning::check_result_ok(&p, &e)
            && crate::reasoning::check_exact(&p, &e) ==> {
            &&& crate::model::json_digest(crate::result_json::check_result_json(&a.reasoning)) == crate::model::json_digest(
                crate::result_json::check_result_json(&e),
            )
            &&& a.status == authorization_status_spec(e.status)
            &&& issues_view(a.issues@) == issues_spec(&e, a.status)
            &&& (a.reasoning.status != crate::reasoning::Status::Unknown ==> crate::checker::result_accepted(&p, &a.reasoning)
                && crate::checker::result_dags(&a.reasoning))
        }
}

/// The certificate replays for the request in all but its decision: the
/// decision differs from the one the recomputed result amounts to.
pub open spec fn authorization_status_tampered(r: &ActionRequest, a: &AuthorizationResult) -> bool {
    &&& request_shape_ok(r)
    &&& a.schema@ == AUTHORIZATION_RESULT_SCHEMA@
    &&& a.request_digest@ == crate::model::json_digest(request_json(r))
    &&& a.mission.id@ == r.mission.id@
    &&& a.mission.digest@ == crate::model::json_digest(mission_json(&r.mission))
    &&& bound_action_ok(r, &a.action)
    &&& forall|p: Program, e: crate::reasoning::CheckResult|
        #![trigger effective_ok(r, &p), crate::reasoning::check_exact(&p, &e)]
        effective_ok(r, &p) && crate::program::program_valid(&p) && crate::reasoning::check_result_ok(&p, &e)
            && crate::reasoning::check_exact(&p, &e) ==> {
            &&& crate::model::json_digest(crate::result_json::check_result_json(&a.reasoning)) == crate::model::json_digest(
                crate::result_json::check_result_json(&e),
            )
            &&& a.status != authorization_status_spec(e.status)
            &&& (a.reasoning.status != crate::reasoning::Status::Unknown ==> crate::checker::result_accepted(&p, &a.reasoning)
                && crate::checker::result_dags(&a.reasoning))
        }
}

/// The messages of the checks that compare a certificate with the reasoning
/// recomputed from its request: a differing result digest, a reasoning
/// result the proof verifier refuses, a differing status, differing issues.
pub open spec fn recomputation_message(m: Seq<char>) -> bool {
    ||| m == "$.reasoning: result does not recompute from the request"@
    ||| exists|rest: Seq<char>| m == "$.reasoning: "@ + rest
    ||| m == "$.status: does not match the reasoning result"@
    ||| m == "$.issues: do not match the reasoning result"@
}

/// Independently verifies an authorization against its request.
pub fn verify_authorization(request: &ActionRequest, result: &AuthorizationResult) -> (r: Result<AuthorizationVerification, crate::error::ReasonError>)
    requires
        request.policy.rules@.len() * 1024 <= usize::MAX,
        crate::checker::present_nodes(&result.reasoning) <= usize::MAX,
    ensures
        r matches Err(e) ==> (e is InvalidAction || e is InvalidAuthorization || e is InvalidProgram || e is ResourceLimit),
        r matches Ok(v) ==> authorization_accepted(request, result) && v.schema@ == AUTHORIZATION_VERIFICATION_SCHEMA@
            && v.status@ == "verified"@ && v.authorization_status == result.status && v.request_digest@ == result.request_digest@
            && v.reasoning_result_digest@ == crate::model::json_digest(crate::result_json::check_result_json(&result.reasoning)),
        r is Ok && result.reasoning.status != crate::reasoning::Status::Unknown ==> crate::checker::result_dags(&result.reasoning),
        !request_shape_ok(request) ==> r matches Err(crate::error::ReasonError::InvalidAction(_)),
        request_shape_ok(request) && (exists|p: Program| #[trigger] effective_ok(request, &p) && crate::program::program_valid(&p))
            && result.schema@ != AUTHORIZATION_RESULT_SCHEMA@ ==> r matches Err(crate::error::ReasonError::InvalidAuthorization(_)),
        authorization_accepted(request, result) && r is Err ==> (r matches Err(e) && e is ResourceLimit) || (r matches Err(
            crate::error::ReasonError::InvalidAuthorization(m),
        ) && recomputation_message(m@)),
        request_shape_ok(request) && (exists|p: Program| #[trigger] effective_ok(request, &p) && crate::program::program_valid(&p))
            && result.schema@ == AUTHORIZATION_RESULT_SCHEMA@ && result.request_digest@ != crate::model::json_digest(request_json(request))
            ==> (r matches Err(crate::error::ReasonError::InvalidAuthorization(m)) && m@ == "$.request_digest: mismatch; expected "@
            + crate::model::json_digest(request_json(request))),
        (exists|p: Program| #[trigger] effective_ok(request, &p) && crate::program::program_valid(&p)) && authorization_replays(
            request,
            result,
        ) && (forall|p: Program| #[trigger] effective_ok(request, &p) ==> !crate::reasoning::saturation_limited(&p)) ==> r is Ok,
        (exists|p: Program| #[trigger] effective_ok(request, &p) && crate::program::program_valid(&p))
            && authorization_status_tampered(request, result) && (forall|p: Program|
            #[trigger] effective_ok(request, &p) ==> !crate::reasoning::saturation_limited(&p)) ==> (r matches Err(
            crate::error::ReasonError::InvalidAuthorization(m),
        ) && m@ == "$.status: does not match the reasoning result"@),
{
    let ghost accepted = authorization_accepted(request, result);
    let ghost tampered = (exists|p: Program| #[trigger] effective_ok(request, &p) && crate::program::program_valid(&p))
        && authorization_status_tampered(request, result) && (forall|p: Program|
        #[trigger] effective_ok(request, &p) ==> !crate::reasoning::saturation_limited(&p));
    let ghost replays = (exists|p: Program| #[trigger] effective_ok(request, &p) && crate::program::program_valid(&p))
        && authorization_replays(request, result) && (forall|p: Program| #[trigger] effective_ok(request, &p) ==> !crate::reasoning::saturation_limited(&p));
    match validate_action_request(request) {
        Ok(()) => {},
        Err(e) => {
            return Err(e);
        },
    }
    if !str_eq(result.schema.as_str(), AUTHORIZATION_RESULT_SCHEMA) {
        let mut out = chars_of("$.schema: expected ");
        crate::text::push_debug(&mut out, AUTHORIZATION_RESULT_SCHEMA);
        push_str(&mut out, ", got ");
        crate::text::push_debug(&mut out, result.schema.as_str());
        return Err(crate::error::ReasonError::InvalidAuthorization(message(out)));
    }
    let request_digest = crate::model::digest_json(&request_to_json(request));
    if !str_eq(result.request_digest.as_str(), request_digest.as_str()) {
        let mut out = chars_of("$.request_digest: mismatch; expected ");
        push_str(&mut out, request_digest.as_str());
        return Err(crate::error::ReasonError::InvalidAuthorization(message(out)));
    }
    let mission_digest = crate::model::digest_json(&mission_to_json(&request.mission));
    if !str_eq(result.mission.id.as_str(), request.mission.id.as_str()) || !str_eq(result.mission.digest.as_str(), mission_digest.as_str()) {
        return Err(auth_error("$.mission: identity or digest mismatch"));
    }
    let expected_action = bind_action(request);
    if !str_eq(result.action.id.as_str(), expected_action.id.as_str())
        || !str_eq(result.action.digest.as_str(), expected_action.digest.as_str())
        || !str_eq(result.action.tool.as_str(), expected_action.tool.as_str())
        || !crate::json::json_eq(&map_to_json(&result.action.arguments), &map_to_json(&expected_action.arguments))
        || !crate::json::json_eq(&effects_to_json(&result.action.effects), &effects_to_json(&expected_action.effects)) {
        return Err(auth_error("$.action: content or digest mismatch"));
    }
    let program = effective_program(request);
    assert(program.rules@.len() == request.policy.rules@.len()) by {
        assert(crate::clone::rules_view(program.rules@).len() == crate::clone::rules_view(request.policy.rules@).len());
    }
    proof {
        if accepted {
            let p0 = choose|p0: Program, e: crate::reasoning::CheckResult|
                #[trigger] effective_ok(request, &p0) && crate::program::program_valid(&p0) && #[trigger] crate::reasoning::check_result_ok(&p0, &e)
                    && crate::model::json_digest(crate::result_json::check_result_json(&result.reasoning)) == crate::model::json_digest(
                    crate::result_json::check_result_json(&e),
                ) && result.status == authorization_status_spec(e.status) && issues_view(result.issues@) == issues_spec(&e, result.status) && (
                result.reasoning.status != crate::reasoning::Status::Unknown ==> crate::checker::result_accepted(&p0, &result.reasoning));
            lemma_effective_same(request, &p0.0, &program);
        }
    }
    proof {
        if replays || tampered {
            let p0 = choose|p: Program| #[trigger] effective_ok(request, &p) && crate::program::program_valid(&p);
            lemma_effective_same(request, &p0, &program);
            assert(effective_ok(request, &program));
            assert(!crate::reasoning::saturation_limited(&program));
        }
    }
    let expected = match crate::reasoning::check(&program) {
        Ok(x) => x,
        Err(e) => {
            return Err(e);
        },
    };
    proof {
        if replays || tampered {
            assert(effective_ok(request, &program) && crate::reasoning::check_exact(&program, &expected));
        }
    }
    let expected_digest = crate::model::digest_json(&crate::result_json::check_result_to_json(&expected));
    let given_digest = crate::model::digest_json(&crate::result_json::check_result_to_json(&result.reasoning));
    if !str_eq(given_digest.as_str(), expected_digest.as_str()) {
        return Err(auth_error("$.reasoning: result does not recompute from the request"));
    }
    if result.reasoning.status != crate::reasoning::Status::Unknown {
        match crate::checker::verify(&program, &result.reasoning) {
            Ok(_) => {},
            Err(e) => {
                let mut out = chars_of("$.reasoning: ");
                let text = e.message();
                push_str(&mut out, text.as_str());
                let m = message(out);
                assert(m@ == "$.reasoning: "@ + text@);
                return Err(crate::error::ReasonError::InvalidAuthorization(m));
            },
        }
    }
    let expected_status = authorization_status(expected.status);
    if result.status != expected_status {
        return Err(auth_error("$.status: does not match the reasoning result"));
    }
    let expected_issues = authorization_issues(&expected, expected_status);
    if !issues_eq(&result.issues, &expected_issues) {
        return Err(auth_error("$.issues: do not match the reasoning result"));
    }
    proof {
        assert(effective_ok(request, &program) && crate::program::program_valid(&program) && crate::reasoning::check_result_ok(&program, &expected));
    }
    Ok(AuthorizationVerification {
        schema: String::from_str(AUTHORIZATION_VERIFICATION_SCHEMA),
        status: "verified",
        authorization_status: result.status,
        request_digest,
        reasoning_result_digest: expected_digest,
    })
}


/// A request and its authorization certificate, carried together so that an
/// enforcement point verifies both from one input.
pub struct AuthorizationBundle {
    pub schema: String,
    pub request: ActionRequest,
    pub certificate: AuthorizationResult,
}

/// Verifies an authorization bundle: its schema, then the certificate
/// against the bundled request.
pub fn verify_authorization_bundle(bundle: &AuthorizationBundle) -> (r: Result<AuthorizationVerification, crate::error::ReasonError>)
    requires
        bundle.request.policy.rules@.len() * 1024 <= usize::MAX,
        crate::checker::present_nodes(&bundle.certificate.reasoning) <= usize::MAX,
    ensures
        bundle.schema@ != AUTHORIZATION_BUNDLE_SCHEMA@ ==> (r matches Err(e) && e is InvalidAuthorization),
        r matches Err(e) ==> (e is InvalidAction || e is InvalidAuthorization || e is InvalidProgram || e is ResourceLimit),
        r matches Ok(v) ==> bundle.schema@ == AUTHORIZATION_BUNDLE_SCHEMA@ && authorization_accepted(&bundle.request, &bundle.certificate)
            && v.schema@ == AUTHORIZATION_VERIFICATION_SCHEMA@ && v.status@ == "verified"@ && v.authorization_status
            == bundle.certificate.status && v.request_digest@ == bundle.certificate.request_digest@
            && v.reasoning_result_digest@ == crate::model::json_digest(
            crate::result_json::check_result_json(&bundle.certificate.reasoning),
        ),
        r is Ok && bundle.certificate.reasoning.status != crate::reasoning::Status::Unknown ==> crate::checker::result_dags(
            &bundle.certificate.reasoning,
        ),
        bundle.schema@ == AUTHORIZATION_BUNDLE_SCHEMA@ && authorization_accepted(&bundle.request, &bundle.certificate) && r is Err
            ==> (r matches Err(e) && e is ResourceLimit) || (r matches Err(crate::error::ReasonError::InvalidAuthorization(m))
            && recomputation_message(m@)),
        bundle.schema@ == AUTHORIZATION_BUNDLE_SCHEMA@ && (exists|p: Program|
            #[trigger] effective_ok(&bundle.request, &p) && crate::program::program_valid(&p)) && authorization_replays(
            &bundle.request,
            &bundle.certificate,
        ) && (forall|p: Program| #[trigger] effective_ok(&bundle.request, &p) ==> !crate::reasoning::saturation_limited(&p))
            ==> r is Ok,
{
    if !str_eq(bundle.schema.as_str(), AUTHORIZATION_BUNDLE_SCHEMA) {
        let mut out = chars_of("$.schema: expected ");
        crate::text::push_debug(&mut out, AUTHORIZATION_BUNDLE_SCHEMA);
        push_str(&mut out, ", got ");
        crate::text::push_debug(&mut out, bundle.schema.as_str());
        return Err(crate::error::ReasonError::InvalidAuthorization(message(out)));
    }
    verify_authorization(&bundle.request, &bundle.certificate)
}


/// Reports each per-predicate admission list that names the system authority.
fn check_admission_lists(request: &ActionRequest, errors: &mut Vec<String>)
    ensures
        crate::text::grows(old(errors)@, final(errors)@),
        final(errors)@.len() >= old(errors)@.len(),
        (final(errors)@.len() == old(errors)@.len()) == forall|k: Seq<char>|
            #[trigger] request.policy.authority.predicate_admit.has_key(k) ==> !request.policy.authority.predicate_admit.spec_get(
                k,
            )->0.has(SYSTEM_AUTHORITY@),
        forall|k: Seq<char>|
            #[trigger] request.policy.authority.predicate_admit.has_key(k) && request.policy.authority.predicate_admit.spec_get(
                k,
            )->0.has(SYSTEM_AUTHORITY@) ==> crate::program::has_line(final(errors)@, reserved_admit_line(k)),
{
    let ghost errors_start = errors@;
    let m = &request.policy.authority.predicate_admit;
    proof { use_type_invariant(m); }
    let ghost start = errors@.len();
    let mut i: usize = 0;
    while i < m.len()
        invariant
            crate::text::grows(errors_start, errors@),
            m == &request.policy.authority.predicate_admit,
            crate::collections::strictly_sorted(m.keys()),
            i <= m.entries().len(),
            errors@.len() >= start,
            (errors@.len() == start) == forall|j: int| 0 <= j < i ==> !(#[trigger] m.entries()[j]).1.has(SYSTEM_AUTHORITY@),
            forall|j: int| 0 <= j < i && (#[trigger] m.entries()[j]).1.has(SYSTEM_AUTHORITY@) ==> crate::program::has_line(
                errors@,
                reserved_admit_line(m.entries()[j].0@),
            ),
        decreases m.entries().len() - i,
    {
        let ghost before = errors@;
        if m.value_at(i).contains(SYSTEM_AUTHORITY) {
            let mut out = chars_of("$.policy.authority.predicate_admit.");
            push_str(&mut out, m.key_at(i).as_str());
            push_str(&mut out, ": ");
            crate::text::push_debug(&mut out, SYSTEM_AUTHORITY);
            push_str(&mut out, " is reserved for request bindings");
            errors.push(message(out));
            assert(errors@[errors@.len() - 1]@ == reserved_admit_line(m.entries()[i as int].0@));
        }
        proof {
            assert forall|j: int| 0 <= j < i + 1 && (#[trigger] m.entries()[j]).1.has(SYSTEM_AUTHORITY@) implies crate::program::has_line(
                errors@,
                reserved_admit_line(m.entries()[j].0@),
            ) by {
                if j < i {
                    let w = choose|w: int| 0 <= w < before.len() && (#[trigger] before[w])@ == reserved_admit_line(m.entries()[j].0@);
                    assert(errors@[w] == before[w]);
                }
            }
        }
        i += 1;
    }
    proof {
        assert forall|k: Seq<char>| #[trigger] m.has_key(k) && m.spec_get(k)->0.has(SYSTEM_AUTHORITY@) implies crate::program::has_line(
            errors@,
            reserved_admit_line(k),
        ) by {
            crate::collections::lemma_spec_get_entry(m, k);
            let j = m.keys().index_of(k);
            assert(m.entries()[j].1.has(SYSTEM_AUTHORITY@));
        }
        if errors@.len() == start {
            assert forall|k: Seq<char>| #[trigger] m.has_key(k) implies !m.spec_get(k)->0.has(SYSTEM_AUTHORITY@) by {
                crate::collections::lemma_spec_get_entry(m, k);
            }
        } else {
            let j = choose|j: int| 0 <= j < i && (#[trigger] m.entries()[j]).1.has(SYSTEM_AUTHORITY@);
            crate::collections::lemma_entry_spec_get(m, j);
            let k = m.entries()[j].0@;
            assert(m.has_key(k) && m.spec_get(k)->0.has(SYSTEM_AUTHORITY@));
        }
    }
}

} // verus!
