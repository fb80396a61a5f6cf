use vstd::prelude::*;

use crate::action::{
    action_json, effects_json, map_json, map_to_json, mission_json, request_json, ActionRequest, AuthorizationBundle,
    AuthorizationIssue, AuthorizationResult, AuthorizationStatus, Mission, ProposedAction,
};
use crate::certificate::opt_members;
use crate::json::{
    array_of, json_views, lemma_json_views_push, string_value, strings_json, JsonV, JsonValue, ObjectBuilder,
};
use crate::model::{
    atom_json, facts_json, ontology_json, policy_json, rules_json, AuthorityPolicy, Fact, Ontology, Rule,
};
use crate::policy::{kind_name, scope_name, LockedPolicySource};
use crate::render::authorization_name;
use crate::action::{
    admitted_for, authorization_query_spec, declared, effective_ok, request_shape_ok, validate_action_request,
    ACTION_REQUEST_SCHEMA,
};
use crate::clone::{facts_view, rules_view};
use crate::collections::StrMap;
use crate::error::{reason_message, ReasonError};
use crate::json::{encode, encode_value};
use crate::model::Program;
use crate::action::{valid_digest, valid_digest_spec};
use crate::policy::{
    chars_utf8_longer_than, finish_validation, invalid, number_scan, portable_path_error, utf8_error_text, utf8_len, utf8_text,
    validate_canonical_json_numbers, validate_portable_path, PolicyError,
};
use crate::text::seq_lt;
use crate::text::{chars_of, debug_text, decimal, push_str, str_eq, strings_view};

verus! {

pub const POLICY_TEMPLATE_SCHEMA: &'static str = "zerker.reason.policy-template.v1";
pub const POLICY_BUNDLE_SCHEMA: &'static str = "zerker.reason.policy-bundle.v1";
pub const POLICY_BUNDLE_COMMITMENT_SCHEMA: &'static str = "zerker.reason.policy-bundle-commitment.v1";
pub const POLICY_AUTHORIZATION_INPUT_SCHEMA: &'static str = "zerker.reason.policy-authorization-input.v1";
pub const POLICY_AUTHORIZATION_SCHEMA: &'static str = "zerker.reason.policy-authorization.v1";
pub const POLICY_AUTHORIZATION_VERIFICATION_INPUT_SCHEMA: &'static str =
    "zerker.reason.policy-authorization-verification-input.v1";
pub const MAX_SOURCE_BYTES: u64 = 1048576;
pub const MAX_AGGREGATE_SOURCE_BYTES: u64 = 16777216;
pub const MAX_POLICY_TEMPLATE_BYTES: usize = 1048576;
pub const MAX_POLICY_BUNDLE_BYTES: usize = 2097152;
pub const MAX_POLICY_AUTHORIZATION_INPUT_BYTES: usize = 2097152;
pub const MAX_POLICY_AUTHORIZATION_OUTPUT_BYTES: usize = 2097152;
pub const MAX_POLICY_AUTHORIZATION_VERIFICATION_INPUT_BYTES: usize = 4194304;

/// An organization policy without a query or an evaluation time: vocabulary,
/// authority policy, facts, and rules.
pub struct PolicyTemplate {
    pub schema: String,
    pub ontology: Ontology,
    pub authority: AuthorityPolicy,
    pub facts: Vec<Fact>,
    pub rules: Vec<Rule>,
}

/// A policy template locked to the exact sources it was written from, with
/// a digest that commits to both.
pub struct PolicyBundle {
    pub schema: String,
    pub bundle_digest: String,
    pub sources: Vec<LockedPolicySource>,
    pub policy: PolicyTemplate,
}

/// A request to authorize an action under a locked policy bundle.
pub struct PolicyAuthorizationInput {
    pub schema: String,
    pub policy_bundle: PolicyBundle,
    pub evaluation_time: String,
    pub mission: Mission,
    pub action: ProposedAction,
}

/// An authorization under a policy bundle, with its summary digests.
pub struct PolicyAuthorization {
    pub schema: String,
    pub policy_bundle_digest: String,
    pub authorization_status: AuthorizationStatus,
    pub request_digest: String,
    pub reasoning_result_digest: String,
    pub authorization: AuthorizationBundle,
}

/// A policy authorization to verify against the bundle it claims.
pub struct PolicyAuthorizationVerificationInput {
    pub schema: String,
    pub policy_bundle: PolicyBundle,
    pub policy_authorization: PolicyAuthorization,
}

/// A policy template as serde writes it.
pub open spec fn template_json(t: &PolicyTemplate) -> JsonV {
    JsonV::Object(
        seq!["schema"@, "ontology"@, "authority"@, "facts"@, "rules"@],
        seq![
            JsonV::Str(t.schema@),
            ontology_json(&t.ontology),
            policy_json(&t.authority),
            JsonV::Array(facts_json(t.facts@)),
            JsonV::Array(rules_json(t.rules@)),
        ],
    )
}

pub fn template_to_json(t: &PolicyTemplate) -> (j: JsonValue)
    ensures
        j@ == template_json(t),
{
    let mut b = ObjectBuilder::new();
    b.add("schema", string_value(t.schema.as_str()));
    b.add("ontology", crate::model::ontology_to_json(&t.ontology));
    b.add("authority", crate::model::policy_to_json(&t.authority));
    b.add("facts", crate::model::facts_to_json(&t.facts));
    b.add("rules", crate::model::rules_to_json(&t.rules));
    assert(b.key_views() =~= seq!["schema"@, "ontology"@, "authority"@, "facts"@, "rules"@]);
    assert(b.value_views() =~= seq![
        JsonV::Str(t.schema@),
        ontology_json(&t.ontology),
        policy_json(&t.authority),
        JsonV::Array(facts_json(t.facts@)),
        JsonV::Array(rules_json(t.rules@)),
    ]);
    b.finish()
}

/// A locked source as serde writes it.
pub open spec fn locked_json(s: LockedPolicySource) -> JsonV {
    JsonV::Object(
        seq!["path"@, "kind"@, "scope"@, "size_bytes"@, "digest"@],
        seq![
            JsonV::Str(s.path@),
            JsonV::Str(kind_name(s.kind)),
            JsonV::Str(scope_name(s.scope)),
            JsonV::Number(decimal(s.size_bytes as nat)),
            JsonV::Str(s.digest@),
        ],
    )
}

pub open spec fn sources_json(s: Seq<LockedPolicySource>) -> Seq<JsonV> {
    s.map_values(|x: LockedPolicySource| locked_json(x))
}

fn locked_to_json(s: &LockedPolicySource) -> (j: JsonValue)
    ensures
        j@ == locked_json(*s),
{
    let mut b = ObjectBuilder::new();
    b.add("path", string_value(s.path.as_str()));
    b.add("kind", string_value(crate::policy::kind_text(s.kind)));
    b.add("scope", string_value(crate::policy::scope_text(s.scope)));
    b.add("size_bytes", JsonValue::Number(crate::text::decimal_string(s.size_bytes)));
    b.add("digest", string_value(s.digest.as_str()));
    assert(b.key_views() =~= seq!["path"@, "kind"@, "scope"@, "size_bytes"@, "digest"@]);
    assert(b.value_views() =~= seq![
        JsonV::Str(s.path@),
        JsonV::Str(kind_name(s.kind)),
        JsonV::Str(scope_name(s.scope)),
        JsonV::Number(decimal(s.size_bytes as nat)),
        JsonV::Str(s.digest@),
    ]);
    b.finish()
}

pub fn sources_to_json(s: &Vec<LockedPolicySource>) -> (j: JsonValue)
    ensures
        j@ == JsonV::Array(sources_json(s@)),
{
    let mut items: Vec<JsonValue> = Vec::new();
    let mut i: usize = 0;
    while i < s.len()
        invariant
            i <= s@.len(),
            json_views(items@) == sources_json(s@.take(i as int)),
        decreases s.len() - i,
    {
        let v = locked_to_json(&s[i]);
        proof { lemma_json_views_push(items@, v); }
        items.push(v);
        assert(sources_json(s@.take(i + 1)) =~= sources_json(s@.take(i as int)).push(locked_json(s@[i as int])));
        i += 1;
    }
    assert(s@.take(i as int) =~= s@);
    array_of(items)
}

/// A policy bundle as serde writes it.
pub open spec fn bundle_json(b: &PolicyBundle) -> JsonV {
    JsonV::Object(
        seq!["schema"@, "bundle_digest"@, "sources"@, "policy"@],
        seq![
            JsonV::Str(b.schema@),
            JsonV::Str(b.bundle_digest@),
            JsonV::Array(sources_json(b.sources@)),
            template_json(&b.policy),
        ],
    )
}

pub fn bundle_to_json(b: &PolicyBundle) -> (j: JsonValue)
    ensures
        j@ == bundle_json(b),
{
    let mut o = ObjectBuilder::new();
    o.add("schema", string_value(b.schema.as_str()));
    o.add("bundle_digest", string_value(b.bundle_digest.as_str()));
    o.add("sources", sources_to_json(&b.sources));
    o.add("policy", template_to_json(&b.policy));
    assert(o.key_views() =~= seq!["schema"@, "bundle_digest"@, "sources"@, "policy"@]);
    assert(o.value_views() =~= seq![
        JsonV::Str(b.schema@),
        JsonV::Str(b.bundle_digest@),
        JsonV::Array(sources_json(b.sources@)),
        template_json(&b.policy),
    ]);
    o.finish()
}

/// What a bundle digest commits to: the commitment schema, the locked
/// sources, and the template.
pub open spec fn commitment_json(sources: Seq<LockedPolicySource>, policy: &PolicyTemplate) -> JsonV {
    JsonV::Object(
        seq!["schema"@, "sources"@, "policy"@],
        seq![JsonV::Str(POLICY_BUNDLE_COMMITMENT_SCHEMA@), JsonV::Array(sources_json(sources)), template_json(policy)],
    )
}

/// The digest that commits a bundle to its sources and template.
pub fn policy_bundle_digest(sources: &Vec<LockedPolicySource>, policy: &PolicyTemplate) -> (d: String)
    ensures
        d@ == crate::model::json_digest(commitment_json(sources@, policy)),
{
    let mut o = ObjectBuilder::new();
    o.add("schema", string_value(POLICY_BUNDLE_COMMITMENT_SCHEMA));
    o.add("sources", sources_to_json(sources));
    o.add("policy", template_to_json(policy));
    assert(o.key_views() =~= seq!["schema"@, "sources"@, "policy"@]);
    assert(o.value_views() =~= seq![
        JsonV::Str(POLICY_BUNDLE_COMMITMENT_SCHEMA@),
        JsonV::Array(sources_json(sources@)),
        template_json(policy),
    ]);
    let j = o.finish();
    crate::model::digest_json(&j)
}

/// An authorization issue as serde writes it.
pub open spec fn issue_json(i: AuthorizationIssue) -> JsonV {
    let a = opt_members("atom"@, match i.atom { Some(x) => Some(atom_json(x@)), None => None });
    let f = crate::result_json::nonempty_strings("fact_ids"@, i.fact_ids@);
    JsonV::Object(
        seq!["code"@, "message"@] + a.0 + f.0,
        seq![JsonV::Str(i.code@), JsonV::Str(i.message@)] + a.1 + f.1,
    )
}

pub open spec fn issues_json(s: Seq<AuthorizationIssue>) -> Seq<JsonV> {
    s.map_values(|i: AuthorizationIssue| issue_json(i))
}

fn issue_to_json(i: &AuthorizationIssue) -> (j: JsonValue)
    ensures
        j@ == issue_json(*i),
{
    let mut b = ObjectBuilder::new();
    b.add("code", string_value(i.code.as_str()));
    b.add("message", string_value(i.message.as_str()));
    let ghost k0 = b.key_views();
    let ghost v0 = b.value_views();
    let atom = match &i.atom {
        Some(a) => Some(a.to_json()),
        None => None,
    };
    crate::certificate::add_opt_value(&mut b, "atom", atom);
    let ghost k1 = b.key_views();
    let ghost v1 = b.value_views();
    let ids = crate::result_json::nonempty_string_array(&i.fact_ids);
    crate::certificate::add_opt_value(&mut b, "fact_ids", ids);
    proof {
        let a = opt_members("atom"@, match &i.atom { Some(x) => Some(atom_json(x@)), None => None });
        let f = crate::result_json::nonempty_strings("fact_ids"@, i.fact_ids@);
        assert(k0 =~= seq!["code"@, "message"@]);
        assert(v0 =~= seq![JsonV::Str(i.code@), JsonV::Str(i.message@)]);
        assert(b.key_views() =~= seq!["code"@, "message"@] + a.0 + f.0);
        assert(b.value_views() =~= seq![JsonV::Str(i.code@), JsonV::Str(i.message@)] + a.1 + f.1);
    }
    b.finish()
}

fn issues_to_json(s: &Vec<AuthorizationIssue>) -> (j: JsonValue)
    ensures
        j@ == JsonV::Array(issues_json(s@)),
{
    let mut items: Vec<JsonValue> = Vec::new();
    let mut i: usize = 0;
    while i < s.len()
        invariant
            i <= s@.len(),
            json_views(items@) == issues_json(s@.take(i as int)),
        decreases s.len() - i,
    {
        let v = issue_to_json(&s[i]);
        proof { lemma_json_views_push(items@, v); }
        items.push(v);
        assert(issues_json(s@.take(i + 1)) =~= issues_json(s@.take(i as int)).push(issue_json(s@[i as int])));
        i += 1;
    }
    assert(s@.take(i as int) =~= s@);
    array_of(items)
}

/// An authorization result as serde writes it.
pub open spec fn authorization_result_json(a: &AuthorizationResult) -> JsonV {
    JsonV::Object(
        seq!["schema"@, "status"@, "request_digest"@, "mission"@, "action"@, "reasoning"@, "issues"@],
        seq![
            JsonV::Str(a.schema@),
            JsonV::Str(authorization_name(a.status)),
            JsonV::Str(a.request_digest@),
            JsonV::Object(seq!["id"@, "digest"@], seq![JsonV::Str(a.mission.id@), JsonV::Str(a.mission.digest@)]),
            JsonV::Object(
                seq!["id"@, "digest"@, "tool"@, "arguments"@, "effects"@],
                seq![
                    JsonV::Str(a.action.id@),
                    JsonV::Str(a.action.digest@),
                    JsonV::Str(a.action.tool@),
                    map_json(&a.action.arguments),
                    JsonV::Array(effects_json(a.action.effects@)),
                ],
            ),
            crate::result_json::check_result_json(&a.reasoning),
            JsonV::Array(issues_json(a.issues@)),
        ],
    )
}

pub fn authorization_result_to_json(a: &AuthorizationResult) -> (j: JsonValue)
    ensures
        j@ == authorization_result_json(a),
{
    let mut m = ObjectBuilder::new();
    m.add("id", string_value(a.mission.id.as_str()));
    m.add("digest", string_value(a.mission.digest.as_str()));
    assert(m.key_views() =~= seq!["id"@, "digest"@]);
    assert(m.value_views() =~= seq![JsonV::Str(a.mission.id@), JsonV::Str(a.mission.digest@)]);
    let mission = m.finish();
    let mut x = ObjectBuilder::new();
    x.add("id", string_value(a.action.id.as_str()));
    x.add("digest", string_value(a.action.digest.as_str()));
    x.add("tool", string_value(a.action.tool.as_str()));
    x.add("arguments", map_to_json(&a.action.arguments));
    x.add("effects", crate::action::effects_to_json(&a.action.effects));
    assert(x.key_views() =~= seq!["id"@, "digest"@, "tool"@, "arguments"@, "effects"@]);
    assert(x.value_views() =~= seq![
        JsonV::Str(a.action.id@),
        JsonV::Str(a.action.digest@),
        JsonV::Str(a.action.tool@),
        map_json(&a.action.arguments),
        JsonV::Array(effects_json(a.action.effects@)),
    ]);
    let action = x.finish();
    let mut b = ObjectBuilder::new();
    b.add("schema", string_value(a.schema.as_str()));
    b.add("status", string_value(crate::render::authorization_name_text(a.status)));
    b.add("request_digest", string_value(a.request_digest.as_str()));
    b.add("mission", mission);
    b.add("action", action);
    b.add("reasoning", crate::result_json::check_result_to_json(&a.reasoning));
    b.add("issues", issues_to_json(&a.issues));
    assert(b.key_views() =~= seq!["schema"@, "status"@, "request_digest"@, "mission"@, "action"@, "reasoning"@, "issues"@]);
    assert(b.value_views() =~= seq![
        JsonV::Str(a.schema@),
        JsonV::Str(authorization_name(a.status)),
        JsonV::Str(a.request_digest@),
        mission@,
        action@,
        crate::result_json::check_result_json(&a.reasoning),
        JsonV::Array(issues_json(a.issues@)),
    ]);
    b.finish()
}

/// An authorization bundle as serde writes it.
pub open spec fn authorization_bundle_json(b: &AuthorizationBundle) -> JsonV {
    JsonV::Object(
        seq!["schema"@, "request"@, "certificate"@],
        seq![JsonV::Str(b.schema@), request_json(&b.request), authorization_result_json(&b.certificate)],
    )
}

pub fn authorization_bundle_to_json(b: &AuthorizationBundle) -> (j: JsonValue)
    ensures
        j@ == authorization_bundle_json(b),
{
    let mut o = ObjectBuilder::new();
    o.add("schema", string_value(b.schema.as_str()));
    o.add("request", crate::action::request_to_json(&b.request));
    o.add("certificate", authorization_result_to_json(&b.certificate));
    assert(o.key_views() =~= seq!["schema"@, "request"@, "certificate"@]);
    assert(o.value_views() =~= seq![
        JsonV::Str(b.schema@),
        request_json(&b.request),
        authorization_result_json(&b.certificate),
    ]);
    o.finish()
}

/// A policy authorization as serde writes it.
pub open spec fn policy_authorization_json(a: &PolicyAuthorization) -> JsonV {
    JsonV::Object(
        seq![
            "schema"@,
            "policy_bundle_digest"@,
            "authorization_status"@,
            "request_digest"@,
            "reasoning_result_digest"@,
            "authorization"@,
        ],
        seq![
            JsonV::Str(a.schema@),
            JsonV::Str(a.policy_bundle_digest@),
            JsonV::Str(authorization_name(a.authorization_status)),
            JsonV::Str(a.request_digest@),
            JsonV::Str(a.reasoning_result_digest@),
            authorization_bundle_json(&a.authorization),
        ],
    )
}

pub fn policy_authorization_to_json(a: &PolicyAuthorization) -> (j: JsonValue)
    ensures
        j@ == policy_authorization_json(a),
{
    let mut o = ObjectBuilder::new();
    o.add("schema", string_value(a.schema.as_str()));
    o.add("policy_bundle_digest", string_value(a.policy_bundle_digest.as_str()));
    o.add("authorization_status", string_value(crate::render::authorization_name_text(a.authorization_status)));
    o.add("request_digest", string_value(a.request_digest.as_str()));
    o.add("reasoning_result_digest", string_value(a.reasoning_result_digest.as_str()));
    o.add("authorization", authorization_bundle_to_json(&a.authorization));
    assert(o.key_views() =~= seq![
        "schema"@,
        "policy_bundle_digest"@,
        "authorization_status"@,
        "request_digest"@,
        "reasoning_result_digest"@,
        "authorization"@,
    ]);
    assert(o.value_views() =~= seq![
        JsonV::Str(a.schema@),
        JsonV::Str(a.policy_bundle_digest@),
        JsonV::Str(authorization_name(a.authorization_status)),
        JsonV::Str(a.request_digest@),
        JsonV::Str(a.reasoning_result_digest@),
        authorization_bundle_json(&a.authorization),
    ]);
    o.finish()
}

/// A policy authorization input as serde writes it.
pub open spec fn authorization_input_json(i: &PolicyAuthorizationInput) -> JsonV {
    JsonV::Object(
        seq!["schema"@, "policy_bundle"@, "evaluation_time"@, "mission"@, "action"@],
        seq![
            JsonV::Str(i.schema@),
            bundle_json(&i.policy_bundle),
            JsonV::Str(i.evaluation_time@),
            mission_json(&i.mission),
            action_json(&i.action),
        ],
    )
}

pub fn authorization_input_to_json(i: &PolicyAuthorizationInput) -> (j: JsonValue)
    ensures
        j@ == authorization_input_json(i),
{
    let mut o = ObjectBuilder::new();
    o.add("schema", string_value(i.schema.as_str()));
    o.add("policy_bundle", bundle_to_json(&i.policy_bundle));
    o.add("evaluation_time", string_value(i.evaluation_time.as_str()));
    o.add("mission", crate::action::mission_to_json(&i.mission));
    o.add("action", crate::action::action_to_json(&i.action));
    assert(o.key_views() =~= seq!["schema"@, "policy_bundle"@, "evaluation_time"@, "mission"@, "action"@]);
    assert(o.value_views() =~= seq![
        JsonV::Str(i.schema@),
        bundle_json(&i.policy_bundle),
        JsonV::Str(i.evaluation_time@),
        mission_json(&i.mission),
        action_json(&i.action),
    ]);
    o.finish()
}

/// A policy authorization verification input as serde writes it.
pub open spec fn verification_input_json(i: &PolicyAuthorizationVerificationInput) -> JsonV {
    JsonV::Object(
        seq!["schema"@, "policy_bundle"@, "policy_authorization"@],
        seq![JsonV::Str(i.schema@), bundle_json(&i.policy_bundle), policy_authorization_json(&i.policy_authorization)],
    )
}

pub fn verification_input_to_json(i: &PolicyAuthorizationVerificationInput) -> (j: JsonValue)
    ensures
        j@ == verification_input_json(i),
{
    let mut o = ObjectBuilder::new();
    o.add("schema", string_value(i.schema.as_str()));
    o.add("policy_bundle", bundle_to_json(&i.policy_bundle));
    o.add("policy_authorization", policy_authorization_to_json(&i.policy_authorization));
    assert(o.key_views() =~= seq!["schema"@, "policy_bundle"@, "policy_authorization"@]);
    assert(o.value_views() =~= seq![
        JsonV::Str(i.schema@),
        bundle_json(&i.policy_bundle),
        policy_authorization_json(&i.policy_authorization),
    ]);
    o.finish()
}


pub const TEMPLATE_VALIDATION_TIME: &'static str = "9999-12-31T23:59:59Z";
pub const TEMPLATE_VALIDATION_ACTION: &'static str = "zerker.policy.template.validation";

/// `p` is the template's policy as a program v2 evaluated at `time` with the
/// query `action_authorized(action)`.
pub open spec fn template_program_ok(t: &PolicyTemplate, p: &Program, time: Seq<char>, action: Seq<char>) -> bool {
    &&& p.schema@ == crate::model::PROGRAM_SCHEMA_V2@
    &&& p.ontology.id@ == t.ontology.id@
    &&& p.ontology.version@ == t.ontology.version@
    &&& forall|k: Seq<char>| #[trigger] declared(&p.ontology.predicates, k) == declared(&t.ontology.predicates, k)
    &&& p.authority.classes.view_seq() == t.authority.classes.view_seq()
    &&& p.authority.default_admit.view_seq() == t.authority.default_admit.view_seq()
    &&& forall|k: Seq<char>| #[trigger] admitted_for(&p.authority.predicate_admit, k) == admitted_for(
        &t.authority.predicate_admit,
        k,
    )
    &&& crate::model::opt_view(p.evaluation_time) == Some(time)
    &&& facts_view(p.facts@) == facts_view(t.facts@)
    &&& rules_view(p.rules@) == rules_view(t.rules@)
    &&& p.query@ == authorization_query_spec(action)
}

/// The template's policy as a program v2 evaluated at `time` with the query
/// `action_authorized(action)`.
pub fn template_program(t: &PolicyTemplate, time: &str, action: &str) -> (p: Program)
    ensures
        template_program_ok(t, &p, time@, action@),
{
    let predicates = crate::clone::clone_predicates(&t.ontology.predicates);
    let admissions = crate::clone::clone_admissions(&t.authority.predicate_admit);
    let p = Program {
        schema: String::from_str(crate::model::PROGRAM_SCHEMA_V2),
        ontology: Ontology { id: t.ontology.id.clone(), version: t.ontology.version.clone(), predicates },
        authority: AuthorityPolicy {
            classes: crate::model::clone_set(&t.authority.classes),
            default_admit: crate::model::clone_set(&t.authority.default_admit),
            predicate_admit: admissions,
        },
        evaluation_time: Some(String::from_str(time)),
        facts: crate::clone::clone_facts(&t.facts),
        rules: crate::clone::clone_rules(&t.rules),
        query: crate::action::authorization_query(action),
    };
    proof {
        assert forall|k: Seq<char>| #[trigger] declared(&p.ontology.predicates, k) == declared(&t.ontology.predicates, k) by {}
        assert forall|k: Seq<char>| #[trigger] admitted_for(&p.authority.predicate_admit, k) == admitted_for(
            &t.authority.predicate_admit,
            k,
        ) by {}
    }
    p
}

/// The instruction digest of the request a template is validated through:
/// `sha256:` and 64 zeros.
pub open spec fn zero_digest() -> Seq<char> {
    "sha256:"@ + Seq::new(64, |i: int| '0')
}

/// The request a template is validated through: a placeholder mission and
/// action owned by the validator, and the template's policy at the latest
/// representable time.
pub open spec fn template_request_ok(t: &PolicyTemplate, r: &ActionRequest) -> bool {
    &&& r.schema@ == ACTION_REQUEST_SCHEMA@
    &&& r.mission.id@ == "zerker.policy.template.validation.mission"@
    &&& r.mission.principal@ == "zerker:policy-validator"@
    &&& r.mission.instruction_digest@ == zero_digest()
    &&& r.mission.issued_at@ == TEMPLATE_VALIDATION_TIME@
    &&& r.mission.valid_until is None
    &&& r.mission.constraints.entries().len() == 0
    &&& r.action.id@ == TEMPLATE_VALIDATION_ACTION@
    &&& r.action.tool@ == "zerker.policy.validate"@
    &&& r.action.proposed_at@ == TEMPLATE_VALIDATION_TIME@
    &&& r.action.arguments.entries().len() == 0
    &&& r.action.effects@.len() == 0
    &&& template_program_ok(t, &r.policy, TEMPLATE_VALIDATION_TIME@, TEMPLATE_VALIDATION_ACTION@)
}

/// A request passes the action validator: its shape, and a valid effective program.
pub open spec fn request_valid(r: &ActionRequest) -> bool {
    request_shape_ok(r) && exists|p: Program| #[trigger] effective_ok(r, &p) && crate::program::program_valid(&p)
}

/// A request fails the action validator: its shape, or an invalid effective program.
pub open spec fn request_invalid(r: &ActionRequest) -> bool {
    !request_shape_ok(r) || exists|p: Program| #[trigger] effective_ok(r, &p) && !crate::program::program_valid(&p)
}

/// Two action requests with the same contents: mission, action, and policy.
pub open spec fn requests_alike(q1: &ActionRequest, q2: &ActionRequest) -> bool {
    let a = q1.policy;
    let b = q2.policy;
    &&& q1.schema@ == q2.schema@
    &&& q1.mission.id@ == q2.mission.id@
    &&& q1.mission.principal@ == q2.mission.principal@
    &&& q1.mission.instruction_digest@ == q2.mission.instruction_digest@
    &&& q1.mission.issued_at@ == q2.mission.issued_at@
    &&& crate::model::opt_view(q1.mission.valid_until) == crate::model::opt_view(q2.mission.valid_until)
    &&& map_json(&q1.mission.constraints) == map_json(&q2.mission.constraints)
    &&& q1.action.id@ == q2.action.id@
    &&& q1.action.tool@ == q2.action.tool@
    &&& q1.action.proposed_at@ == q2.action.proposed_at@
    &&& map_json(&q1.action.arguments) == map_json(&q2.action.arguments)
    &&& effects_json(q1.action.effects@) == effects_json(q2.action.effects@)
    &&& a.schema@ == b.schema@
    &&& a.ontology.id@ == b.ontology.id@
    &&& a.ontology.version@ == b.ontology.version@
    &&& forall|k: Seq<char>| #[trigger] declared(&a.ontology.predicates, k) == declared(&b.ontology.predicates, k)
    &&& a.authority.classes.view_seq() == b.authority.classes.view_seq()
    &&& a.authority.default_admit.view_seq() == b.authority.default_admit.view_seq()
    &&& forall|k: Seq<char>| #[trigger] admitted_for(&a.authority.predicate_admit, k) == admitted_for(&b.authority.predicate_admit, k)
    &&& crate::model::opt_view(a.evaluation_time) == crate::model::opt_view(b.evaluation_time)
    &&& facts_view(a.facts@) == facts_view(b.facts@)
    &&& rules_view(a.rules@) == rules_view(b.rules@)
    &&& a.query@ == b.query@
}

/// Requests with the same contents agree on shape.
proof fn lemma_requests_shape(q1: &ActionRequest, q2: &ActionRequest)
    requires
        requests_alike(q1, q2),
    ensures
        request_shape_ok(q1) == request_shape_ok(q2),
{
    let a = q1.policy;
    let b = q2.policy;
    assert(facts_view(a.facts@).len() == a.facts@.len() && facts_view(b.facts@).len() == b.facts@.len());
    assert(rules_view(a.rules@).len() == a.rules@.len() && rules_view(b.rules@).len() == b.rules@.len());
    assert forall|x: Seq<char>| #[trigger] a.authority.classes.has(x) == b.authority.classes.has(x) by {}
    assert forall|x: Seq<char>| #[trigger] a.authority.default_admit.has(x) == b.authority.default_admit.has(x) by {}
    lemma_same_bindings(&q1.mission.constraints, &q2.mission.constraints);
    lemma_same_bindings(&q1.action.arguments, &q2.action.arguments);
    lemma_same_effects(q1.action.effects@, q2.action.effects@);
    assert forall|k: Seq<char>| #[trigger] a.authority.predicate_admit.has_key(k) == b.authority.predicate_admit.has_key(k) && (
    a.authority.predicate_admit.has_key(k) ==> a.authority.predicate_admit.spec_get(k)->0.has(crate::action::SYSTEM_AUTHORITY@)
        == b.authority.predicate_admit.spec_get(k)->0.has(crate::action::SYSTEM_AUTHORITY@)) by {
        assert(admitted_for(&a.authority.predicate_admit, k) == admitted_for(&b.authority.predicate_admit, k));
    }
    assert forall|k: Seq<char>| #[trigger] a.ontology.predicates.has_key(k) == b.ontology.predicates.has_key(k) by {
        assert(declared(&a.ontology.predicates, k) == declared(&b.ontology.predicates, k));
    }
    assert forall|j: int| 0 <= j < a.facts@.len() implies #[trigger] crate::clone::fact_view(a.facts@[j]) == crate::clone::fact_view(
        b.facts@[j],
    ) by {
        assert(facts_view(a.facts@)[j] == facts_view(b.facts@)[j]);
    }
    assert forall|j: int| 0 <= j < a.rules@.len() implies #[trigger] crate::clone::rule_view(a.rules@[j]) == crate::clone::rule_view(
        b.rules@[j],
    ) by {
        assert(rules_view(a.rules@)[j] == rules_view(b.rules@)[j]);
    }
    assert(q1.mission.id@ == q2.mission.id@ && q1.mission.principal@ == q2.mission.principal@);
    assert(q1.action.id@ == q2.action.id@ && q1.action.tool@ == q2.action.tool@);
    if forall|k: Seq<char>| #[trigger] q1.mission.constraints.has_key(k) ==> !crate::text::is_blank(k) {
        assert forall|k: Seq<char>| #[trigger] q2.mission.constraints.has_key(k) implies !crate::text::is_blank(k) by {
            assert(q1.mission.constraints.has_key(k) == q2.mission.constraints.has_key(k));
        }
    }
    if forall|k: Seq<char>| #[trigger] q2.mission.constraints.has_key(k) ==> !crate::text::is_blank(k) {
        assert forall|k: Seq<char>| #[trigger] q1.mission.constraints.has_key(k) implies !crate::text::is_blank(k) by {
            assert(q1.mission.constraints.has_key(k) == q2.mission.constraints.has_key(k));
        }
    }
    assert((forall|k: Seq<char>| #[trigger] q1.mission.constraints.has_key(k) ==> !crate::text::is_blank(k)) == (forall|k: Seq<char>|
        #[trigger] q2.mission.constraints.has_key(k) ==> !crate::text::is_blank(k)));
    if forall|k: Seq<char>| #[trigger] q1.action.arguments.has_key(k) ==> !crate::text::is_blank(k) {
        assert forall|k: Seq<char>| #[trigger] q2.action.arguments.has_key(k) implies !crate::text::is_blank(k) by {
            assert(q1.action.arguments.has_key(k) == q2.action.arguments.has_key(k));
        }
    }
    if forall|k: Seq<char>| #[trigger] q2.action.arguments.has_key(k) ==> !crate::text::is_blank(k) {
        assert forall|k: Seq<char>| #[trigger] q1.action.arguments.has_key(k) implies !crate::text::is_blank(k) by {
            assert(q1.action.arguments.has_key(k) == q2.action.arguments.has_key(k));
        }
    }
    assert((forall|k: Seq<char>| #[trigger] q1.action.arguments.has_key(k) ==> !crate::text::is_blank(k)) == (forall|k: Seq<char>|
        #[trigger] q2.action.arguments.has_key(k) ==> !crate::text::is_blank(k)));
    assert(a.schema@ == b.schema@);
    assert(a.authority.classes.has(crate::action::SYSTEM_AUTHORITY@) == b.authority.classes.has(crate::action::SYSTEM_AUTHORITY@));
    assert(a.authority.default_admit.has(crate::action::SYSTEM_AUTHORITY@) == b.authority.default_admit.has(crate::action::SYSTEM_AUTHORITY@));
    let pa1 = forall|k: Seq<char>| #[trigger] a.authority.predicate_admit.has_key(k) ==> !a.authority.predicate_admit.spec_get(
        k,
    )->0.has(crate::action::SYSTEM_AUTHORITY@);
    let pa2 = forall|k: Seq<char>| #[trigger] b.authority.predicate_admit.has_key(k) ==> !b.authority.predicate_admit.spec_get(
        k,
    )->0.has(crate::action::SYSTEM_AUTHORITY@);
    if pa1 {
        assert forall|k: Seq<char>| #[trigger] b.authority.predicate_admit.has_key(k) implies !b.authority.predicate_admit.spec_get(
            k,
        )->0.has(crate::action::SYSTEM_AUTHORITY@) by {
            assert(admitted_for(&a.authority.predicate_admit, k) == admitted_for(&b.authority.predicate_admit, k));
            assert(a.authority.predicate_admit.has_key(k));
        }
    }
    if pa2 {
        assert forall|k: Seq<char>| #[trigger] a.authority.predicate_admit.has_key(k) implies !a.authority.predicate_admit.spec_get(
            k,
        )->0.has(crate::action::SYSTEM_AUTHORITY@) by {
            assert(admitted_for(&a.authority.predicate_admit, k) == admitted_for(&b.authority.predicate_admit, k));
            assert(b.authority.predicate_admit.has_key(k));
        }
    }
    assert(pa1 == pa2);
    let rs1 = forall|i: int| 0 <= i < 9 ==> !a.ontology.predicates.has_key(#[trigger] crate::action::reserved_entry(i).0)
        && !a.authority.predicate_admit.has_key(crate::action::reserved_entry(i).0);
    let rs2 = forall|i: int| 0 <= i < 9 ==> !b.ontology.predicates.has_key(#[trigger] crate::action::reserved_entry(i).0)
        && !b.authority.predicate_admit.has_key(crate::action::reserved_entry(i).0);
    assert(rs1 == rs2);
    let fs1 = forall|j: int| 0 <= j < a.facts@.len() ==> {
        let f = #[trigger] a.facts@[j];
        &&& !crate::action::is_reserved(f.atom.predicate@)
        &&& !crate::action::has_prefix(f.id@, crate::action::SYSTEM_FACT_PREFIX@)
        &&& f.authority@ != crate::action::SYSTEM_AUTHORITY@
    };
    let fs2 = forall|j: int| 0 <= j < b.facts@.len() ==> {
        let f = #[trigger] b.facts@[j];
        &&& !crate::action::is_reserved(f.atom.predicate@)
        &&& !crate::action::has_prefix(f.id@, crate::action::SYSTEM_FACT_PREFIX@)
        &&& f.authority@ != crate::action::SYSTEM_AUTHORITY@
    };
    if fs1 {
        assert forall|j: int| 0 <= j < b.facts@.len() implies {
            let f = #[trigger] b.facts@[j];
            &&& !crate::action::is_reserved(f.atom.predicate@)
            &&& !crate::action::has_prefix(f.id@, crate::action::SYSTEM_FACT_PREFIX@)
            &&& f.authority@ != crate::action::SYSTEM_AUTHORITY@
        } by {
            assert(crate::clone::fact_view(a.facts@[j]) == crate::clone::fact_view(b.facts@[j]));
            assert(a.facts@[j].atom@.predicate == b.facts@[j].atom@.predicate);
        }
    }
    if fs2 {
        assert forall|j: int| 0 <= j < a.facts@.len() implies {
            let f = #[trigger] a.facts@[j];
            &&& !crate::action::is_reserved(f.atom.predicate@)
            &&& !crate::action::has_prefix(f.id@, crate::action::SYSTEM_FACT_PREFIX@)
            &&& f.authority@ != crate::action::SYSTEM_AUTHORITY@
        } by {
            assert(crate::clone::fact_view(a.facts@[j]) == crate::clone::fact_view(b.facts@[j]));
            assert(a.facts@[j].atom@.predicate == b.facts@[j].atom@.predicate);
        }
    }
    let hs1 = forall|j: int| 0 <= j < a.rules@.len() ==> crate::action::is_reserved((#[trigger] a.rules@[j]).head.predicate@)
        ==> a.rules@[j].head.predicate@ == crate::action::AUTHORIZATION_PREDICATE@;
    let hs2 = forall|j: int| 0 <= j < b.rules@.len() ==> crate::action::is_reserved((#[trigger] b.rules@[j]).head.predicate@)
        ==> b.rules@[j].head.predicate@ == crate::action::AUTHORIZATION_PREDICATE@;
    if hs1 {
        assert forall|j: int| 0 <= j < b.rules@.len() && crate::action::is_reserved((#[trigger] b.rules@[j]).head.predicate@) implies b.rules@[j].head.predicate@
            == crate::action::AUTHORIZATION_PREDICATE@ by {
            assert(crate::clone::rule_view(a.rules@[j]) == crate::clone::rule_view(b.rules@[j]));
            assert(a.rules@[j].head@.predicate == b.rules@[j].head@.predicate);
        }
    }
    if hs2 {
        assert forall|j: int| 0 <= j < a.rules@.len() && crate::action::is_reserved((#[trigger] a.rules@[j]).head.predicate@) implies a.rules@[j].head.predicate@
            == crate::action::AUTHORIZATION_PREDICATE@ by {
            assert(crate::clone::rule_view(a.rules@[j]) == crate::clone::rule_view(b.rules@[j]));
            assert(a.rules@[j].head@.predicate == b.rules@[j].head@.predicate);
        }
    }
    assert(fs1 == fs2);
    assert(hs1 == hs2);
    let es1 = forall|i: int| 0 <= i < q1.action.effects@.len() ==> !crate::text::is_blank((#[trigger] q1.action.effects@[i]).kind@)
        && !crate::text::is_blank(q1.action.effects@[i].resource@);
    let es2 = forall|i: int| 0 <= i < q2.action.effects@.len() ==> !crate::text::is_blank((#[trigger] q2.action.effects@[i]).kind@)
        && !crate::text::is_blank(q2.action.effects@[i].resource@);
    if es1 {
        assert forall|i: int| 0 <= i < q2.action.effects@.len() implies !crate::text::is_blank((#[trigger] q2.action.effects@[i]).kind@)
            && !crate::text::is_blank(q2.action.effects@[i].resource@) by {
            assert(q1.action.effects@[i].kind@ == q2.action.effects@[i].kind@);
        }
    }
    if es2 {
        assert forall|i: int| 0 <= i < q1.action.effects@.len() implies !crate::text::is_blank((#[trigger] q1.action.effects@[i]).kind@)
            && !crate::text::is_blank(q1.action.effects@[i].resource@) by {
            assert(q1.action.effects@[i].kind@ == q2.action.effects@[i].kind@);
        }
    }
    assert(es1 == es2);
    assert(request_shape_ok(q1) == request_shape_ok(q2));
}

/// Requests with the same contents agree on shape, and their effective
/// programs have the same contents.
proof fn lemma_requests_agree(q1: &ActionRequest, q2: &ActionRequest, p1: &Program, p2: &Program)
    requires
        requests_alike(q1, q2),
        effective_ok(q1, p1),
        effective_ok(q2, p2),
    ensures
        request_shape_ok(q1) == request_shape_ok(q2),
        crate::program::program_valid(p1) == crate::program::program_valid(p2),
{
    let a = q1.policy;
    let b = q2.policy;
    lemma_requests_shape(q1, q2);
    lemma_same_bindings(&q1.mission.constraints, &q2.mission.constraints);
    lemma_same_bindings(&q1.action.arguments, &q2.action.arguments);
    lemma_same_effects(q1.action.effects@, q2.action.effects@);
    assert forall|x: Seq<char>| #[trigger] a.authority.classes.has(x) == b.authority.classes.has(x) by {}
    assert(crate::action::system_facts(q1) == crate::action::system_facts(q2)) by {
        crate::action::lemma_system_facts(q1);
        crate::action::lemma_system_facts(q2);
        assert(crate::action::constraint_facts(q1) =~= crate::action::constraint_facts(q2)) by {
            assert forall|i: int| 0 <= i < q1.mission.constraints.entries().len() implies #[trigger] crate::action::constraint_facts(q1)[i]
                == crate::action::constraint_facts(q2)[i] by {
                assert(q1.mission.constraints.entries()[i].0@ == q2.mission.constraints.entries()[i].0@);
            }
        }
        assert(crate::action::argument_facts(q1) =~= crate::action::argument_facts(q2)) by {
            assert forall|i: int| 0 <= i < q1.action.arguments.entries().len() implies #[trigger] crate::action::argument_facts(q1)[i]
                == crate::action::argument_facts(q2)[i] by {
                assert(q1.action.arguments.entries()[i].0@ == q2.action.arguments.entries()[i].0@);
            }
        }
        assert(crate::action::effect_facts(q1) =~= crate::action::effect_facts(q2)) by {
            assert forall|i: int| 0 <= i < q1.action.effects@.len() implies #[trigger] crate::action::effect_facts(q1)[i]
                == crate::action::effect_facts(q2)[i] by {
                assert(q1.action.effects@[i].kind@ == q2.action.effects@[i].kind@);
            }
        }
    }
    assert forall|k: Seq<char>| #[trigger] declared(&p1.ontology.predicates, k) == declared(&p2.ontology.predicates, k) by {
        assert(declared(&a.ontology.predicates, k) == declared(&b.ontology.predicates, k));
    }
    assert forall|x: Seq<char>| #[trigger] p1.authority.classes.has(x) <==> p2.authority.classes.has(x) by {
        assert(a.authority.classes.has(x) == b.authority.classes.has(x));
    }
    assert forall|k: Seq<char>| #[trigger] admitted_for(&p1.authority.predicate_admit, k) == admitted_for(&p2.authority.predicate_admit, k) by {
        assert(admitted_for(&a.authority.predicate_admit, k) == admitted_for(&b.authority.predicate_admit, k));
    }
    assert(crate::program::same_views(p1, p2));
    crate::program::lemma_valid_same_views(p1, p2);
}


/// Two validation requests for the same template have the same contents.
proof fn lemma_template_requests_alike(t: &PolicyTemplate, q1: &ActionRequest, q2: &ActionRequest)
    requires
        template_request_ok(t, q1),
        template_request_ok(t, q2),
    ensures
        requests_alike(q1, q2),
{
    assert(q1.mission.constraints.keys().len() == 0 && q2.mission.constraints.keys().len() == 0);
    assert(q1.action.arguments.keys().len() == 0 && q2.action.arguments.keys().len() == 0);
    assert(map_json(&q1.mission.constraints) == map_json(&q2.mission.constraints)) by {
        assert(q1.mission.constraints.keys() =~= q2.mission.constraints.keys());
        assert(q1.mission.constraints.entries().map_values(|e: (String, JsonValue)| e.1@) =~= q2.mission.constraints.entries().map_values(
            |e: (String, JsonValue)| e.1@,
        ));
    }
    assert(map_json(&q1.action.arguments) == map_json(&q2.action.arguments)) by {
        assert(q1.action.arguments.keys() =~= q2.action.arguments.keys());
        assert(q1.action.arguments.entries().map_values(|e: (String, JsonValue)| e.1@) =~= q2.action.arguments.entries().map_values(
            |e: (String, JsonValue)| e.1@,
        ));
    }
    assert(effects_json(q1.action.effects@) =~= effects_json(q2.action.effects@));
}

/// Two expansions of a bundle for the same mission, action, and time have the same contents.
proof fn lemma_expansions_alike(
    bundle: &PolicyBundle,
    time: Seq<char>,
    mission: &Mission,
    action: &ProposedAction,
    q1: &ActionRequest,
    q2: &ActionRequest,
)
    requires
        expansion_ok(bundle, time, mission, action, q1),
        expansion_ok(bundle, time, mission, action, q2),
    ensures
        requests_alike(q1, q2),
{
}

/// An expansion that the action validator accepts is not one it refuses.
proof fn lemma_expansion_valid_not_invalid(
    bundle: &PolicyBundle,
    time: Seq<char>,
    mission: &Mission,
    action: &ProposedAction,
    q1: &ActionRequest,
    q2: &ActionRequest,
)
    requires
        expansion_ok(bundle, time, mission, action, q1),
        expansion_ok(bundle, time, mission, action, q2),
        request_valid(q1),
    ensures
        !request_invalid(q2),
{
    lemma_expansions_alike(bundle, time, mission, action, q1, q2);
    let p1 = choose|p: Program| #[trigger] effective_ok(q1, &p) && crate::program::program_valid(&p);
    assert(effective_ok(q1, &p1) && crate::program::program_valid(&p1));
    lemma_requests_shape(q1, q2);
    if exists|p: Program| #[trigger] effective_ok(q2, &p) && !crate::program::program_valid(&p) {
        let p2 = choose|p: Program| #[trigger] effective_ok(q2, &p) && !crate::program::program_valid(&p);
        assert(effective_ok(q2, &p2) && !crate::program::program_valid(&p2));
        lemma_requests_agree(q1, q2, &p1, &p2);
    }
}

/// A template the validator accepts is not one it rejects.
pub proof fn lemma_template_accepted_not_rejected(t: &PolicyTemplate)
    requires
        template_accepted(t),
    ensures
        !template_rejected(t),
{
    let q1 = choose|q: ActionRequest| #[trigger] template_request_ok(t, &q) && request_valid(&q);
    assert(template_request_ok(t, &q1) && request_valid(&q1));
    let p1 = choose|p: Program| #[trigger] effective_ok(&q1, &p) && crate::program::program_valid(&p);
    assert(effective_ok(&q1, &p1) && crate::program::program_valid(&p1));
    if exists|q: ActionRequest| #[trigger] template_request_ok(t, &q) && request_invalid(&q) {
        let q2 = choose|q: ActionRequest| #[trigger] template_request_ok(t, &q) && request_invalid(&q);
        assert(template_request_ok(t, &q2) && request_invalid(&q2));
        if request_shape_ok(&q2) {
            let p2 = choose|p: Program| #[trigger] effective_ok(&q2, &p) && !crate::program::program_valid(&p);
            assert(effective_ok(&q2, &p2) && !crate::program::program_valid(&p2));
            lemma_template_requests_alike(t, &q1, &q2);
            lemma_requests_agree(&q1, &q2, &p1, &p2);
        } else {
            lemma_template_requests_alike(t, &q1, &q2);
            lemma_requests_shape(&q1, &q2);
        }
    }
}

/// Bindings that serialise alike hold the same entries.
proof fn lemma_same_bindings(a: &crate::engine::Bindings, b: &crate::engine::Bindings)
    requires
        map_json(a) == map_json(b),
    ensures
        a.entries().len() == b.entries().len(),
        forall|i: int| 0 <= i < a.entries().len() ==> (#[trigger] a.entries()[i]).0@ == b.entries()[i].0@ && a.entries()[i].1@
            == b.entries()[i].1@,
        forall|k: Seq<char>| #[trigger] a.has_key(k) == b.has_key(k),
{
    let va = a.entries().map_values(|e: (String, JsonValue)| e.1@);
    let vb = b.entries().map_values(|e: (String, JsonValue)| e.1@);
    assert(a.keys() == b.keys() && va == vb);
    assert(a.keys().len() == a.entries().len() && b.keys().len() == b.entries().len());
    assert forall|i: int| 0 <= i < a.entries().len() implies (#[trigger] a.entries()[i]).0@ == b.entries()[i].0@ && a.entries()[i].1@
        == b.entries()[i].1@ by {
        assert(a.keys()[i] == b.keys()[i]);
        assert(va[i] == vb[i]);
    }
}

/// Effects that serialise alike have the same kinds, resources, and values.
proof fn lemma_same_effects(a: Seq<crate::action::ActionEffect>, b: Seq<crate::action::ActionEffect>)
    requires
        effects_json(a) == effects_json(b),
    ensures
        a.len() == b.len(),
        forall|i: int| 0 <= i < a.len() ==> (#[trigger] a[i]).kind@ == b[i].kind@ && a[i].resource@ == b[i].resource@ && (match a[i].value {
            Some(x) => Some(x@),
            None => None::<JsonV>,
        }) == (match b[i].value {
            Some(x) => Some(x@),
            None => None::<JsonV>,
        }),
{
    assert(effects_json(a).len() == a.len() && effects_json(b).len() == b.len());
    assert forall|i: int| 0 <= i < a.len() implies (#[trigger] a[i]).kind@ == b[i].kind@ && a[i].resource@ == b[i].resource@ && (match a[i].value {
        Some(x) => Some(x@),
        None => None::<JsonV>,
    }) == (match b[i].value {
        Some(x) => Some(x@),
        None => None::<JsonV>,
    }) by {
        let ja = crate::action::effect_json(a[i]);
        let jb = crate::action::effect_json(b[i]);
        assert(effects_json(a)[i] == effects_json(b)[i]);
        assert(effects_json(a)[i] == ja);
        assert(effects_json(b)[i] == jb);
        assert(ja->Object_0.len() == jb->Object_0.len());
        assert(ja->Object_1[0] == jb->Object_1[0]);
        assert(ja->Object_1[1] == jb->Object_1[1]);
        if a[i].value is Some {
            assert(ja->Object_1[2] == jb->Object_1[2]);
        }
    }
}

fn zero_digest_text() -> (s: String)
    ensures
        s@ == zero_digest(),
{
    let mut out = chars_of("sha256:");
    let ghost start = out@;
    let mut i: usize = 0;
    while i < 64
        invariant
            i <= 64,
            out@ == start + Seq::new(i as nat, |k: int| '0'),
        decreases 64 - i,
    {
        out.push('0');
        assert(out@ =~= start + Seq::new((i + 1) as nat, |k: int| '0'));
        i += 1;
    }
    crate::text::string_from_chars(out.as_slice())
}

/// The request a template is validated through.
pub fn template_request(t: &PolicyTemplate) -> (r: ActionRequest)
    ensures
        template_request_ok(t, &r),
{
    let constraints: crate::engine::Bindings = StrMap::new();
    let arguments: crate::engine::Bindings = StrMap::new();
    ActionRequest {
        schema: String::from_str(ACTION_REQUEST_SCHEMA),
        mission: Mission {
            id: String::from_str("zerker.policy.template.validation.mission"),
            principal: String::from_str("zerker:policy-validator"),
            instruction_digest: zero_digest_text(),
            issued_at: String::from_str(TEMPLATE_VALIDATION_TIME),
            valid_until: None,
            constraints,
        },
        action: ProposedAction {
            id: String::from_str(TEMPLATE_VALIDATION_ACTION),
            tool: String::from_str("zerker.policy.validate"),
            proposed_at: String::from_str(TEMPLATE_VALIDATION_TIME),
            arguments,
            effects: Vec::new(),
        },
        policy: template_program(t, TEMPLATE_VALIDATION_TIME, TEMPLATE_VALIDATION_ACTION),
    }
}

/// Checks a policy template: its serialized size, its schema, and then every
/// program, temporal, authority, and reserved-namespace rule of the action
/// validator, applied to the template through a placeholder request.
pub fn validate_policy_template(policy: &PolicyTemplate) -> (r: Result<(), PolicyError>)
    ensures
        utf8_len(encode(template_json(policy))) > MAX_POLICY_TEMPLATE_BYTES ==> (r matches Err(PolicyError::Invalid(m))
            && m@ == "$: serialized policy template exceeds the 1048576-byte limit"@),
        utf8_len(encode(template_json(policy))) <= MAX_POLICY_TEMPLATE_BYTES && policy.schema@ != POLICY_TEMPLATE_SCHEMA@ ==> (
        r matches Err(PolicyError::Invalid(m)) && m@ == "$.schema: expected "@ + debug_text(POLICY_TEMPLATE_SCHEMA@) + ", got "@
            + debug_text(policy.schema@)),
        utf8_len(encode(template_json(policy))) <= MAX_POLICY_TEMPLATE_BYTES && policy.schema@ == POLICY_TEMPLATE_SCHEMA@
            ==> exists|q: ActionRequest|
            #[trigger] template_request_ok(policy, &q) && (r is Ok ==> request_valid(&q)) && (r is Err ==> request_invalid(&q))
                && (r matches Err(e) ==> (e matches PolicyError::Invalid(m) && exists|a: ReasonError|
                a is InvalidAction && m@ == "$.policy: "@ + reason_message(a))),
        r is Ok <==> template_accepted(policy),
        utf8_len(encode(template_json(policy))) <= MAX_POLICY_TEMPLATE_BYTES && policy.schema@ == POLICY_TEMPLATE_SCHEMA@
            && policy.authority.classes.has(crate::action::SYSTEM_AUTHORITY@) ==> (r matches Err(PolicyError::Invalid(m)) && exists|
            x: Seq<char>,
        |
            m@ == "$.policy: "@ + ("invalid action authorization request:\n"@ + x) && crate::program::message_has_line(
                x,
                crate::action::reserved_classes_line(),
            )),
        utf8_len(encode(template_json(policy))) <= MAX_POLICY_TEMPLATE_BYTES && policy.schema@ == POLICY_TEMPLATE_SCHEMA@
            && policy.authority.default_admit.has(crate::action::SYSTEM_AUTHORITY@) ==> (r matches Err(PolicyError::Invalid(m))
            && exists|x: Seq<char>|
            m@ == "$.policy: "@ + ("invalid action authorization request:\n"@ + x) && crate::program::message_has_line(
                x,
                crate::action::reserved_default_line(),
            )),
        forall|k: Seq<char>|
            utf8_len(encode(template_json(policy))) <= MAX_POLICY_TEMPLATE_BYTES && policy.schema@ == POLICY_TEMPLATE_SCHEMA@
                && #[trigger] policy.authority.predicate_admit.has_key(k) && policy.authority.predicate_admit.spec_get(k)->0.has(
                crate::action::SYSTEM_AUTHORITY@,
            ) ==> (r matches Err(PolicyError::Invalid(m)) && exists|x: Seq<char>|
                m@ == "$.policy: "@ + ("invalid action authorization request:\n"@ + x) && crate::program::message_has_line(
                    x,
                    crate::action::reserved_admit_line(k),
                )),
{
    let json = template_to_json(policy);
    let text = encode_value(&json);
    if chars_utf8_longer_than(&text, 1048576) {
        return invalid(String::from_str("$: serialized policy template exceeds the 1048576-byte limit"));
    }
    if !str_eq(policy.schema.as_str(), POLICY_TEMPLATE_SCHEMA) {
        let mut out = chars_of("$.schema: expected ");
        crate::text::push_debug(&mut out, POLICY_TEMPLATE_SCHEMA);
        push_str(&mut out, ", got ");
        crate::text::push_debug(&mut out, policy.schema.as_str());
        return invalid(crate::text::string_from_chars(out.as_slice()));
    }
    let request = template_request(policy);
    proof {
        assert forall|k: Seq<char>|
            #[trigger] policy.authority.predicate_admit.has_key(k) && policy.authority.predicate_admit.spec_get(k)->0.has(
                crate::action::SYSTEM_AUTHORITY@,
            ) implies request.policy.authority.predicate_admit.has_key(k) && request.policy.authority.predicate_admit.spec_get(
                k,
            )->0.has(crate::action::SYSTEM_AUTHORITY@) by {
            assert(crate::action::admitted_for(&request.policy.authority.predicate_admit, k) == crate::action::admitted_for(
                &policy.authority.predicate_admit,
                k,
            ));
        }
    }
    match validate_action_request(&request) {
        Ok(()) => {
            assert(template_request_ok(policy, &request) && request_valid(&request));
            Ok(())
        },
        Err(e) => {
            proof {
                assert(template_request_ok(policy, &request) && request_invalid(&request));
                if template_accepted(policy) {
                    lemma_template_accepted_not_rejected(policy);
                }
            }
            let mut out = chars_of("$.policy: ");
            let m = e.message();
            push_str(&mut out, m.as_str());
            proof {
                if let crate::error::ReasonError::InvalidAction(x) = e {
                    assert(m@ == "invalid action authorization request:\n"@ + x@);
                }
            }
            invalid(crate::text::string_from_chars(out.as_slice()))
        },
    }
}


/// `a` is a copy of `b`.
pub open spec fn mission_same(a: &Mission, b: &Mission) -> bool {
    &&& a.id@ == b.id@
    &&& a.principal@ == b.principal@
    &&& a.instruction_digest@ == b.instruction_digest@
    &&& a.issued_at@ == b.issued_at@
    &&& crate::model::opt_view(a.valid_until) == crate::model::opt_view(b.valid_until)
    &&& map_json(&a.constraints) == map_json(&b.constraints)
    &&& crate::engine::bindings_view(&a.constraints) == crate::engine::bindings_view(&b.constraints)
}

/// `a` is a copy of `b`.
pub open spec fn action_same(a: &ProposedAction, b: &ProposedAction) -> bool {
    &&& a.id@ == b.id@
    &&& a.tool@ == b.tool@
    &&& a.proposed_at@ == b.proposed_at@
    &&& map_json(&a.arguments) == map_json(&b.arguments)
    &&& crate::engine::bindings_view(&a.arguments) == crate::engine::bindings_view(&b.arguments)
    &&& effects_json(a.effects@) == effects_json(b.effects@)
}

fn copy_mission(m: &Mission) -> (c: Mission)
    ensures
        mission_same(&c, m),
{
    Mission {
        id: m.id.clone(),
        principal: m.principal.clone(),
        instruction_digest: m.instruction_digest.clone(),
        issued_at: m.issued_at.clone(),
        valid_until: crate::model::clone_opt_string(&m.valid_until),
        constraints: crate::action::clone_map(&m.constraints),
    }
}

fn copy_action(a: &ProposedAction) -> (c: ProposedAction)
    ensures
        action_same(&c, a),
{
    ProposedAction {
        id: a.id.clone(),
        tool: a.tool.clone(),
        proposed_at: a.proposed_at.clone(),
        arguments: crate::action::clone_map(&a.arguments),
        effects: crate::action::clone_effects(&a.effects),
    }
}

/// The action request a policy bundle expands to for a mission and action:
/// exactly them, and the bundle's template as a program v2 evaluated at
/// `evaluation_time` with the query `action_authorized(action id)`.
pub open spec fn expansion_ok(
    bundle: &PolicyBundle,
    evaluation_time: Seq<char>,
    mission: &Mission,
    action: &ProposedAction,
    r: &ActionRequest,
) -> bool {
    &&& r.schema@ == ACTION_REQUEST_SCHEMA@
    &&& mission_same(&r.mission, mission)
    &&& action_same(&r.action, action)
    &&& template_program_ok(&bundle.policy, &r.policy, evaluation_time, action.id@)
}

/// Expands a policy bundle into the action request for a mission and
/// action, and checks it with the action validator.
pub fn expand_policy_request(bundle: &PolicyBundle, evaluation_time: &str, mission: &Mission, action: &ProposedAction) -> (r:
    Result<ActionRequest, PolicyError>)
    ensures
        exists|q: ActionRequest|
            #[trigger] expansion_ok(bundle, evaluation_time@, mission, action, &q) && (r matches Ok(x) ==> x == q)
                && (r is Ok <==> request_valid(&q)) && (r is Err ==> request_invalid(&q)),
        r matches Err(e) ==> (e matches PolicyError::Reason(a) && a is InvalidAction),
{
    let request = ActionRequest {
        schema: String::from_str(ACTION_REQUEST_SCHEMA),
        mission: copy_mission(mission),
        action: copy_action(action),
        policy: template_program(&bundle.policy, evaluation_time, action.id.as_str()),
    };
    let ghost q = request;
    assert(expansion_ok(bundle, evaluation_time@, mission, action, &q));
    match validate_action_request(&request) {
        Ok(()) => Ok(request),
        Err(e) => Err(PolicyError::Reason(e)),
    }
}

/// The size a bundle's sources add up to, each addition saturating at the
/// largest `u64`.
pub open spec fn aggregate_size(sources: Seq<LockedPolicySource>, n: nat) -> nat
    decreases n,
{
    if n == 0 {
        0
    } else {
        let a: nat = aggregate_size(sources, (n - 1) as nat) + sources[n - 1].size_bytes as nat;
        if a > u64::MAX { u64::MAX as nat } else { a }
    }
}

/// The `i`-th locked source is acceptable: a portable path after the
/// previous one in strict order, at most 1 MiB, and a well-formed digest.
pub open spec fn locked_source_ok(sources: Seq<LockedPolicySource>, i: int) -> bool {
    &&& portable_path_error(sources[i].path@) is None
    &&& (i == 0 || seq_lt(sources[i - 1].path@, sources[i].path@))
    &&& sources[i].size_bytes <= MAX_SOURCE_BYTES
    &&& valid_digest_spec(sources[i].digest@)
}

/// The checks a bundle passes before its template and commitment are checked.
pub open spec fn bundle_shape_ok(b: &PolicyBundle) -> bool {
    let n = b.sources@.len();
    &&& utf8_len(encode(bundle_json(b))) <= MAX_POLICY_BUNDLE_BYTES
    &&& b.schema@ == POLICY_BUNDLE_SCHEMA@
    &&& valid_digest_spec(b.bundle_digest@)
    &&& 1 <= n <= crate::policy::MAX_POLICY_SOURCES
    &&& forall|i: int| 0 <= i < n ==> #[trigger] locked_source_ok(b.sources@, i)
    &&& aggregate_size(b.sources@, n) <= MAX_AGGREGATE_SOURCE_BYTES
}

/// The template passes `validate_policy_template`.
pub open spec fn template_accepted(t: &PolicyTemplate) -> bool {
    &&& utf8_len(encode(template_json(t))) <= MAX_POLICY_TEMPLATE_BYTES
    &&& t.schema@ == POLICY_TEMPLATE_SCHEMA@
    &&& exists|q: ActionRequest| #[trigger] template_request_ok(t, &q) && request_valid(&q)
}

/// The template fails `validate_policy_template`.
pub open spec fn template_rejected(t: &PolicyTemplate) -> bool {
    ||| utf8_len(encode(template_json(t))) > MAX_POLICY_TEMPLATE_BYTES
    ||| t.schema@ != POLICY_TEMPLATE_SCHEMA@
    ||| exists|q: ActionRequest| #[trigger] template_request_ok(t, &q) && request_invalid(&q)
}

/// The bundle digest is the commitment to its sources and template.
pub open spec fn bundle_committed(b: &PolicyBundle) -> bool {
    b.bundle_digest@ == crate::model::json_digest(commitment_json(b.sources@, &b.policy))
}

/// A bundle `validate_policy_bundle` accepts: well formed, with an accepted
/// template, and committed to by its digest.
pub open spec fn bundle_accepted(b: &PolicyBundle) -> bool {
    bundle_shape_ok(b) && template_accepted(&b.policy) && bundle_committed(b)
}

fn source_problem(errors: &mut Vec<String>, i: usize, field: &str, message: &str)
    ensures
        final(errors)@.len() == old(errors)@.len() + 1,
{
    let mut out = chars_of("$.sources[");
    crate::text::push_decimal(&mut out, i as u64);
    push_str(&mut out, "].");
    push_str(&mut out, field);
    push_str(&mut out, ": ");
    push_str(&mut out, message);
    errors.push(crate::text::string_from_chars(out.as_slice()));
}

fn check_locked_sources(sources: &Vec<LockedPolicySource>, errors: &mut Vec<String>) -> (aggregate: u64)
    ensures
        final(errors)@.len() >= old(errors)@.len(),
        (final(errors)@.len() == old(errors)@.len()) == forall|i: int|
            0 <= i < sources@.len() ==> #[trigger] locked_source_ok(sources@, i),
        aggregate == aggregate_size(sources@, sources@.len()),
{
    let ghost start = errors@.len();
    let mut aggregate: u64 = 0;
    let mut i: usize = 0;
    while i < sources.len()
        invariant
            i <= sources@.len(),
            errors@.len() >= start,
            (errors@.len() == start) == forall|k: int| 0 <= k < i ==> #[trigger] locked_source_ok(sources@, k),
            aggregate == aggregate_size(sources@, i as nat),
        decreases sources.len() - i,
    {
        let s = &sources[i];
        let before = errors.len();
        match validate_portable_path(s.path.as_str()) {
            Err(message) => {
                source_problem(errors, i, "path", message.as_str());
            },
            Ok(()) => {},
        }
        if i > 0 && !crate::text::str_lt(sources[i - 1].path.as_str(), s.path.as_str()) {
            source_problem(errors, i, "path", "locked sources must be strictly sorted by unique portable path");
        }
        if s.size_bytes > MAX_SOURCE_BYTES {
            source_problem(errors, i, "size_bytes", "exceeds the 1048576-byte source limit");
        }
        aggregate = aggregate.saturating_add(s.size_bytes);
        if !valid_digest(s.digest.as_str()) {
            source_problem(
                errors,
                i,
                "digest",
                "expected sha256 followed by 64 lowercase hexadecimal characters",
            );
        }
        proof {
            assert((errors@.len() == before) == locked_source_ok(sources@, i as int));
            if (forall|k: int| 0 <= k < i ==> #[trigger] locked_source_ok(sources@, k)) && locked_source_ok(sources@, i as int) {
                assert forall|k: int| 0 <= k < i + 1 implies #[trigger] locked_source_ok(sources@, k) by {
                    if k < i {
                    }
                }
            }
            if forall|k: int| 0 <= k < i + 1 ==> #[trigger] locked_source_ok(sources@, k) {
                assert(locked_source_ok(sources@, i as int));
            }
        }
        i += 1;
    }
    aggregate
}


fn push_chars(errors: &mut Vec<String>, out: Vec<char>)
    ensures
        final(errors)@.len() == old(errors)@.len() + 1,
{
    errors.push(crate::text::string_from_chars(out.as_slice()));
}

/// Checks a policy bundle: its serialized size, schema, digest format,
/// number of sources, each locked source (portable path in strictly
/// ascending order, size, digest), their aggregate size, and the template;
/// then, when all of that holds, that the bundle digest is the commitment
/// to its sources and template.
pub fn validate_policy_bundle(bundle: &PolicyBundle) -> (r: Result<(), PolicyError>)
    ensures
        r is Ok <==> bundle_accepted(bundle),
        r matches Err(e) ==> e is Invalid,
{
    let mut errors: Vec<String> = Vec::new();
    let json = bundle_to_json(bundle);
    let text = encode_value(&json);
    let oversized = chars_utf8_longer_than(&text, 2097152);
    if oversized {
        push_chars(&mut errors, chars_of("$: serialized policy bundle exceeds the 2097152-byte limit"));
    }
    if !str_eq(bundle.schema.as_str(), POLICY_BUNDLE_SCHEMA) {
        let mut out = chars_of("$.schema: expected ");
        crate::text::push_debug(&mut out, POLICY_BUNDLE_SCHEMA);
        push_str(&mut out, ", got ");
        crate::text::push_debug(&mut out, bundle.schema.as_str());
        push_chars(&mut errors, out);
    }
    let digest_ok = valid_digest(bundle.bundle_digest.as_str());
    if !digest_ok {
        push_chars(
            &mut errors,
            chars_of("$.bundle_digest: expected sha256 followed by 64 lowercase hexadecimal characters"),
        );
    }
    let n = bundle.sources.len();
    if n == 0 {
        push_chars(&mut errors, chars_of("$.sources: declare at least one locked policy source"));
    }
    if n > crate::policy::MAX_POLICY_SOURCES {
        let mut out = chars_of("$.sources: ");
        crate::text::push_decimal(&mut out, n as u64);
        push_str(&mut out, " entries exceeds the 256-source limit");
        push_chars(&mut errors, out);
    }
    let before_sources = errors.len();
    let aggregate = check_locked_sources(&bundle.sources, &mut errors);
    let sources_ok = errors.len() == before_sources;
    if aggregate > MAX_AGGREGATE_SOURCE_BYTES {
        push_chars(&mut errors, chars_of("$.sources: aggregate size exceeds the 16777216-byte limit"));
    }
    let shape_errors = errors.len();
    let template = validate_policy_template(&bundle.policy);
    match &template {
        Err(e) => {
            errors.push(e.message());
        },
        Ok(()) => {},
    }
    proof {
        assert((shape_errors == 0) == bundle_shape_ok(bundle));
    }
    if errors.len() == 0 && digest_ok {
        let expected = policy_bundle_digest(&bundle.sources, &bundle.policy);
        if !str_eq(bundle.bundle_digest.as_str(), expected.as_str()) {
            let mut out = chars_of("$.bundle_digest: commitment mismatch; expected ");
            push_str(&mut out, expected.as_str());
            push_chars(&mut errors, out);
        }
    }
    finish_validation(errors)
}


/// The bytes are within `limit`, are UTF-8, decode, and have canonical numbers.
pub open spec fn bounded_accepted<T>(bytes: Seq<u8>, limit: nat, decoded: Result<T, String>) -> bool {
    &&& bytes.len() <= limit
    &&& vstd::utf8::valid_utf8(bytes)
    &&& decoded is Ok
    &&& number_scan(bytes, 0, false, false) is Ok
}

/// The error a bounded JSON input is refused with, checked in this order:
/// size, UTF-8, decoding, canonical numbers.
pub open spec fn bounded_refused<T>(bytes: Seq<u8>, limit: nat, decoded: Result<T, String>, e: PolicyError) -> bool {
    if bytes.len() > limit {
        e matches PolicyError::InputTooLarge { limit: l } && l == limit
    } else if !vstd::utf8::valid_utf8(bytes) {
        e matches PolicyError::Utf8(m) && m@ == utf8_error_text(bytes)
    } else {
        match decoded {
            Err(d) => e matches PolicyError::Json(m) && m@ == d@,
            Ok(_) => match number_scan(bytes, 0, false, false) {
                Err(n) => e matches PolicyError::Invalid(m) && m@ == n,
                Ok(()) => false,
            },
        }
    }
}

/// Accepts a decoded JSON input only when its bytes are within `limit`, are
/// UTF-8, and write every number canonically. `decoded` is the strict typed
/// decoding of those bytes, or its error message.
pub fn parse_bounded<T>(bytes: &[u8], limit: usize, decoded: Result<T, String>) -> (r: Result<T, PolicyError>)
    ensures
        bounded_accepted(bytes@, limit as nat, decoded) ==> r == Ok::<T, PolicyError>(decoded->Ok_0),
        !bounded_accepted(bytes@, limit as nat, decoded) ==> (r matches Err(e) && bounded_refused(
            bytes@,
            limit as nat,
            decoded,
            e,
        )),
{
    if bytes.len() > limit {
        return Err(PolicyError::InputTooLarge { limit });
    }
    let text = match utf8_text(bytes) {
        Ok(t) => t,
        Err(e) => {
            return Err(PolicyError::Utf8(e));
        },
    };
    let ghost d = decoded;
    let value = match decoded {
        Ok(v) => v,
        Err(e) => {
            return Err(PolicyError::Json(e));
        },
    };
    match validate_canonical_json_numbers(text.as_str()) {
        Ok(()) => {},
        Err(m) => {
            return Err(PolicyError::Invalid(m));
        },
    }
    assert(d == Ok::<T, String>(value));
    Ok(value)
}

/// Parses and validates a policy template from at most 1 MiB of JSON.
pub fn parse_policy_template(bytes: &[u8], decoded: Result<PolicyTemplate, String>) -> (r: Result<PolicyTemplate, PolicyError>)
    ensures
        !bounded_accepted(bytes@, MAX_POLICY_TEMPLATE_BYTES as nat, decoded) ==> (r matches Err(e) && bounded_refused(
            bytes@,
            MAX_POLICY_TEMPLATE_BYTES as nat,
            decoded,
            e,
        )),
        bounded_accepted(bytes@, MAX_POLICY_TEMPLATE_BYTES as nat, decoded) ==> (r matches Ok(t) ==> decoded == Ok::<
            PolicyTemplate,
            String,
        >(t) && template_accepted(&t)) && (r is Err ==> !template_accepted(&decoded->Ok_0)),
{
    let template = match parse_bounded(bytes, MAX_POLICY_TEMPLATE_BYTES, decoded) {
        Ok(t) => t,
        Err(e) => {
            return Err(e);
        },
    };
    match validate_policy_template(&template) {
        Ok(()) => Ok(template),
        Err(e) => Err(e),
    }
}

/// Parses and validates a policy bundle from at most 2 MiB of JSON.
pub fn parse_policy_bundle(bytes: &[u8], decoded: Result<PolicyBundle, String>) -> (r: Result<PolicyBundle, PolicyError>)
    ensures
        !bounded_accepted(bytes@, MAX_POLICY_BUNDLE_BYTES as nat, decoded) ==> (r matches Err(e) && bounded_refused(
            bytes@,
            MAX_POLICY_BUNDLE_BYTES as nat,
            decoded,
            e,
        )),
        bounded_accepted(bytes@, MAX_POLICY_BUNDLE_BYTES as nat, decoded) ==> (r matches Ok(b) ==> decoded == Ok::<
            PolicyBundle,
            String,
        >(b) && bundle_accepted(&b)) && (r is Err ==> !bundle_accepted(&decoded->Ok_0)),
{
    let bundle = match parse_bounded(bytes, MAX_POLICY_BUNDLE_BYTES, decoded) {
        Ok(b) => b,
        Err(e) => {
            return Err(e);
        },
    };
    match validate_policy_bundle(&bundle) {
        Ok(()) => Ok(bundle),
        Err(e) => Err(e),
    }
}

/// Why a policy authorization's summary is malformed, if it is: its
/// serialized size, its schema, or one of its three digests.
pub open spec fn authorization_shape_error(a: &PolicyAuthorization) -> Option<Seq<char>> {
    if utf8_len(encode(policy_authorization_json(a))) > MAX_POLICY_AUTHORIZATION_OUTPUT_BYTES {
        Some("$: serialized policy authorization output exceeds the 2097152-byte limit"@)
    } else if a.schema@ != POLICY_AUTHORIZATION_SCHEMA@ {
        Some("$.schema: expected "@ + debug_text(POLICY_AUTHORIZATION_SCHEMA@) + ", got "@ + debug_text(a.schema@))
    } else if !valid_digest_spec(a.policy_bundle_digest@) {
        Some("$.policy_bundle_digest: expected a lowercase SHA-256 digest"@)
    } else if !valid_digest_spec(a.request_digest@) {
        Some("$.request_digest: expected a lowercase SHA-256 digest"@)
    } else if !valid_digest_spec(a.reasoning_result_digest@) {
        Some("$.reasoning_result_digest: expected a lowercase SHA-256 digest"@)
    } else {
        None
    }
}

fn output_size_ok(a: &PolicyAuthorization) -> (b: bool)
    ensures
        b == (utf8_len(encode(policy_authorization_json(a))) <= MAX_POLICY_AUTHORIZATION_OUTPUT_BYTES),
{
    let json = policy_authorization_to_json(a);
    let text = encode_value(&json);
    !chars_utf8_longer_than(&text, 2097152)
}

fn invalid_text<T>(text: &str) -> (r: Result<T, PolicyError>)
    ensures
        r matches Err(PolicyError::Invalid(m)) && m@ == text@,
{
    invalid(String::from_str(text))
}

/// Checks a policy authorization's summary: serialized size, schema, and
/// the form of its three digests.
pub fn validate_policy_authorization_shape(authorization: &PolicyAuthorization) -> (r: Result<(), PolicyError>)
    ensures
        r is Ok <==> authorization_shape_error(authorization) is None,
        r matches Err(e) ==> (e matches PolicyError::Invalid(m) && Some(m@) == authorization_shape_error(authorization)),
{
    if !output_size_ok(authorization) {
        return invalid_text("$: serialized policy authorization output exceeds the 2097152-byte limit");
    }
    if !str_eq(authorization.schema.as_str(), POLICY_AUTHORIZATION_SCHEMA) {
        let mut out = chars_of("$.schema: expected ");
        crate::text::push_debug(&mut out, POLICY_AUTHORIZATION_SCHEMA);
        push_str(&mut out, ", got ");
        crate::text::push_debug(&mut out, authorization.schema.as_str());
        return invalid(crate::text::string_from_chars(out.as_slice()));
    }
    if !valid_digest(authorization.policy_bundle_digest.as_str()) {
        return invalid_text("$.policy_bundle_digest: expected a lowercase SHA-256 digest");
    }
    if !valid_digest(authorization.request_digest.as_str()) {
        return invalid_text("$.request_digest: expected a lowercase SHA-256 digest");
    }
    if !valid_digest(authorization.reasoning_result_digest.as_str()) {
        return invalid_text("$.reasoning_result_digest: expected a lowercase SHA-256 digest");
    }
    Ok(())
}

/// Parses a policy authorization from at most 2 MiB of JSON and checks its summary.
pub fn parse_policy_authorization(bytes: &[u8], decoded: Result<PolicyAuthorization, String>) -> (r: Result<
    PolicyAuthorization,
    PolicyError,
>)
    ensures
        !bounded_accepted(bytes@, MAX_POLICY_AUTHORIZATION_OUTPUT_BYTES as nat, decoded) ==> (r matches Err(e)
            && bounded_refused(bytes@, MAX_POLICY_AUTHORIZATION_OUTPUT_BYTES as nat, decoded, e)),
        bounded_accepted(bytes@, MAX_POLICY_AUTHORIZATION_OUTPUT_BYTES as nat, decoded) ==> match authorization_shape_error(
            &decoded->Ok_0,
        ) {
            None => r == Ok::<PolicyAuthorization, PolicyError>(decoded->Ok_0),
            Some(m) => r matches Err(PolicyError::Invalid(x)) && x@ == m,
        },
{
    let authorization = match parse_bounded(bytes, MAX_POLICY_AUTHORIZATION_OUTPUT_BYTES, decoded) {
        Ok(a) => a,
        Err(e) => {
            return Err(e);
        },
    };
    match validate_policy_authorization_shape(&authorization) {
        Ok(()) => Ok(authorization),
        Err(e) => Err(e),
    }
}

/// The input passes `validate_policy_authorization_input`: size, schema,
/// its bundle, and a valid expansion of the bundle for its mission and action.
pub open spec fn authorization_input_accepted(i: &PolicyAuthorizationInput) -> bool {
    &&& utf8_len(encode(authorization_input_json(i))) <= MAX_POLICY_AUTHORIZATION_INPUT_BYTES
    &&& i.schema@ == POLICY_AUTHORIZATION_INPUT_SCHEMA@
    &&& bundle_shape_ok(&i.policy_bundle)
    &&& template_accepted(&i.policy_bundle.policy)
    &&& bundle_committed(&i.policy_bundle)
    &&& exists|q: ActionRequest|
        #[trigger] expansion_ok(&i.policy_bundle, i.evaluation_time@, &i.mission, &i.action, &q) && request_valid(&q)
}

/// Checks a policy authorization input.
pub fn validate_policy_authorization_input(input: &PolicyAuthorizationInput) -> (r: Result<(), PolicyError>)
    ensures
        r is Ok <==> authorization_input_accepted(input),
        utf8_len(encode(authorization_input_json(input))) > MAX_POLICY_AUTHORIZATION_INPUT_BYTES ==> (r matches Err(
            PolicyError::Invalid(m),
        ) && m@ == "$: serialized policy authorization input exceeds the 2097152-byte limit"@),
        r matches Err(e) ==> (e is Invalid || (e matches PolicyError::Reason(a) && a is InvalidAction)),
{
    let json = authorization_input_to_json(input);
    let text = encode_value(&json);
    if chars_utf8_longer_than(&text, 2097152) {
        return invalid_text("$: serialized policy authorization input exceeds the 2097152-byte limit");
    }
    if !str_eq(input.schema.as_str(), POLICY_AUTHORIZATION_INPUT_SCHEMA) {
        let mut out = chars_of("$.schema: expected ");
        crate::text::push_debug(&mut out, POLICY_AUTHORIZATION_INPUT_SCHEMA);
        push_str(&mut out, ", got ");
        crate::text::push_debug(&mut out, input.schema.as_str());
        return invalid(crate::text::string_from_chars(out.as_slice()));
    }
    match validate_policy_bundle(&input.policy_bundle) {
        Ok(()) => {},
        Err(e) => {
            return Err(e);
        },
    }
    match expand_policy_request(&input.policy_bundle, input.evaluation_time.as_str(), &input.mission, &input.action) {
        Ok(_) => Ok(()),
        Err(e) => {
            proof {
                if authorization_input_accepted(input) {
                    let b = &input.policy_bundle;
                    let t = input.evaluation_time@;
                    let q1 = choose|q: ActionRequest| #[trigger] expansion_ok(b, t, &input.mission, &input.action, &q) && request_valid(&q);
                    assert(expansion_ok(b, t, &input.mission, &input.action, &q1) && request_valid(&q1));
                    let q2 = choose|q: ActionRequest| #[trigger] expansion_ok(b, t, &input.mission, &input.action, &q) && request_invalid(&q);
                    assert(expansion_ok(b, t, &input.mission, &input.action, &q2) && request_invalid(&q2));
                    lemma_expansion_valid_not_invalid(b, t, &input.mission, &input.action, &q1, &q2);
                }
            }
            Err(e)
        },
    }
}

/// Parses and validates a policy authorization input from at most 2 MiB of JSON.
pub fn parse_policy_authorization_input(bytes: &[u8], decoded: Result<PolicyAuthorizationInput, String>) -> (r: Result<
    PolicyAuthorizationInput,
    PolicyError,
>)
    ensures
        !bounded_accepted(bytes@, MAX_POLICY_AUTHORIZATION_INPUT_BYTES as nat, decoded) ==> (r matches Err(e)
            && bounded_refused(bytes@, MAX_POLICY_AUTHORIZATION_INPUT_BYTES as nat, decoded, e)),
        r matches Ok(i) ==> decoded == Ok::<PolicyAuthorizationInput, String>(i) && authorization_input_accepted(&i),
        bounded_accepted(bytes@, MAX_POLICY_AUTHORIZATION_INPUT_BYTES as nat, decoded) && authorization_input_accepted(&decoded->Ok_0)
            ==> r is Ok,
{
    let input = match parse_bounded(bytes, MAX_POLICY_AUTHORIZATION_INPUT_BYTES, decoded) {
        Ok(i) => i,
        Err(e) => {
            return Err(e);
        },
    };
    match validate_policy_authorization_input(&input) {
        Ok(()) => Ok(input),
        Err(e) => Err(e),
    }
}

/// Why a verification input is refused before its content is checked, if it is.
pub open spec fn verification_input_error(i: &PolicyAuthorizationVerificationInput) -> Option<Seq<char>> {
    if utf8_len(encode(verification_input_json(i))) > MAX_POLICY_AUTHORIZATION_VERIFICATION_INPUT_BYTES {
        Some("$: serialized policy authorization verification input exceeds the 4194304-byte limit"@)
    } else if i.schema@ != POLICY_AUTHORIZATION_VERIFICATION_INPUT_SCHEMA@ {
        Some(
            "$.schema: expected "@ + debug_text(POLICY_AUTHORIZATION_VERIFICATION_INPUT_SCHEMA@) + ", got "@ + debug_text(
                i.schema@,
            ),
        )
    } else {
        None
    }
}

/// Checks a verification input's serialized size and schema.
pub fn validate_policy_authorization_verification_input_size(input: &PolicyAuthorizationVerificationInput) -> (r: Result<
    (),
    PolicyError,
>)
    ensures
        r is Ok <==> verification_input_error(input) is None,
        r matches Err(e) ==> (e matches PolicyError::Invalid(m) && Some(m@) == verification_input_error(input)),
{
    let json = verification_input_to_json(input);
    let text = encode_value(&json);
    if chars_utf8_longer_than(&text, 4194304) {
        return invalid_text("$: serialized policy authorization verification input exceeds the 4194304-byte limit");
    }
    if !str_eq(input.schema.as_str(), POLICY_AUTHORIZATION_VERIFICATION_INPUT_SCHEMA) {
        let mut out = chars_of("$.schema: expected ");
        crate::text::push_debug(&mut out, POLICY_AUTHORIZATION_VERIFICATION_INPUT_SCHEMA);
        push_str(&mut out, ", got ");
        crate::text::push_debug(&mut out, input.schema.as_str());
        return invalid(crate::text::string_from_chars(out.as_slice()));
    }
    Ok(())
}

/// Parses a verification input from at most 4 MiB of JSON and checks its size and schema.
pub fn parse_policy_authorization_verification_input(
    bytes: &[u8],
    decoded: Result<PolicyAuthorizationVerificationInput, String>,
) -> (r: Result<PolicyAuthorizationVerificationInput, PolicyError>)
    ensures
        !bounded_accepted(bytes@, MAX_POLICY_AUTHORIZATION_VERIFICATION_INPUT_BYTES as nat, decoded) ==> (r matches Err(e)
            && bounded_refused(bytes@, MAX_POLICY_AUTHORIZATION_VERIFICATION_INPUT_BYTES as nat, decoded, e)),
        bounded_accepted(bytes@, MAX_POLICY_AUTHORIZATION_VERIFICATION_INPUT_BYTES as nat, decoded) ==> match verification_input_error(
            &decoded->Ok_0,
        ) {
            None => r == Ok::<PolicyAuthorizationVerificationInput, PolicyError>(decoded->Ok_0),
            Some(m) => r matches Err(PolicyError::Invalid(x)) && x@ == m,
        },
{
    let input = match parse_bounded(bytes, MAX_POLICY_AUTHORIZATION_VERIFICATION_INPUT_BYTES, decoded) {
        Ok(i) => i,
        Err(e) => {
            return Err(e);
        },
    };
    match validate_policy_authorization_verification_input_size(&input) {
        Ok(()) => Ok(input),
        Err(e) => Err(e),
    }
}


/// Whether the proof and disproof nodes of a result can be counted.
fn nodes_countable(r: &crate::reasoning::CheckResult) -> (b: bool)
    ensures
        b == (crate::checker::present_nodes(r) <= usize::MAX),
{
    let a: usize = match &r.proof {
        Some(p) => p.nodes.len(),
        None => 0,
    };
    let d: usize = match &r.disproof {
        Some(p) => p.nodes.len(),
        None => 0,
    };
    a.checked_add(d).is_some()
}

/// What `authorize_policy` returns for an input: the summary of an
/// authorization of exactly the bundle's expansion for the input's mission
/// and action, which the independent verifier accepted.
pub open spec fn policy_authorization_ok(input: &PolicyAuthorizationInput, a: &PolicyAuthorization) -> bool {
    let request = a.authorization.request;
    let certificate = a.authorization.certificate;
    &&& authorization_input_accepted(input)
    &&& a.schema@ == POLICY_AUTHORIZATION_SCHEMA@
    &&& a.policy_bundle_digest@ == input.policy_bundle.bundle_digest@
    &&& a.authorization.schema@ == crate::action::AUTHORIZATION_BUNDLE_SCHEMA@
    &&& expansion_ok(&input.policy_bundle, input.evaluation_time@, &input.mission, &input.action, &request)
    &&& crate::action::authorization_ok(&request, &certificate)
    &&& crate::action::authorization_accepted(&request, &certificate)
    &&& a.authorization_status == certificate.status
    &&& a.request_digest@ == certificate.request_digest@
    &&& a.reasoning_result_digest@ == crate::model::json_digest(crate::result_json::check_result_json(&certificate.reasoning))
}

/// Authorizes an action under a locked policy bundle: validates the input,
/// expands the bundle for the mission and action, authorizes the request,
/// verifies the resulting bundle independently, and summarizes it.
#[verifier::rlimit(60)]
#[verifier::spinoff_prover]
pub fn authorize_policy(input: &PolicyAuthorizationInput) -> (r: Result<PolicyAuthorization, PolicyError>)
    requires
        input.policy_bundle.policy.rules@.len() * 1024 <= usize::MAX,
    ensures
        r matches Ok(a) ==> policy_authorization_ok(input, &a) && utf8_len(encode(policy_authorization_json(&a)))
            <= MAX_POLICY_AUTHORIZATION_OUTPUT_BYTES,
        !authorization_input_accepted(input) ==> r is Err,
        authorization_input_accepted(input) && r is Err ==> (r matches Err(PolicyError::Reason(e)) && (e is ResourceLimit
            || e is InvalidAction || e is InvalidAuthorization || e is InvalidProgram)) || (r matches Err(PolicyError::Invalid(m))
            && m@ == "$: serialized policy authorization output exceeds the 2097152-byte limit"@),
        authorization_input_accepted(input) && crate::laws::node_ids_identify_atoms() && r is Err ==> (r matches Err(
            PolicyError::Reason(e),
        ) && (e is ResourceLimit || (e matches ReasonError::InvalidAuthorization(m) && crate::action::recomputation_message(m@))))
            || (r matches Err(PolicyError::Invalid(m)) && m@ == "$: serialized policy authorization output exceeds the 2097152-byte limit"@),
{
    match validate_policy_authorization_input(input) {
        Ok(()) => {},
        Err(e) => {
            return Err(e);
        },
    }
    let request = match expand_policy_request(&input.policy_bundle, input.evaluation_time.as_str(), &input.mission, &input.action) {
        Ok(q) => q,
        Err(e) => {
            proof {
                let b = &input.policy_bundle;
                let t = input.evaluation_time@;
                let q1 = choose|q: ActionRequest| #[trigger] expansion_ok(b, t, &input.mission, &input.action, &q) && request_valid(&q);
                assert(expansion_ok(b, t, &input.mission, &input.action, &q1) && request_valid(&q1));
                let q2 = choose|q: ActionRequest| #[trigger] expansion_ok(b, t, &input.mission, &input.action, &q) && request_invalid(&q);
                assert(expansion_ok(b, t, &input.mission, &input.action, &q2) && request_invalid(&q2));
                lemma_expansion_valid_not_invalid(b, t, &input.mission, &input.action, &q1, &q2);
            }
            return Err(e);
        },
    };
    assert(request_valid(&request));
    assert(rules_view(request.policy.rules@).len() == rules_view(input.policy_bundle.policy.rules@).len());
    let certificate = match crate::action::authorize(&request) {
        Ok(c) => c,
        Err(e) => {
            return Err(PolicyError::Reason(e));
        },
    };
    assert(crate::laws::node_ids_identify_atoms() ==> crate::action::authorization_accepted(&request, &certificate)) by {
        if crate::laws::node_ids_identify_atoms() {
            crate::laws::law_authorization_is_verifiable(&request, &certificate);
        }
    }
    if !nodes_countable(&certificate.reasoning) {
        return Err(PolicyError::Reason(ReasonError::ResourceLimit));
    }
    let bundle = AuthorizationBundle {
        schema: String::from_str(crate::action::AUTHORIZATION_BUNDLE_SCHEMA),
        request,
        certificate,
    };
    let verification = match crate::action::verify_authorization_bundle(&bundle) {
        Ok(v) => v,
        Err(e) => {
            return Err(PolicyError::Reason(e));
        },
    };
    let result = PolicyAuthorization {
        schema: String::from_str(POLICY_AUTHORIZATION_SCHEMA),
        policy_bundle_digest: input.policy_bundle.bundle_digest.clone(),
        authorization_status: verification.authorization_status,
        request_digest: verification.request_digest,
        reasoning_result_digest: verification.reasoning_result_digest,
        authorization: bundle,
    };
    if !output_size_ok(&result) {
        return invalid_text("$: serialized policy authorization output exceeds the 2097152-byte limit");
    }
    Ok(result)
}

/// What `verify_policy_authorization` accepts: a well-formed input whose
/// summary names the verified bundle, whose request is exactly the bundle's
/// expansion for its own mission, action, and evaluation time, whose
/// certificate the verifier accepts, and whose summary matches it.
pub open spec fn policy_authorization_verified(i: &PolicyAuthorizationVerificationInput, v: &crate::action::AuthorizationVerification) -> bool {
    let a = i.policy_authorization;
    let request = a.authorization.request;
    let certificate = a.authorization.certificate;
    &&& verification_input_error(i) is None
    &&& bundle_shape_ok(&i.policy_bundle)
    &&& template_accepted(&i.policy_bundle.policy)
    &&& bundle_committed(&i.policy_bundle)
    &&& authorization_shape_error(&a) is None
    &&& a.policy_bundle_digest@ == i.policy_bundle.bundle_digest@
    &&& request.policy.evaluation_time is Some
    &&& exists|q: ActionRequest|
        #[trigger] expansion_ok(
            &i.policy_bundle,
            request.policy.evaluation_time->0@,
            &request.mission,
            &request.action,
            &q,
        ) && request_valid(&q) && crate::model::json_digest(request_json(&q)) == crate::model::json_digest(
            request_json(&request),
        )
    &&& a.authorization.schema@ == crate::action::AUTHORIZATION_BUNDLE_SCHEMA@
    &&& crate::action::authorization_accepted(&request, &certificate)
    &&& v.authorization_status == certificate.status
    &&& a.authorization_status == v.authorization_status
    &&& a.request_digest@ == v.request_digest@
    &&& a.reasoning_result_digest@ == v.reasoning_result_digest@
    &&& v.request_digest@ == certificate.request_digest@
}

/// The checks `verify_policy_authorization` makes around the certificate
/// verification all hold: a well-formed input and bundle, a summary that
/// names the bundle, a request that is the bundle's expansion for its own
/// mission, action, and time, an accepted certificate, and a summary that
/// matches the certificate.
pub open spec fn policy_authorization_acceptable(i: &PolicyAuthorizationVerificationInput) -> bool {
    let a = i.policy_authorization;
    let request = a.authorization.request;
    let certificate = a.authorization.certificate;
    &&& verification_input_error(i) is None
    &&& bundle_accepted(&i.policy_bundle)
    &&& authorization_shape_error(&a) is None
    &&& a.policy_bundle_digest@ == i.policy_bundle.bundle_digest@
    &&& request.policy.evaluation_time is Some
    &&& forall|q: ActionRequest|
        #[trigger] expansion_ok(&i.policy_bundle, request.policy.evaluation_time->0@, &request.mission, &request.action, &q)
            ==> request_valid(&q) && crate::model::json_digest(request_json(&q)) == crate::model::json_digest(request_json(&request))
    &&& a.authorization.schema@ == crate::action::AUTHORIZATION_BUNDLE_SCHEMA@
    &&& crate::action::authorization_accepted(&request, &certificate)
    &&& a.authorization_status == certificate.status
    &&& a.request_digest@ == certificate.request_digest@
    &&& a.reasoning_result_digest@ == crate::model::json_digest(crate::result_json::check_result_json(&certificate.reasoning))
}

/// The certificate of a policy authorization replays for its request: the
/// request's effective program is valid, no effective program of it runs
/// into the round limit, and its proofs can be counted.
pub open spec fn policy_authorization_replays(i: &PolicyAuthorizationVerificationInput) -> bool {
    let request = i.policy_authorization.authorization.request;
    let certificate = i.policy_authorization.authorization.certificate;
    &&& exists|p: Program| #[trigger] crate::action::effective_ok(&request, &p) && crate::program::program_valid(&p)
    &&& crate::action::authorization_replays(&request, &certificate)
    &&& forall|p: Program| #[trigger] crate::action::effective_ok(&request, &p) ==> !crate::reasoning::saturation_limited(&p)
    &&& crate::checker::present_nodes(&certificate.reasoning) <= usize::MAX
}

/// Independently verifies a policy authorization against its locked bundle.
pub fn verify_policy_authorization(input: &PolicyAuthorizationVerificationInput) -> (r: Result<
    crate::action::AuthorizationVerification,
    PolicyError,
>)
    requires
        input.policy_authorization.authorization.request.policy.rules@.len() * 1024 <= usize::MAX,
    ensures
        r matches Ok(v) ==> policy_authorization_verified(input, &v),
        verification_input_error(input) matches Some(m) ==> (r matches Err(PolicyError::Invalid(x)) && x@ == m),
        verification_input_error(input) is None && !bundle_accepted(&input.policy_bundle) ==> r is Err,
        verification_input_error(input) is None && bundle_accepted(&input.policy_bundle) ==> (authorization_shape_error(
            &input.policy_authorization,
        ) matches Some(m) ==> (r matches Err(PolicyError::Invalid(x)) && x@ == m)),
        verification_input_error(input) is None && bundle_accepted(&input.policy_bundle) && authorization_shape_error(
            &input.policy_authorization,
        ) is None && input.policy_authorization.policy_bundle_digest@ != input.policy_bundle.bundle_digest@ ==> (r matches Err(
            PolicyError::Invalid(x),
        ) && x@ == "$.policy_authorization.policy_bundle_digest: does not match the verified policy bundle"@),
        policy_authorization_acceptable(input) && r is Err ==> (r matches Err(PolicyError::Reason(e)) && (e is ResourceLimit || (
        e matches ReasonError::InvalidAuthorization(m) && crate::action::recomputation_message(m@)))),
        policy_authorization_acceptable(input) && policy_authorization_replays(input) ==> r is Ok,
{
    match validate_policy_authorization_verification_input_size(input) {
        Ok(()) => {},
        Err(e) => {
            return Err(e);
        },
    }
    match validate_policy_bundle(&input.policy_bundle) {
        Ok(()) => {},
        Err(e) => {
            return Err(e);
        },
    }
    match validate_policy_authorization_shape(&input.policy_authorization) {
        Ok(()) => {},
        Err(e) => {
            return Err(e);
        },
    }
    let result = &input.policy_authorization;
    if !str_eq(result.policy_bundle_digest.as_str(), input.policy_bundle.bundle_digest.as_str()) {
        return invalid_text("$.policy_authorization.policy_bundle_digest: does not match the verified policy bundle");
    }
    let request = &result.authorization.request;
    let evaluation_time = match &request.policy.evaluation_time {
        Some(t) => t.as_str(),
        None => {
            return invalid_text("$.policy_authorization.authorization.request.policy.evaluation_time: required");
        },
    };
    let expected = match expand_policy_request(&input.policy_bundle, evaluation_time, &request.mission, &request.action) {
        Ok(q) => q,
        Err(e) => {
            return Err(e);
        },
    };
    let expected_digest = crate::model::digest_json(&crate::action::request_to_json(&expected));
    let given_digest = crate::model::digest_json(&crate::action::request_to_json(request));
    if !str_eq(expected_digest.as_str(), given_digest.as_str()) {
        return invalid_text(
            "$.policy_authorization.authorization.request: does not match deterministic policy-template expansion",
        );
    }
    if !nodes_countable(&result.authorization.certificate.reasoning) {
        return Err(PolicyError::Reason(ReasonError::ResourceLimit));
    }
    let verification = match crate::action::verify_authorization_bundle(&result.authorization) {
        Ok(v) => v,
        Err(e) => {
            return Err(PolicyError::Reason(e));
        },
    };
    if result.authorization_status != verification.authorization_status {
        return invalid_text("$.policy_authorization.authorization_status: does not match the certificate");
    }
    if !str_eq(result.request_digest.as_str(), verification.request_digest.as_str()) {
        return invalid_text("$.policy_authorization.request_digest: does not match the certificate");
    }
    if !str_eq(result.reasoning_result_digest.as_str(), verification.reasoning_result_digest.as_str()) {
        return invalid_text("$.policy_authorization.reasoning_result_digest: does not match the certificate");
    }
    Ok(verification)
}


/// The fields of a locked source, as plain values.
pub open spec fn locked_view(s: LockedPolicySource) -> (Seq<char>, crate::policy::PolicySourceKind, crate::policy::PolicySourceScope, u64, Seq<char>) {
    (s.path@, s.kind, s.scope, s.size_bytes, s.digest@)
}

fn clone_locked(s: &LockedPolicySource) -> (r: LockedPolicySource)
    ensures
        locked_view(r) == locked_view(*s),
{
    LockedPolicySource {
        path: s.path.clone(),
        kind: s.kind,
        scope: s.scope,
        size_bytes: s.size_bytes,
        digest: s.digest.clone(),
    }
}

/// `a` is a copy of the template `b`.
pub open spec fn template_copy(a: &PolicyTemplate, b: &PolicyTemplate) -> bool {
    &&& a.schema@ == b.schema@
    &&& a.ontology.id@ == b.ontology.id@
    &&& a.ontology.version@ == b.ontology.version@
    &&& forall|k: Seq<char>| #[trigger] declared(&a.ontology.predicates, k) == declared(&b.ontology.predicates, k)
    &&& a.authority.classes.view_seq() == b.authority.classes.view_seq()
    &&& a.authority.default_admit.view_seq() == b.authority.default_admit.view_seq()
    &&& forall|k: Seq<char>| #[trigger] admitted_for(&a.authority.predicate_admit, k) == admitted_for(
        &b.authority.predicate_admit,
        k,
    )
    &&& facts_view(a.facts@) == facts_view(b.facts@)
    &&& rules_view(a.rules@) == rules_view(b.rules@)
}

fn clone_template(t: &PolicyTemplate) -> (r: PolicyTemplate)
    ensures
        template_copy(&r, t),
        template_json(&r) == template_json(t),
{
    let r = PolicyTemplate {
        schema: t.schema.clone(),
        ontology: Ontology {
            id: t.ontology.id.clone(),
            version: t.ontology.version.clone(),
            predicates: crate::clone::clone_predicates(&t.ontology.predicates),
        },
        authority: AuthorityPolicy {
            classes: crate::model::clone_set(&t.authority.classes),
            default_admit: crate::model::clone_set(&t.authority.default_admit),
            predicate_admit: crate::clone::clone_admissions(&t.authority.predicate_admit),
        },
        facts: crate::clone::clone_facts(&t.facts),
        rules: crate::clone::clone_rules(&t.rules),
    };
    proof {
        assert forall|k: Seq<char>| #[trigger] declared(&r.ontology.predicates, k) == declared(&t.ontology.predicates, k) by {}
        assert forall|k: Seq<char>| #[trigger] admitted_for(&r.authority.predicate_admit, k) == admitted_for(
            &t.authority.predicate_admit,
            k,
        ) by {}
        crate::clone::lemma_facts_json_view(r.facts@, t.facts@);
        crate::clone::lemma_rules_json_view(r.rules@, t.rules@);
    }
    r
}

/// The paths of the sources, in order.
pub open spec fn manifest_paths(s: Seq<crate::policy::PolicySource>) -> Seq<Seq<char>> {
    s.map_values(|x: crate::policy::PolicySource| x.path@)
}

/// The paths of the locked sources, in order.
pub open spec fn locked_paths(s: Seq<LockedPolicySource>) -> Seq<Seq<char>> {
    s.map_values(|x: LockedPolicySource| x.path@)
}

proof fn lemma_no_source_errors(srcs: Seq<crate::policy::PolicySource>, n: nat)
    requires
        n <= srcs.len(),
        crate::policy::source_errors(srcs, n).len() == 0,
    ensures
        forall|i: int| 0 <= i < n ==> #[trigger] crate::policy::source_error(srcs, i) is None,
    decreases n,
{
    if n > 0 {
        lemma_no_source_errors(srcs, (n - 1) as nat);
        assert(crate::policy::source_error(srcs, n - 1) is None);
    }
}

/// A manifest without errors declares every path once.
proof fn lemma_valid_manifest_paths_distinct(m: &crate::policy::PolicySourceManifest)
    requires
        crate::policy::manifest_errors(m).len() == 0,
    ensures
        crate::collections::all_distinct(manifest_paths(m.sources@)),
{
    let srcs = m.sources@;
    let n = srcs.len();
    assert(crate::policy::source_errors(srcs, n).len() == 0);
    lemma_no_source_errors(srcs, n);
    let ps = manifest_paths(srcs);
    assert forall|i: int, j: int| 0 <= i < ps.len() && 0 <= j < ps.len() && i != j implies ps[i] != ps[j] by {
        let (a, b) = if i < j { (i, j) } else { (j, i) };
        assert(crate::policy::source_error(srcs, a) is None);
        assert(crate::policy::source_error(srcs, b) is None);
        assert(crate::policy::portable_path_error(srcs[a].path@) is None);
        if ps[i] == ps[j] {
            assert(0 <= a < b && crate::policy::portable_path_error(srcs[a].path@) is None && srcs[a].path@ == srcs[b].path@);
        }
    }
}

fn locked_path_strings(s: &Vec<LockedPolicySource>) -> (v: Vec<String>)
    ensures
        strings_view(v@) == locked_paths(s@),
{
    let mut v: Vec<String> = Vec::new();
    let mut i: usize = 0;
    while i < s.len()
        invariant
            i <= s@.len(),
            strings_view(v@) == locked_paths(s@.take(i as int)),
        decreases s.len() - i,
    {
        let ghost before = v@;
        let p = s[i].path.clone();
        v.push(p);
        assert(strings_view(v@) =~= strings_view(before).push(p@));
        assert(locked_paths(s@.take(i + 1)) =~= locked_paths(s@.take(i as int)).push(s@[i as int].path@));
        i += 1;
    }
    assert(s@.take(i as int) =~= s@);
    v
}

/// `sorted` holds the sources of `given` in ascending order of path.
pub open spec fn sorted_sources(given: Seq<LockedPolicySource>, sorted: Seq<LockedPolicySource>) -> bool {
    exists|order: Seq<usize>|
        #[trigger] crate::collections::is_sort_order(locked_paths(given), order) && sorted.len() == order.len() && forall|
            k: int,
        |
            0 <= k < order.len() ==> #[trigger] locked_view(sorted[k]) == locked_view(given[order[k] as int])
}

/// The contents of the sources, in order.
pub open spec fn locked_views(s: Seq<LockedPolicySource>) -> Seq<(Seq<char>, crate::policy::PolicySourceKind, crate::policy::PolicySourceScope, u64, Seq<char>)> {
    s.map_values(|x: LockedPolicySource| locked_view(x))
}

/// `b` is what locking the resolved sources with the template gives: the
/// sources (with distinct paths) sorted by path, the template unchanged, and
/// the digest committing to both.
pub open spec fn locked_from(resolved: Seq<LockedPolicySource>, policy: &PolicyTemplate, b: &PolicyBundle) -> bool {
    &&& b.schema@ == POLICY_BUNDLE_SCHEMA@
    &&& crate::collections::all_distinct(locked_paths(resolved))
    &&& sorted_sources(resolved, b.sources@)
    &&& template_json(&b.policy) == template_json(policy)
    &&& b.bundle_digest@ == crate::model::json_digest(commitment_json(b.sources@, policy))
}

/// Sorted sources ascend strictly by path and hold exactly the given ones.
proof fn lemma_sorted_sources_members(given: Seq<LockedPolicySource>, sorted: Seq<LockedPolicySource>)
    requires
        sorted_sources(given, sorted),
    ensures
        crate::collections::strictly_sorted(locked_paths(sorted)),
        forall|x| #[trigger] locked_views(sorted).contains(x) <==> locked_views(given).contains(x),
        forall|y: Seq<char>| #[trigger] locked_paths(sorted).contains(y) <==> locked_paths(given).contains(y),
{
    let order = choose|order: Seq<usize>|
        #[trigger] crate::collections::is_sort_order(locked_paths(given), order) && sorted.len() == order.len() && forall|k: int|
            0 <= k < order.len() ==> #[trigger] locked_view(sorted[k]) == locked_view(given[order[k] as int]);
    let gp = locked_paths(given);
    assert forall|a: int, b: int| 0 <= a < b < locked_paths(sorted).len() implies crate::text::seq_lt(
        #[trigger] locked_paths(sorted)[a],
        #[trigger] locked_paths(sorted)[b],
    ) by {
        assert(locked_view(sorted[a]) == locked_view(given[order[a] as int]));
        assert(locked_view(sorted[b]) == locked_view(given[order[b] as int]));
        assert(crate::text::seq_lt(gp[order[a] as int], gp[order[b] as int]));
    }
    assert forall|x| #[trigger] locked_views(sorted).contains(x) <==> locked_views(given).contains(x) by {
        if locked_views(sorted).contains(x) {
            let k = choose|k: int| 0 <= k < locked_views(sorted).len() && locked_views(sorted)[k] == x;
            assert(locked_view(sorted[k]) == locked_view(given[order[k] as int]));
            assert(locked_views(given)[order[k] as int] == x);
        }
        if locked_views(given).contains(x) {
            let i = choose|i: int| 0 <= i < locked_views(given).len() && locked_views(given)[i] == x;
            assert(crate::collections::occurs(order, i));
            let a = choose|a: int| 0 <= a < order.len() && #[trigger] order[a] == i;
            assert(locked_view(sorted[a]) == locked_view(given[order[a] as int]));
            assert(locked_views(sorted)[a] == x);
        }
    }
    assert forall|y: Seq<char>| #[trigger] locked_paths(sorted).contains(y) <==> locked_paths(given).contains(y) by {
        if locked_paths(sorted).contains(y) {
            let k = choose|k: int| 0 <= k < locked_paths(sorted).len() && locked_paths(sorted)[k] == y;
            assert(locked_view(sorted[k]) == locked_view(given[order[k] as int]));
            assert(locked_paths(given)[order[k] as int] == y);
        }
        if locked_paths(given).contains(y) {
            let i = choose|i: int| 0 <= i < locked_paths(given).len() && locked_paths(given)[i] == y;
            assert(crate::collections::occurs(order, i));
            let a = choose|a: int| 0 <= a < order.len() && #[trigger] order[a] == i;
            assert(locked_view(sorted[a]) == locked_view(given[order[a] as int]));
            assert(locked_paths(sorted)[a] == y);
        }
    }
}

/// Source order is not semantic: locking the same sources, listed in any
/// order, with the same template gives bundles with the same sources in the
/// same order, the same digest, and the same serialised form.
pub proof fn law_lock_ignores_source_order(
    policy: &PolicyTemplate,
    r1: Seq<LockedPolicySource>,
    r2: Seq<LockedPolicySource>,
    b1: &PolicyBundle,
    b2: &PolicyBundle,
)
    requires
        locked_from(r1, policy, b1),
        locked_from(r2, policy, b2),
        forall|x| #[trigger] locked_views(r1).contains(x) <==> locked_views(r2).contains(x),
    ensures
        locked_views(b1.sources@) == locked_views(b2.sources@),
        b1.bundle_digest@ == b2.bundle_digest@,
        bundle_json(b1) == bundle_json(b2),
{
    let s1 = b1.sources@;
    let s2 = b2.sources@;
    lemma_sorted_sources_members(r1, s1);
    lemma_sorted_sources_members(r2, s2);
    assert(locked_views(r1).len() == r1.len() && locked_paths(r1).len() == r1.len());
    assert(locked_views(r2).len() == r2.len() && locked_paths(r2).len() == r2.len());
    assert forall|y: Seq<char>| locked_paths(s1).contains(y) <==> locked_paths(s2).contains(y) by {
        if locked_paths(r1).contains(y) {
            let i = choose|i: int| 0 <= i < locked_paths(r1).len() && locked_paths(r1)[i] == y;
            assert(locked_views(r1)[i].0 == y);
            assert(locked_views(r1).contains(locked_views(r1)[i]));
            let j = choose|j: int| 0 <= j < locked_views(r2).len() && locked_views(r2)[j] == locked_views(r1)[i];
            assert(locked_paths(r2)[j] == y);
        }
        if locked_paths(r2).contains(y) {
            let i = choose|i: int| 0 <= i < locked_paths(r2).len() && locked_paths(r2)[i] == y;
            assert(locked_views(r2)[i].0 == y);
            assert(locked_views(r2).contains(locked_views(r2)[i]));
            assert(locked_views(r1).contains(locked_views(r2)[i]));
            let j = choose|j: int| 0 <= j < locked_views(r1).len() && locked_views(r1)[j] == locked_views(r2)[i];
            assert(locked_paths(r1)[j] == y);
        }
    }
    crate::collections::lemma_sorted_same_members(locked_paths(s1), locked_paths(s2));
    assert(locked_views(s1) =~= locked_views(s2)) by {
        assert(locked_paths(s1).len() == s1.len() && locked_paths(s2).len() == s2.len());
        assert forall|k: int| 0 <= k < s1.len() implies #[trigger] locked_views(s1)[k] == locked_views(s2)[k] by {
            let x = locked_views(s1)[k];
            let z = locked_views(s2)[k];
            assert(locked_views(s1).contains(x));
            assert(locked_views(s2).contains(z));
            let i = choose|i: int| 0 <= i < locked_views(r2).len() && locked_views(r2)[i] == x;
            let j = choose|j: int| 0 <= j < locked_views(r2).len() && locked_views(r2)[j] == z;
            assert(locked_paths(s1)[k] == locked_paths(s2)[k]);
            assert(locked_paths(r2)[i] == x.0 && locked_paths(r2)[j] == z.0);
        }
    }
    assert(sources_json(s1) =~= sources_json(s2)) by {
        assert forall|k: int| 0 <= k < s1.len() implies #[trigger] sources_json(s1)[k] == sources_json(s2)[k] by {
            assert(locked_views(s1)[k] == locked_views(s2)[k]);
        }
    }
}

/// A locked bundle verifies against its sources read back unchanged: what
/// locking guarantees of a bundle is what source verification asks of it.
pub proof fn law_locked_bundle_verifies(b: &PolicyBundle, observed: Seq<LockedPolicySource>)
    requires
        bundle_accepted(b),
        locked_views(observed) == locked_views(b.sources@),
    ensures
        bundle_accepted(b) && forall|i: int| 0 <= i < b.sources@.len() ==> #[trigger] locked_view(b.sources@[i]) == locked_view(observed[i]),
{
    assert forall|i: int| 0 <= i < b.sources@.len() implies #[trigger] locked_view(b.sources@[i]) == locked_view(observed[i]) by {
        assert(locked_views(observed).len() == observed.len() && locked_views(b.sources@).len() == b.sources@.len());
        assert(locked_views(observed)[i] == locked_views(b.sources@)[i]);
    }
}

fn sort_sources(given: &Vec<LockedPolicySource>) -> (sorted: Vec<LockedPolicySource>)
    requires
        crate::collections::all_distinct(locked_paths(given@)),
    ensures
        sorted_sources(given@, sorted@),
{
    let paths = locked_path_strings(given);
    let order = crate::collections::sort_order(&paths);
    let mut sorted: Vec<LockedPolicySource> = Vec::new();
    let mut k: usize = 0;
    while k < order.len()
        invariant
            strings_view(paths@) == locked_paths(given@),
            crate::collections::is_sort_order(locked_paths(given@), order@),
            k <= order@.len(),
            sorted@.len() == k,
            forall|j: int| 0 <= j < k ==> #[trigger] locked_view(sorted@[j]) == locked_view(given@[order@[j] as int]),
        decreases order.len() - k,
    {
        let idx = order[k];
        assert(idx < given@.len());
        sorted.push(clone_locked(&given[idx]));
        k += 1;
    }
    assert(crate::collections::is_sort_order(locked_paths(given@), order@));
    sorted
}

/// Every bundle locked from these sources and this template is well formed:
/// within the size limits, with a well-formed digest and well-formed sources.
pub open spec fn locking_well_formed(resolved: Seq<LockedPolicySource>, policy: &PolicyTemplate) -> bool {
    forall|b: PolicyBundle| #[trigger] locked_from(resolved, policy, &b) && template_copy(&b.policy, policy) ==> bundle_shape_ok(&b)
}

/// Locks a policy bundle from a manifest, a template, and the sources the
/// manifest names as read from disk (`resolved`, in manifest order): both
/// inputs are validated, the sources are ordered by path, and the bundle
/// digest commits to them and the template.
pub fn lock_policy_bundle(
    manifest: &crate::policy::PolicySourceManifest,
    policy: &PolicyTemplate,
    resolved: &Vec<LockedPolicySource>,
) -> (r: Result<PolicyBundle, PolicyError>)
    requires
        locked_paths(resolved@) == manifest_paths(manifest.sources@),
    ensures
        crate::policy::manifest_errors(manifest).len() > 0 ==> (r matches Err(PolicyError::Invalid(m)) && m@ == crate::text::join_lines(
            crate::policy::manifest_errors(manifest),
        )),
        r matches Ok(b) ==> {
            &&& crate::policy::manifest_errors(manifest).len() == 0
            &&& template_accepted(policy)
            &&& locked_from(resolved@, policy, &b)
            &&& template_copy(&b.policy, policy)
            &&& bundle_accepted(&b)
        },
        crate::policy::manifest_errors(manifest).len() == 0 && template_accepted(policy) && locking_well_formed(resolved@, policy)
            ==> r is Ok,
{
    match crate::policy::validate_policy_source_manifest(manifest) {
        Ok(()) => {},
        Err(e) => {
            return Err(e);
        },
    }
    match validate_policy_template(policy) {
        Ok(()) => {},
        Err(e) => {
            return Err(e);
        },
    }
    proof { lemma_valid_manifest_paths_distinct(manifest); }
    let sources = sort_sources(resolved);
    let bundle_digest = policy_bundle_digest(&sources, policy);
    let bundle = PolicyBundle {
        schema: String::from_str(POLICY_BUNDLE_SCHEMA),
        bundle_digest,
        sources,
        policy: clone_template(policy),
    };
    proof {
        if crate::policy::manifest_errors(manifest).len() == 0 && template_accepted(policy) && locking_well_formed(resolved@, policy) {
            assert(locked_from(resolved@, policy, &bundle));
            assert(bundle_shape_ok(&bundle));
            let q = choose|q: ActionRequest| #[trigger] template_request_ok(policy, &q) && request_valid(&q);
            assert(template_request_ok(&bundle.policy, &q));
            assert(template_accepted(&bundle.policy));
        }
    }
    match validate_policy_bundle(&bundle) {
        Ok(()) => Ok(bundle),
        Err(e) => Err(e),
    }
}

/// A source as a declaration: its path, kind, and scope.
pub fn declared_source(s: &LockedPolicySource) -> (d: crate::policy::PolicySource)
    ensures
        d.path@ == s.path@ && d.kind == s.kind && d.scope == s.scope,
{
    crate::policy::PolicySource { path: s.path.clone(), kind: s.kind, scope: s.scope }
}

/// The declarations of a bundle's sources, whose files are read again to
/// check them against the bundle.
pub fn bundle_declarations(bundle: &PolicyBundle) -> (v: Vec<crate::policy::PolicySource>)
    ensures
        manifest_paths(v@) == locked_paths(bundle.sources@),
        forall|i: int| 0 <= i < v@.len() ==> #[trigger] v@[i].kind == bundle.sources@[i].kind && v@[i].scope == bundle.sources@[i].scope,
{
    let mut v: Vec<crate::policy::PolicySource> = Vec::new();
    let mut i: usize = 0;
    while i < bundle.sources.len()
        invariant
            i <= bundle.sources@.len(),
            manifest_paths(v@) == locked_paths(bundle.sources@.take(i as int)),
            v@.len() == i,
            forall|k: int| 0 <= k < v@.len() ==> #[trigger] v@[k].kind == bundle.sources@[k].kind && v@[k].scope == bundle.sources@[k].scope,
        decreases bundle.sources.len() - i,
    {
        let ghost before = v@;
        let d = declared_source(&bundle.sources[i]);
        v.push(d);
        assert(manifest_paths(v@) =~= manifest_paths(before).push(d.path@));
        assert(locked_paths(bundle.sources@.take(i + 1)) =~= locked_paths(bundle.sources@.take(i as int)).push(
            bundle.sources@[i as int].path@,
        ));
        i += 1;
    }
    assert(bundle.sources@.take(i as int) =~= bundle.sources@);
    v
}

fn locked_same(a: &LockedPolicySource, b: &LockedPolicySource) -> (r: bool)
    ensures
        r == (locked_view(*a) == locked_view(*b)),
{
    str_eq(a.path.as_str(), b.path.as_str()) && a.kind == b.kind && a.scope == b.scope && a.size_bytes == b.size_bytes
        && str_eq(a.digest.as_str(), b.digest.as_str())
}

/// The message reporting that the source at `i` no longer matches its lock.
pub open spec fn source_drift_message(i: int, expected: LockedPolicySource, actual: LockedPolicySource) -> Seq<char> {
    "$.sources["@ + crate::text::decimal(i as nat) + "]: source drift for "@ + crate::text::debug_text(expected.path@)
        + "; expected size "@ + crate::text::decimal(expected.size_bytes as nat) + " and digest "@ + expected.digest@
        + ", observed size "@ + crate::text::decimal(actual.size_bytes as nat) + " and digest "@ + actual.digest@
}

/// Checks a validated bundle against its sources as read again
/// (`observed`, in bundle order): every source pairs with an identical one.
pub fn verify_policy_sources(bundle: &PolicyBundle, observed: &Vec<LockedPolicySource>) -> (r: Result<
    crate::policy::PolicySourceVerification,
    PolicyError,
>)
    requires
        locked_paths(observed@) == locked_paths(bundle.sources@),
    ensures
        r matches Ok(v) ==> {
            &&& bundle_accepted(bundle)
            &&& forall|i: int| 0 <= i < bundle.sources@.len() ==> #[trigger] locked_view(bundle.sources@[i]) == locked_view(observed@[i])
            &&& v.schema@ == crate::policy::POLICY_SOURCE_VERIFICATION_SCHEMA@
            &&& v.status@ == "verified"@
            &&& v.policy_bundle_digest@ == bundle.bundle_digest@
            &&& v.sources_verified == bundle.sources@.len()
        },
        bundle_accepted(bundle) && (forall|i: int|
            0 <= i < bundle.sources@.len() ==> #[trigger] locked_view(bundle.sources@[i]) == locked_view(observed@[i])) ==> r is Ok,
        r matches Err(e) ==> e is Invalid,
        bundle_accepted(bundle) && r is Err ==> exists|i: int|
            0 <= i < bundle.sources@.len() && locked_view(#[trigger] bundle.sources@[i]) != locked_view(observed@[i]) && (forall|k: int|
                0 <= k < i ==> #[trigger] locked_view(bundle.sources@[k]) == locked_view(observed@[k])) && (r matches Err(
                PolicyError::Invalid(m),
            ) && m@ == source_drift_message(i, bundle.sources@[i], observed@[i])),
{
    match validate_policy_bundle(bundle) {
        Ok(()) => {},
        Err(e) => {
            return Err(e);
        },
    }
    let n = bundle.sources.len();
    let mut i: usize = 0;
    while i < n
        invariant
            n == bundle.sources@.len(),
            locked_paths(observed@) == locked_paths(bundle.sources@),
            i <= n,
            forall|k: int| 0 <= k < i ==> #[trigger] locked_view(bundle.sources@[k]) == locked_view(observed@[k]),
        decreases n - i,
    {
        assert(locked_paths(observed@).len() == observed@.len());
        let expected = &bundle.sources[i];
        let actual = &observed[i];
        if !locked_same(expected, actual) {
            let mut out = chars_of("$.sources[");
            crate::text::push_decimal(&mut out, i as u64);
            push_str(&mut out, "]: source drift for ");
            crate::text::push_debug(&mut out, expected.path.as_str());
            push_str(&mut out, "; expected size ");
            crate::text::push_decimal(&mut out, expected.size_bytes);
            push_str(&mut out, " and digest ");
            push_str(&mut out, expected.digest.as_str());
            push_str(&mut out, ", observed size ");
            crate::text::push_decimal(&mut out, actual.size_bytes);
            push_str(&mut out, " and digest ");
            push_str(&mut out, actual.digest.as_str());
            let text = crate::text::string_from_chars(out.as_slice());
            proof {
                reveal_strlit("$.sources[");
                assert(text@ == source_drift_message(i as int, *expected, *actual));
            }
            return invalid(text);
        }
        i += 1;
    }
    Ok(crate::policy::PolicySourceVerification {
        schema: crate::policy::POLICY_SOURCE_VERIFICATION_SCHEMA,
        status: "verified",
        policy_bundle_digest: bundle.bundle_digest.clone(),
        sources_verified: n,
    })
}

} // verus!
