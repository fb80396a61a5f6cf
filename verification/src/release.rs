use vstd::prelude::*;

use crate::action::{
    admitted_for, declared, effects_json, map_json, ActionEffect, ActionRequest, Mission, ProposedAction,
};
use crate::clone::{fact_view, facts_view, rule_view, rules_view};
use crate::collections::{StrMap, StrSet};
use crate::engine::{atom_views, Bindings};
use crate::json::{string_value, JsonV, JsonValue};
use crate::model::{clone_opt_string, clone_strings, opt_view, AtomV, Atom, Fact, Predicate, Program, Rule, ScalarType};
use crate::text::{blank, chars_of, is_blank, push_str, str_eq, strings_view};

verus! {

pub const RELEASE_AUTHORIZATION_SCHEMA: &'static str = "zerker.reason.release-authorization.v1";
pub const TOOL_REPORTED: &'static str = "tool-reported";
pub const HUMAN_AUTHORIZED: &'static str = "human-authorized";

/// The mission a release is carried out under.
#[derive(Clone, Debug)]
pub struct ReleaseMission {
    pub id: String,
    pub principal: String,
    pub instruction_digest: String,
    pub issued_at: String,
    pub valid_until: Option<String>,
}

/// The exact release to authorize.
#[derive(Clone, Debug)]
pub struct ReleaseTarget {
    pub action_id: String,
    pub tool: String,
    pub version: String,
    pub commit: String,
    pub environment: String,
    pub artifact_digest: String,
    pub required_approver: String,
    pub proposed_at: String,
}

/// Whether a check passed or failed.
#[derive(Clone, Copy, Debug, PartialEq, Eq, Structural)]
pub enum DecisionStatus {
    Passed,
    Failed,
}

/// Whether an approver approved or denied.
#[derive(Clone, Copy, Debug, PartialEq, Eq, Structural)]
pub enum ApprovalStatus {
    Approved,
    Denied,
}

/// A pass/fail decision about a commit (tests, security review).
#[derive(Clone, Debug)]
pub struct CommitDecisionEvidence {
    pub id: String,
    pub commit: String,
    pub status: DecisionStatus,
    pub authority: String,
    pub observed_at: String,
    pub valid_until: Option<String>,
    pub supersedes: Vec<String>,
}

/// A built artifact of a commit.
#[derive(Clone, Debug)]
pub struct ArtifactEvidence {
    pub id: String,
    pub commit: String,
    pub digest: String,
    pub authority: String,
    pub observed_at: String,
    pub valid_until: Option<String>,
    pub supersedes: Vec<String>,
}

/// An approval or denial of an exact release.
#[derive(Clone, Debug)]
pub struct ApprovalEvidence {
    pub id: String,
    pub version: String,
    pub commit: String,
    pub environment: String,
    pub artifact_digest: String,
    pub tool: String,
    pub approver: String,
    pub status: ApprovalStatus,
    pub authority: String,
    pub observed_at: String,
    pub valid_until: Option<String>,
    pub supersedes: Vec<String>,
}

/// The evidence offered for a release.
#[derive(Clone, Debug)]
pub struct ReleaseEvidence {
    pub tests: Vec<CommitDecisionEvidence>,
    pub security_reviews: Vec<CommitDecisionEvidence>,
    pub artifacts: Vec<ArtifactEvidence>,
    pub approvals: Vec<ApprovalEvidence>,
}

/// A release authorization input: when, under which mission, which release, on what evidence.
#[derive(Clone, Debug)]
pub struct ReleaseAuthorizationInput {
    pub schema: String,
    pub evaluation_time: String,
    pub mission: ReleaseMission,
    pub release: ReleaseTarget,
    pub evidence: ReleaseEvidence,
}

/// The release fields that must not be blank, and a well-formed artifact digest.
pub open spec fn release_target_ok(t: &ReleaseTarget) -> bool {
    &&& !is_blank(t.action_id@)
    &&& !is_blank(t.tool@)
    &&& !is_blank(t.version@)
    &&& !is_blank(t.commit@)
    &&& !is_blank(t.environment@)
    &&& !is_blank(t.required_approver@)
    &&& crate::action::valid_digest_spec(t.artifact_digest@)
}

/// The error a blank required field gives: none when it is filled in.
pub open spec fn required_error(value: Seq<char>, path: Seq<char>) -> Seq<Seq<char>> {
    if is_blank(value) {
        seq![path + ": must not be empty"@]
    } else {
        Seq::empty()
    }
}

/// The problems of a release target, in the order they are reported.
pub open spec fn release_target_errors(t: &ReleaseTarget) -> Seq<Seq<char>> {
    required_error(t.action_id@, "$.release.action_id"@) + required_error(t.tool@, "$.release.tool"@) + required_error(
        t.version@,
        "$.release.version"@,
    ) + required_error(t.commit@, "$.release.commit"@) + required_error(t.environment@, "$.release.environment"@)
        + required_error(t.required_approver@, "$.release.required_approver"@) + if crate::action::valid_digest_spec(
        t.artifact_digest@,
    ) {
        Seq::<Seq<char>>::empty()
    } else {
        seq!["$.release.artifact_digest: expected sha256 followed by 64 lowercase hexadecimal characters"@]
    }
}

fn required(value: &str, path: &str, errors: &mut Vec<String>)
    ensures
        strings_view(final(errors)@) == strings_view(old(errors)@) + required_error(value@, path@),
{
    let ghost before = errors@;
    if blank(value) {
        let mut out = chars_of(path);
        push_str(&mut out, ": must not be empty");
        errors.push(crate::text::string_from_chars(out.as_slice()));
        assert(strings_view(errors@) =~= strings_view(before) + required_error(value@, path@));
    } else {
        assert(strings_view(errors@) =~= strings_view(before) + required_error(value@, path@));
    }
}

/// Checks the release target; every problem is reported, one per line.
pub fn validate_release_target(target: &ReleaseTarget) -> (r: Result<(), crate::error::ReasonError>)
    ensures
        r is Ok <==> release_target_ok(target),
        r matches Err(e) ==> e is InvalidAction,
        r matches Err(e) ==> (e matches crate::error::ReasonError::InvalidAction(m) && m@ == crate::text::join_lines(
            release_target_errors(target),
        )),
{
    let mut errors: Vec<String> = Vec::new();
    assert(strings_view(errors@) =~= Seq::<Seq<char>>::empty());
    required(target.action_id.as_str(), "$.release.action_id", &mut errors);
    required(target.tool.as_str(), "$.release.tool", &mut errors);
    required(target.version.as_str(), "$.release.version", &mut errors);
    required(target.commit.as_str(), "$.release.commit", &mut errors);
    required(target.environment.as_str(), "$.release.environment", &mut errors);
    required(target.required_approver.as_str(), "$.release.required_approver", &mut errors);
    let ghost before = errors@;
    if !crate::action::valid_digest(target.artifact_digest.as_str()) {
        errors.push(String::from_str(
            "$.release.artifact_digest: expected sha256 followed by 64 lowercase hexadecimal characters",
        ));
    }
    proof {
        let t = target;
        assert(strings_view(errors@) =~= release_target_errors(target)) by {
            assert(Seq::<Seq<char>>::empty() + required_error(t.action_id@, "$.release.action_id"@) =~= required_error(
                t.action_id@,
                "$.release.action_id"@,
            ));
        }
        assert(release_target_ok(target) <==> release_target_errors(target).len() == 0);
    }
    if errors.len() == 0 {
        Ok(())
    } else {
        Err(crate::error::ReasonError::InvalidAction(crate::text::join_newline(&errors)))
    }
}

/// Whether a digest is `sha256:` followed by 64 lowercase hexadecimal digits.
pub fn valid_sha256(value: &str) -> (b: bool)
    ensures
        b == crate::action::valid_digest_spec(value@),
{
    crate::action::valid_digest(value)
}

/// A string predicate of the given arity.
pub fn string_predicate(arguments: usize) -> (p: Predicate)
    ensures
        p.arguments@ == Seq::new(arguments as nat, |i: int| ScalarType::String),
{
    let mut v: Vec<ScalarType> = Vec::new();
    let mut i: usize = 0;
    while i < arguments
        invariant
            i <= arguments,
            v@ == Seq::new(i as nat, |k: int| ScalarType::String),
        decreases arguments - i,
    {
        v.push(ScalarType::String);
        proof {
            assert(v@ =~= Seq::new((i + 1) as nat, |k: int| ScalarType::String));
        }
        i += 1;
    }
    Predicate { arguments: v }
}

/// The string atom with the given JSON arguments.
pub open spec fn atom_spec(predicate: Seq<char>, args: Seq<JsonV>, negated: bool) -> AtomV {
    AtomV { predicate, arguments: args, negated }
}

fn atom(predicate: &str, arguments: Vec<JsonValue>, negated: bool) -> (a: Atom)
    ensures
        a@ == atom_spec(predicate@, crate::json::json_views(arguments@), negated),
{
    Atom { predicate: String::from_str(predicate), arguments, negated }
}

fn s(v: &str) -> (j: JsonValue)
    ensures
        j@ == JsonV::Str(v@),
{
    string_value(v)
}

fn args1(a: JsonValue) -> (v: Vec<JsonValue>)
    ensures
        crate::json::json_views(v@) == seq![a@],
{
    let mut v: Vec<JsonValue> = Vec::new();
    v.push(a);
    proof { crate::json::lemma_json_views(v@); }
    assert(crate::json::json_views(v@) =~= seq![a@]);
    v
}

fn args2(a: JsonValue, b: JsonValue) -> (v: Vec<JsonValue>)
    ensures
        crate::json::json_views(v@) == seq![a@, b@],
{
    let mut v: Vec<JsonValue> = Vec::new();
    v.push(a);
    v.push(b);
    proof { crate::json::lemma_json_views(v@); }
    assert(crate::json::json_views(v@) =~= seq![a@, b@]);
    v
}

fn args3(a: JsonValue, b: JsonValue, c: JsonValue) -> (v: Vec<JsonValue>)
    ensures
        crate::json::json_views(v@) == seq![a@, b@, c@],
{
    let mut v: Vec<JsonValue> = Vec::new();
    v.push(a);
    v.push(b);
    v.push(c);
    proof { crate::json::lemma_json_views(v@); }
    assert(crate::json::json_views(v@) =~= seq![a@, b@, c@]);
    v
}

fn args4(a: JsonValue, b: JsonValue, c: JsonValue, d: JsonValue) -> (v: Vec<JsonValue>)
    ensures
        crate::json::json_views(v@) == seq![a@, b@, c@, d@],
{
    let mut v: Vec<JsonValue> = Vec::new();
    v.push(a);
    v.push(b);
    v.push(c);
    v.push(d);
    proof { crate::json::lemma_json_views(v@); }
    assert(crate::json::json_views(v@) =~= seq![a@, b@, c@, d@]);
    v
}

fn args6(a: JsonValue, b: JsonValue, c: JsonValue, d: JsonValue, e: JsonValue, f: JsonValue) -> (v: Vec<JsonValue>)
    ensures
        crate::json::json_views(v@) == seq![a@, b@, c@, d@, e@, f@],
{
    let mut v: Vec<JsonValue> = Vec::new();
    v.push(a);
    v.push(b);
    v.push(c);
    v.push(d);
    v.push(e);
    v.push(f);
    proof { crate::json::lemma_json_views(v@); }
    assert(crate::json::json_views(v@) =~= seq![a@, b@, c@, d@, e@, f@]);
    v
}


pub open spec fn str_args(v: Seq<Seq<char>>) -> Seq<JsonV> {
    crate::json::strings_json(v)
}

pub type FactView = (Seq<char>, AtomV, Seq<char>, Option<Seq<char>>, Option<Seq<char>>, Option<Seq<char>>, Seq<Seq<char>>);

/// The fact a pass/fail decision about a commit contributes: negated when it failed.
pub open spec fn decision_fact_view(predicate: Seq<char>, e: CommitDecisionEvidence) -> FactView {
    (
        e.id@,
        atom_spec(predicate, seq![JsonV::Str(e.commit@)], e.status == DecisionStatus::Failed),
        e.authority@,
        Some(e.observed_at@),
        None,
        opt_view(e.valid_until),
        strings_view(e.supersedes@),
    )
}

pub open spec fn artifact_fact_view(e: ArtifactEvidence) -> FactView {
    (
        e.id@,
        atom_spec("artifact_built"@, seq![JsonV::Str(e.commit@), JsonV::Str(e.digest@)], false),
        e.authority@,
        Some(e.observed_at@),
        None,
        opt_view(e.valid_until),
        strings_view(e.supersedes@),
    )
}

/// The fact an approval contributes: negated when it is a denial.
pub open spec fn approval_fact_view(e: ApprovalEvidence) -> FactView {
    (
        e.id@,
        atom_spec(
            "release_approved"@,
            str_args(seq![e.version@, e.commit@, e.environment@, e.artifact_digest@, e.tool@, e.approver@]),
            e.status == ApprovalStatus::Denied,
        ),
        e.authority@,
        Some(e.observed_at@),
        None,
        opt_view(e.valid_until),
        strings_view(e.supersedes@),
    )
}

/// The facts of the evidence: tests, security reviews, artifacts, approvals, each in order.
pub open spec fn evidence_facts(e: &ReleaseEvidence) -> Seq<FactView> {
    e.tests@.map_values(|x: CommitDecisionEvidence| decision_fact_view("tests_passed"@, x)) + e.security_reviews@.map_values(
        |x: CommitDecisionEvidence| decision_fact_view("security_reviewed"@, x),
    ) + e.artifacts@.map_values(|x: ArtifactEvidence| artifact_fact_view(x)) + e.approvals@.map_values(
        |x: ApprovalEvidence| approval_fact_view(x),
    )
}

/// `x` is the authority of some piece of evidence.
pub open spec fn evidence_authority(e: &ReleaseEvidence, x: Seq<char>) -> bool {
    ||| exists|i: int| 0 <= i < e.tests@.len() && #[trigger] e.tests@[i].authority@ == x
    ||| exists|i: int| 0 <= i < e.security_reviews@.len() && #[trigger] e.security_reviews@[i].authority@ == x
    ||| exists|i: int| 0 <= i < e.artifacts@.len() && #[trigger] e.artifacts@[i].authority@ == x
    ||| exists|i: int| 0 <= i < e.approvals@.len() && #[trigger] e.approvals@[i].authority@ == x
}

/// The rule that authorizes exactly this release: the mission is active and
/// covers the action with exactly these constraints, the action is this tool
/// call with exactly these arguments and effect, and tests, security review,
/// artifact, and approval all support exactly this commit and artifact.
pub open spec fn authorize_rule_view(input: &ReleaseAuthorizationInput) -> (Seq<char>, Seq<AtomV>, AtomV) {
    let t = input.release;
    let m = JsonV::Str("$mission"@);
    let a = JsonV::Str(t.action_id@);
    let c = JsonV::Str(t.commit@);
    let v = JsonV::Str(t.version@);
    let e = JsonV::Str(t.environment@);
    let d = JsonV::Str(t.artifact_digest@);
    let p = JsonV::Str(t.required_approver@);
    (
        "release.authorize"@,
        seq![
            atom_spec("mission_active"@, seq![m], false),
            atom_spec("mission_action"@, seq![m, a], false),
            atom_spec("mission_principal"@, seq![m, JsonV::Str(input.mission.principal@)], false),
            atom_spec("mission_constraint"@, seq![m, JsonV::Str("commit"@), c], false),
            atom_spec("mission_constraint"@, seq![m, JsonV::Str("version"@), v], false),
            atom_spec("mission_constraint"@, seq![m, JsonV::Str("environment"@), e], false),
            atom_spec("mission_constraint"@, seq![m, JsonV::Str("artifact_digest"@), d], false),
            atom_spec("action_tool"@, seq![a, JsonV::Str(t.tool@)], false),
            atom_spec("action_argument"@, seq![a, JsonV::Str("commit"@), c], false),
            atom_spec("action_argument"@, seq![a, JsonV::Str("version"@), v], false),
            atom_spec("action_argument"@, seq![a, JsonV::Str("environment"@), e], false),
            atom_spec("action_argument"@, seq![a, JsonV::Str("artifact_digest"@), d], false),
            atom_spec("action_effect"@, seq![a, JsonV::Str("deploy"@), JsonV::Str("release:"@ + t.version@), e], false),
            atom_spec("tests_passed"@, seq![c], false),
            atom_spec("security_reviewed"@, seq![c], false),
            atom_spec("artifact_built"@, seq![c, d], false),
            atom_spec("release_approved"@, seq![v, c, e, d, JsonV::Str(t.tool@), p], false),
        ],
        atom_spec("action_authorized"@, seq![a], false),
    )
}

/// A rule that denies the action on one piece of negative evidence.
pub open spec fn deny_rule_view(id: Seq<char>, evidence: AtomV, action_id: Seq<char>) -> (Seq<char>, Seq<AtomV>, AtomV) {
    (id, seq![evidence], atom_spec("action_authorized"@, seq![JsonV::Str(action_id)], true))
}

/// The rules of a release policy: the authorizing rule, then denials on
/// failed tests, a rejected security review, and a denied approval.
pub open spec fn release_rules(input: &ReleaseAuthorizationInput) -> Seq<(Seq<char>, Seq<AtomV>, AtomV)> {
    let t = input.release;
    let c = JsonV::Str(t.commit@);
    seq![
        authorize_rule_view(input),
        deny_rule_view("release.deny.failed-tests"@, atom_spec("tests_passed"@, seq![c], true), t.action_id@),
        deny_rule_view("release.deny.rejected-security-review"@, atom_spec("security_reviewed"@, seq![c], true), t.action_id@),
        deny_rule_view(
            "release.deny.rejected-approval"@,
            atom_spec(
                "release_approved"@,
                str_args(seq![t.version@, t.commit@, t.environment@, t.artifact_digest@, t.tool@, t.required_approver@]),
                true,
            ),
            t.action_id@,
        ),
    ]
}

/// The declared arity of each release predicate.
pub open spec fn release_arity(k: Seq<char>) -> Option<nat> {
    if k == "tests_passed"@ {
        Some(1)
    } else if k == "security_reviewed"@ {
        Some(1)
    } else if k == "artifact_built"@ {
        Some(2)
    } else if k == "release_approved"@ {
        Some(6)
    } else {
        None
    }
}

/// The authority admitted for each release predicate.
pub open spec fn release_admission(k: Seq<char>) -> Option<Seq<Seq<char>>> {
    if k == "tests_passed"@ || k == "artifact_built"@ {
        Some(seq![TOOL_REPORTED@])
    } else if k == "security_reviewed"@ || k == "release_approved"@ {
        Some(seq![HUMAN_AUTHORIZED@])
    } else {
        None
    }
}

/// The constraints and arguments of a release, by name.
pub open spec fn release_bindings_json(t: &ReleaseTarget) -> JsonV {
    JsonV::Object(
        seq!["artifact_digest"@, "commit"@, "environment"@, "version"@],
        seq![JsonV::Str(t.artifact_digest@), JsonV::Str(t.commit@), JsonV::Str(t.environment@), JsonV::Str(t.version@)],
    )
}

/// The action request a release input compiles to (see the clauses).
pub open spec fn release_request_ok(input: &ReleaseAuthorizationInput, r: &ActionRequest) -> bool {
    let t = input.release;
    let m = input.mission;
    let p = r.policy;
    &&& r.schema@ == crate::action::ACTION_REQUEST_SCHEMA@
    &&& r.mission.id@ == m.id@
    &&& r.mission.principal@ == m.principal@
    &&& r.mission.instruction_digest@ == m.instruction_digest@
    &&& r.mission.issued_at@ == m.issued_at@
    &&& opt_view(r.mission.valid_until) == opt_view(m.valid_until)
    &&& map_json(&r.mission.constraints) == release_bindings_json(&t)
    &&& r.action.id@ == t.action_id@
    &&& r.action.tool@ == t.tool@
    &&& r.action.proposed_at@ == t.proposed_at@
    &&& map_json(&r.action.arguments) == release_bindings_json(&t)
    &&& effects_json(r.action.effects@) == seq![
        JsonV::Object(
            seq!["kind"@, "resource"@, "value"@],
            seq![JsonV::Str("deploy"@), JsonV::Str("release:"@ + t.version@), JsonV::Str(t.environment@)],
        ),
    ]
    &&& p.schema@ == crate::model::PROGRAM_SCHEMA_V2@
    &&& p.ontology.id@ == "zerker.release-safety"@
    &&& p.ontology.version@ == "1"@
    &&& forall|k: Seq<char>| #[trigger] declared(&p.ontology.predicates, k) == match release_arity(k) {
        Some(n) => Some(Seq::new(n, |i: int| ScalarType::String)),
        None => None,
    }
    &&& forall|x: Seq<char>| #[trigger] p.authority.classes.has(x) <==> (x == TOOL_REPORTED@ || x == HUMAN_AUTHORIZED@
        || evidence_authority(&input.evidence, x))
    &&& p.authority.default_admit.view_seq().len() == 0
    &&& forall|k: Seq<char>| #[trigger] admitted_for(&p.authority.predicate_admit, k) == release_admission(k)
    &&& opt_view(p.evaluation_time) == Some(input.evaluation_time@)
    &&& facts_view(p.facts@) == evidence_facts(&input.evidence)
    &&& rules_view(p.rules@) == release_rules(input)
    &&& p.query@ == crate::action::authorization_query_spec(t.action_id@)
}

/// Evidence observed at `observed` and valid until `until` (if ever) is in
/// force at `e`: observed no later than `e`, and not expired at `e`.
pub open spec fn in_force(observed: Seq<char>, until: Option<Seq<char>>, e: Seq<char>) -> bool {
    &&& !crate::text::seq_lt(e, observed)
    &&& match until {
        Some(u) => !crate::text::seq_le(u, e),
        None => true,
    }
}

/// A tool-reported, passing test run of the release's commit, in force at evaluation time.
pub open spec fn test_supports(input: &ReleaseAuthorizationInput, x: CommitDecisionEvidence) -> bool {
    &&& x.commit@ == input.release.commit@
    &&& x.status == DecisionStatus::Passed
    &&& x.authority@ == TOOL_REPORTED@
    &&& in_force(x.observed_at@, opt_view(x.valid_until), input.evaluation_time@)
}

/// A human-authorized, passed security review of the release's commit, in force at evaluation time.
pub open spec fn review_supports(input: &ReleaseAuthorizationInput, x: CommitDecisionEvidence) -> bool {
    &&& x.commit@ == input.release.commit@
    &&& x.status == DecisionStatus::Passed
    &&& x.authority@ == HUMAN_AUTHORIZED@
    &&& in_force(x.observed_at@, opt_view(x.valid_until), input.evaluation_time@)
}

/// A tool-reported artifact of the release's commit with the release's digest, in force at evaluation time.
pub open spec fn artifact_supports(input: &ReleaseAuthorizationInput, x: ArtifactEvidence) -> bool {
    &&& x.commit@ == input.release.commit@
    &&& x.digest@ == input.release.artifact_digest@
    &&& x.authority@ == TOOL_REPORTED@
    &&& in_force(x.observed_at@, opt_view(x.valid_until), input.evaluation_time@)
}

/// A human-authorized approval by the required approver of exactly this
/// version, commit, environment, artifact, and tool, in force at evaluation time.
pub open spec fn approval_supports(input: &ReleaseAuthorizationInput, x: ApprovalEvidence) -> bool {
    let t = input.release;
    &&& x.version@ == t.version@
    &&& x.commit@ == t.commit@
    &&& x.environment@ == t.environment@
    &&& x.artifact_digest@ == t.artifact_digest@
    &&& x.tool@ == t.tool@
    &&& x.approver@ == t.required_approver@
    &&& x.status == ApprovalStatus::Approved
    &&& x.authority@ == HUMAN_AUTHORIZED@
    &&& in_force(x.observed_at@, opt_view(x.valid_until), input.evaluation_time@)
}

/// The evidence supports exactly this release: a passing test run, a passed
/// security review, a matching artifact, and an approval, each of the kind above.
pub open spec fn release_supported(input: &ReleaseAuthorizationInput) -> bool {
    let e = input.evidence;
    &&& exists|i: int| 0 <= i < e.tests@.len() && test_supports(input, #[trigger] e.tests@[i])
    &&& exists|i: int| 0 <= i < e.security_reviews@.len() && review_supports(input, #[trigger] e.security_reviews@[i])
    &&& exists|i: int| 0 <= i < e.artifacts@.len() && artifact_supports(input, #[trigger] e.artifacts@[i])
    &&& exists|i: int| 0 <= i < e.approvals@.len() && approval_supports(input, #[trigger] e.approvals@[i])
}

/// The evidence predicates are not reserved, and differ from `action_authorized`.
pub proof fn lemma_evidence_predicates_free()
    ensures
        forall|j: int| 0 <= j < 9 ==> #[trigger] crate::action::reserved_entry(j).0 != "tests_passed"@
            && crate::action::reserved_entry(j).0 != "security_reviewed"@
            && crate::action::reserved_entry(j).0 != "artifact_built"@
            && crate::action::reserved_entry(j).0 != "release_approved"@,
{
    reveal_strlit("tests_passed");
    reveal_strlit("security_reviewed");
    reveal_strlit("artifact_built");
    reveal_strlit("release_approved");
    reveal_strlit("action_authorized");
    reveal_strlit("mission_active");
    reveal_strlit("mission_action");
    reveal_strlit("mission_principal");
    reveal_strlit("mission_instruction");
    reveal_strlit("mission_constraint");
    reveal_strlit("action_tool");
    reveal_strlit("action_argument");
    reveal_strlit("action_effect");
    assert forall|j: int| 0 <= j < 9 implies #[trigger] crate::action::reserved_entry(j).0 != "tests_passed"@
        && crate::action::reserved_entry(j).0 != "security_reviewed"@
        && crate::action::reserved_entry(j).0 != "artifact_built"@
        && crate::action::reserved_entry(j).0 != "release_approved"@ by {
        let k = crate::action::reserved_entry(j).0;
        assert(k.len() != 12 && k.len() != 16);
        if k.len() == 17 {
            assert(k[0] != "security_reviewed"@[0]);
        }
        if k.len() == 14 {
            assert(k[0] != "artifact_built"@[0]);
        }
    }
}

/// The evidence fact at index `i`: which piece of evidence it comes from.
pub proof fn lemma_evidence_at(e: &ReleaseEvidence, i: int)
    requires
        0 <= i < evidence_facts(e).len(),
    ensures
        evidence_facts(e).len() == e.tests@.len() + e.security_reviews@.len() + e.artifacts@.len() + e.approvals@.len(),
        i < e.tests@.len() ==> evidence_facts(e)[i] == decision_fact_view("tests_passed"@, e.tests@[i]),
        e.tests@.len() <= i < e.tests@.len() + e.security_reviews@.len() ==> evidence_facts(e)[i] == decision_fact_view(
            "security_reviewed"@,
            e.security_reviews@[i - e.tests@.len()],
        ),
        e.tests@.len() + e.security_reviews@.len() <= i < e.tests@.len() + e.security_reviews@.len() + e.artifacts@.len()
            ==> evidence_facts(e)[i] == artifact_fact_view(e.artifacts@[i - e.tests@.len() - e.security_reviews@.len()]),
        e.tests@.len() + e.security_reviews@.len() + e.artifacts@.len() <= i ==> evidence_facts(e)[i] == approval_fact_view(
            e.approvals@[i - e.tests@.len() - e.security_reviews@.len() - e.artifacts@.len()],
        ),
{
}


/// The set holding just `x`.
pub fn singleton(x: &str) -> (r: StrSet)
    ensures
        r.view_seq() == seq![x@],
{
    let mut r = StrSet::new();
    r.insert(String::from_str(x));
    proof {
        use_type_invariant(&r);
        let v = r.view_seq();
        assert(v.contains(x@));
        if v.len() > 1 {
            assert(crate::text::seq_lt(v[0], v[1]));
            crate::text::lemma_seq_lt_irreflexive(v[0]);
            assert(r.has(v[0]) && r.has(v[1]));
        }
        assert(v =~= seq![x@]);
    }
    r
}

fn insert_authorities_decision(set: &mut StrSet, v: &Vec<CommitDecisionEvidence>)
    ensures
        forall|x: Seq<char>| #[trigger] final(set).has(x) <==> (old(set).has(x) || exists|i: int| 0 <= i < v@.len() && #[trigger] v@[i].authority@ == x),
{
    let ghost start = *set;
    let mut i: usize = 0;
    while i < v.len()
        invariant
            i <= v@.len(),
            forall|x: Seq<char>| #[trigger] set.has(x) <==> (start.has(x) || exists|k: int| 0 <= k < i && #[trigger] v@[k].authority@ == x),
        decreases v.len() - i,
    {
        let ghost before = *set;
        set.insert(v[i].authority.clone());
        proof {
            assert forall|x: Seq<char>| #[trigger] set.has(x) <==> (start.has(x) || exists|k: int| 0 <= k < i + 1 && #[trigger] v@[k].authority@ == x) by {
                if x == v@[i as int].authority@ {
                    assert(v@[i as int].authority@ == x);
                }
                if exists|k: int| 0 <= k < i + 1 && #[trigger] v@[k].authority@ == x {
                    let k = choose|k: int| 0 <= k < i + 1 && #[trigger] v@[k].authority@ == x;
                    if k < i {
                        assert(before.has(x));
                    }
                }
            }
        }
        i += 1;
    }
}

fn insert_authorities_artifact(set: &mut StrSet, v: &Vec<ArtifactEvidence>)
    ensures
        forall|x: Seq<char>| #[trigger] final(set).has(x) <==> (old(set).has(x) || exists|i: int| 0 <= i < v@.len() && #[trigger] v@[i].authority@ == x),
{
    let ghost start = *set;
    let mut i: usize = 0;
    while i < v.len()
        invariant
            i <= v@.len(),
            forall|x: Seq<char>| #[trigger] set.has(x) <==> (start.has(x) || exists|k: int| 0 <= k < i && #[trigger] v@[k].authority@ == x),
        decreases v.len() - i,
    {
        let ghost before = *set;
        set.insert(v[i].authority.clone());
        proof {
            assert forall|x: Seq<char>| #[trigger] set.has(x) <==> (start.has(x) || exists|k: int| 0 <= k < i + 1 && #[trigger] v@[k].authority@ == x) by {
                if x == v@[i as int].authority@ {
                    assert(v@[i as int].authority@ == x);
                }
                if exists|k: int| 0 <= k < i + 1 && #[trigger] v@[k].authority@ == x {
                    let k = choose|k: int| 0 <= k < i + 1 && #[trigger] v@[k].authority@ == x;
                    if k < i {
                        assert(before.has(x));
                    }
                }
            }
        }
        i += 1;
    }
}

fn insert_authorities_approval(set: &mut StrSet, v: &Vec<ApprovalEvidence>)
    ensures
        forall|x: Seq<char>| #[trigger] final(set).has(x) <==> (old(set).has(x) || exists|i: int| 0 <= i < v@.len() && #[trigger] v@[i].authority@ == x),
{
    let ghost start = *set;
    let mut i: usize = 0;
    while i < v.len()
        invariant
            i <= v@.len(),
            forall|x: Seq<char>| #[trigger] set.has(x) <==> (start.has(x) || exists|k: int| 0 <= k < i && #[trigger] v@[k].authority@ == x),
        decreases v.len() - i,
    {
        let ghost before = *set;
        set.insert(v[i].authority.clone());
        proof {
            assert forall|x: Seq<char>| #[trigger] set.has(x) <==> (start.has(x) || exists|k: int| 0 <= k < i + 1 && #[trigger] v@[k].authority@ == x) by {
                if x == v@[i as int].authority@ {
                    assert(v@[i as int].authority@ == x);
                }
                if exists|k: int| 0 <= k < i + 1 && #[trigger] v@[k].authority@ == x {
                    let k = choose|k: int| 0 <= k < i + 1 && #[trigger] v@[k].authority@ == x;
                    if k < i {
                        assert(before.has(x));
                    }
                }
            }
        }
        i += 1;
    }
}

/// The authority classes of a release policy: the two governed classes and
/// every authority the evidence names.
fn release_classes(e: &ReleaseEvidence) -> (set: StrSet)
    ensures
        forall|x: Seq<char>| #[trigger] set.has(x) <==> (x == TOOL_REPORTED@ || x == HUMAN_AUTHORIZED@ || evidence_authority(e, x)),
{
    let mut set = StrSet::new();
    let ghost s0 = set;
    set.insert(String::from_str(TOOL_REPORTED));
    set.insert(String::from_str(HUMAN_AUTHORIZED));
    let ghost s2 = set;
    insert_authorities_decision(&mut set, &e.tests);
    insert_authorities_decision(&mut set, &e.security_reviews);
    insert_authorities_artifact(&mut set, &e.artifacts);
    insert_authorities_approval(&mut set, &e.approvals);
    proof {
        assert forall|x: Seq<char>| #[trigger] s2.has(x) <==> (x == TOOL_REPORTED@ || x == HUMAN_AUTHORIZED@) by {
            assert(!s0.has(x));
        }
    }
    set
}

pub proof fn lemma_release_names_distinct()
    ensures
        "tests_passed"@ != "security_reviewed"@,
        "tests_passed"@ != "artifact_built"@,
        "tests_passed"@ != "release_approved"@,
        "security_reviewed"@ != "artifact_built"@,
        "security_reviewed"@ != "release_approved"@,
        "artifact_built"@ != "release_approved"@,
{
    reveal_strlit("tests_passed");
    reveal_strlit("security_reviewed");
    reveal_strlit("artifact_built");
    reveal_strlit("release_approved");
    assert("tests_passed"@.len() == 12);
    assert("security_reviewed"@.len() == 17);
    assert("artifact_built"@.len() == 14);
    assert("release_approved"@.len() == 16);
}

fn release_predicates() -> (m: StrMap<Predicate>)
    ensures
        forall|k: Seq<char>| #[trigger] declared(&m, k) == match release_arity(k) {
            Some(n) => Some(Seq::new(n, |i: int| ScalarType::String)),
            None => None,
        },
{
    let mut m: StrMap<Predicate> = StrMap::new();
    let ghost m0 = m;
    m.insert(String::from_str("tests_passed"), string_predicate(1));
    let ghost m1 = m;
    m.insert(String::from_str("security_reviewed"), string_predicate(1));
    let ghost m2 = m;
    m.insert(String::from_str("artifact_built"), string_predicate(2));
    let ghost m3 = m;
    m.insert(String::from_str("release_approved"), string_predicate(6));
    proof {
        lemma_release_names_distinct();
        assert forall|k: Seq<char>| #[trigger] declared(&m, k) == match release_arity(k) {
            Some(n) => Some(Seq::new(n, |i: int| ScalarType::String)),
            None => None,
        } by {
            assert(m.spec_get(k) == if k == "release_approved"@ { m.spec_get(k) } else { m3.spec_get(k) });
            assert(m3.spec_get(k) == if k == "artifact_built"@ { m3.spec_get(k) } else { m2.spec_get(k) });
            assert(m2.spec_get(k) == if k == "security_reviewed"@ { m2.spec_get(k) } else { m1.spec_get(k) });
            assert(m1.spec_get(k) == if k == "tests_passed"@ { m1.spec_get(k) } else { m0.spec_get(k) });
            assert(!m0.has_key(k));
            if k == "release_approved"@ {
            } else if k == "artifact_built"@ {
            } else if k == "security_reviewed"@ {
            } else if k == "tests_passed"@ {
            } else {
                assert(release_arity(k) is None);
            }
        }
    }
    m
}

fn release_admissions() -> (m: StrMap<StrSet>)
    ensures
        forall|k: Seq<char>| #[trigger] admitted_for(&m, k) == release_admission(k),
{
    let mut m: StrMap<StrSet> = StrMap::new();
    let ghost m0 = m;
    m.insert(String::from_str("tests_passed"), singleton(TOOL_REPORTED));
    let ghost m1 = m;
    m.insert(String::from_str("artifact_built"), singleton(TOOL_REPORTED));
    let ghost m2 = m;
    m.insert(String::from_str("security_reviewed"), singleton(HUMAN_AUTHORIZED));
    let ghost m3 = m;
    m.insert(String::from_str("release_approved"), singleton(HUMAN_AUTHORIZED));
    proof {
        lemma_release_names_distinct();
        assert forall|k: Seq<char>| #[trigger] admitted_for(&m, k) == release_admission(k) by {
            assert(m.spec_get(k) == if k == "release_approved"@ { m.spec_get(k) } else { m3.spec_get(k) });
            assert(m3.spec_get(k) == if k == "security_reviewed"@ { m3.spec_get(k) } else { m2.spec_get(k) });
            assert(m2.spec_get(k) == if k == "artifact_built"@ { m2.spec_get(k) } else { m1.spec_get(k) });
            assert(m1.spec_get(k) == if k == "tests_passed"@ { m1.spec_get(k) } else { m0.spec_get(k) });
            assert(!m0.has_key(k));
            if k == "release_approved"@ {
            } else if k == "artifact_built"@ {
            } else if k == "security_reviewed"@ {
            } else if k == "tests_passed"@ {
            } else {
                assert(release_admission(k) is None);
            }
        }
    }
    m
}

/// The constraints and arguments of a release, as a map by name.
fn release_bindings(t: &ReleaseTarget) -> (m: Bindings)
    ensures
        map_json(&m) == release_bindings_json(t),
{
    let mut m: Bindings = StrMap::new();
    m.insert(String::from_str("commit"), s(t.commit.as_str()));
    m.insert(String::from_str("version"), s(t.version.as_str()));
    m.insert(String::from_str("environment"), s(t.environment.as_str()));
    m.insert(String::from_str("artifact_digest"), s(t.artifact_digest.as_str()));
    proof {
        reveal_strlit("commit");
        reveal_strlit("version");
        reveal_strlit("environment");
        reveal_strlit("artifact_digest");
        use_type_invariant(&m);
        let names = seq!["artifact_digest"@, "commit"@, "environment"@, "version"@];
        assert(crate::collections::strictly_sorted(names)) by {
            assert forall|i: int, j: int| 0 <= i < j < names.len() implies crate::text::seq_lt(#[trigger] names[i], #[trigger] names[j]) by {
                assert(names[i][0] < names[j][0]);
            }
        }
        assert forall|x: Seq<char>| m.keys().contains(x) <==> names.contains(x) by {
            assert(m.has_key(x) == m.keys().contains(x));
            if names.contains(x) {
                let k = choose|k: int| 0 <= k < names.len() && names[k] == x;
            }
            if m.has_key(x) {
                assert(x == "commit"@ || x == "version"@ || x == "environment"@ || x == "artifact_digest"@);
                if x == "artifact_digest"@ {
                    assert(names[0] == x);
                } else if x == "commit"@ {
                    assert(names[1] == x);
                } else if x == "environment"@ {
                    assert(names[2] == x);
                } else {
                    assert(names[3] == x);
                }
            }
        }
        crate::collections::lemma_sorted_same_members(m.keys(), names);
        let vals = m.entries().map_values(|e: (String, JsonValue)| e.1@);
        assert(vals =~= seq![JsonV::Str(t.artifact_digest@), JsonV::Str(t.commit@), JsonV::Str(t.environment@), JsonV::Str(t.version@)]) by {
            assert forall|i: int| 0 <= i < 4 implies vals[i] == seq![JsonV::Str(t.artifact_digest@), JsonV::Str(t.commit@), JsonV::Str(t.environment@), JsonV::Str(t.version@)][i] by {
                crate::collections::lemma_entry_spec_get(&m, i);
                assert(m.keys()[i] == m.entries()[i].0@);
            }
        }
    }
    m
}


/// The fact of a pass/fail decision about a commit.
fn decision_fact(predicate: &str, e: &CommitDecisionEvidence) -> (f: Fact)
    ensures
        fact_view(f) == decision_fact_view(predicate@, *e),
{
    let failed = e.status == DecisionStatus::Failed;
    Fact {
        id: e.id.clone(),
        atom: atom(predicate, args1(s(e.commit.as_str())), failed),
        authority: e.authority.clone(),
        observed_at: Some(e.observed_at.clone()),
        valid_from: None,
        valid_until: clone_opt_string(&e.valid_until),
        supersedes: clone_strings(&e.supersedes),
    }
}

/// The fact of a built artifact.
fn artifact_fact(e: &ArtifactEvidence) -> (f: Fact)
    ensures
        fact_view(f) == artifact_fact_view(*e),
{
    Fact {
        id: e.id.clone(),
        atom: atom("artifact_built", args2(s(e.commit.as_str()), s(e.digest.as_str())), false),
        authority: e.authority.clone(),
        observed_at: Some(e.observed_at.clone()),
        valid_from: None,
        valid_until: clone_opt_string(&e.valid_until),
        supersedes: clone_strings(&e.supersedes),
    }
}

/// The fact of an approval or denial.
fn approval_fact(e: &ApprovalEvidence) -> (f: Fact)
    ensures
        fact_view(f) == approval_fact_view(*e),
{
    let denied = e.status == ApprovalStatus::Denied;
    let args = args6(
        s(e.version.as_str()),
        s(e.commit.as_str()),
        s(e.environment.as_str()),
        s(e.artifact_digest.as_str()),
        s(e.tool.as_str()),
        s(e.approver.as_str()),
    );
    let f = Fact {
        id: e.id.clone(),
        atom: atom("release_approved", args, denied),
        authority: e.authority.clone(),
        observed_at: Some(e.observed_at.clone()),
        valid_from: None,
        valid_until: clone_opt_string(&e.valid_until),
        supersedes: clone_strings(&e.supersedes),
    };
    assert(str_args(seq![e.version@, e.commit@, e.environment@, e.artifact_digest@, e.tool@, e.approver@]) =~= seq![
        JsonV::Str(e.version@),
        JsonV::Str(e.commit@),
        JsonV::Str(e.environment@),
        JsonV::Str(e.artifact_digest@),
        JsonV::Str(e.tool@),
        JsonV::Str(e.approver@),
    ]);
    f
}

proof fn lemma_facts_view_push(s: Seq<Fact>, f: Fact)
    ensures
        facts_view(s.push(f)) == facts_view(s).push(fact_view(f)),
{
    assert(facts_view(s.push(f)) =~= facts_view(s).push(fact_view(f)));
}

fn push_decision_facts(facts: &mut Vec<Fact>, predicate: &str, v: &Vec<CommitDecisionEvidence>)
    ensures
        facts_view(final(facts)@) == facts_view(old(facts)@) + v@.map_values(
            |x: CommitDecisionEvidence| decision_fact_view(predicate@, x),
        ),
{
    let ghost start = facts_view(facts@);
    let mut i: usize = 0;
    while i < v.len()
        invariant
            i <= v@.len(),
            facts_view(facts@) == start + v@.take(i as int).map_values(
                |x: CommitDecisionEvidence| decision_fact_view(predicate@, x),
            ),
        decreases v.len() - i,
    {
        let f = decision_fact(predicate, &v[i]);
        proof { lemma_facts_view_push(facts@, f); }
        facts.push(f);
        proof {
            assert(v@.take(i + 1) =~= v@.take(i as int).push(v@[i as int]));
            assert(start + v@.take(i + 1).map_values(|x: CommitDecisionEvidence| decision_fact_view(predicate@, x))
                =~= (start + v@.take(i as int).map_values(|x: CommitDecisionEvidence| decision_fact_view(predicate@, x))).push(
                decision_fact_view(predicate@, v@[i as int]),
            ));
        }
        i += 1;
    }
    assert(v@.take(v@.len() as int) =~= v@);
}

fn push_artifact_facts(facts: &mut Vec<Fact>, v: &Vec<ArtifactEvidence>)
    ensures
        facts_view(final(facts)@) == facts_view(old(facts)@) + v@.map_values(|x: ArtifactEvidence| artifact_fact_view(x)),
{
    let ghost start = facts_view(facts@);
    let mut i: usize = 0;
    while i < v.len()
        invariant
            i <= v@.len(),
            facts_view(facts@) == start + v@.take(i as int).map_values(|x: ArtifactEvidence| artifact_fact_view(x)),
        decreases v.len() - i,
    {
        let f = artifact_fact(&v[i]);
        proof { lemma_facts_view_push(facts@, f); }
        facts.push(f);
        proof {
            assert(v@.take(i + 1) =~= v@.take(i as int).push(v@[i as int]));
            assert(start + v@.take(i + 1).map_values(|x: ArtifactEvidence| artifact_fact_view(x))
                =~= (start + v@.take(i as int).map_values(|x: ArtifactEvidence| artifact_fact_view(x))).push(
                artifact_fact_view(v@[i as int]),
            ));
        }
        i += 1;
    }
    assert(v@.take(v@.len() as int) =~= v@);
}

fn push_approval_facts(facts: &mut Vec<Fact>, v: &Vec<ApprovalEvidence>)
    ensures
        facts_view(final(facts)@) == facts_view(old(facts)@) + v@.map_values(|x: ApprovalEvidence| approval_fact_view(x)),
{
    let ghost start = facts_view(facts@);
    let mut i: usize = 0;
    while i < v.len()
        invariant
            i <= v@.len(),
            facts_view(facts@) == start + v@.take(i as int).map_values(|x: ApprovalEvidence| approval_fact_view(x)),
        decreases v.len() - i,
    {
        let f = approval_fact(&v[i]);
        proof { lemma_facts_view_push(facts@, f); }
        facts.push(f);
        proof {
            assert(v@.take(i + 1) =~= v@.take(i as int).push(v@[i as int]));
            assert(start + v@.take(i + 1).map_values(|x: ApprovalEvidence| approval_fact_view(x))
                =~= (start + v@.take(i as int).map_values(|x: ApprovalEvidence| approval_fact_view(x))).push(
                approval_fact_view(v@[i as int]),
            ));
        }
        i += 1;
    }
    assert(v@.take(v@.len() as int) =~= v@);
}

/// The facts of the evidence, in order.
fn release_facts(e: &ReleaseEvidence) -> (facts: Vec<Fact>)
    ensures
        facts_view(facts@) == evidence_facts(e),
{
    let mut facts: Vec<Fact> = Vec::new();
    assert(facts_view(facts@) =~= Seq::empty());
    push_decision_facts(&mut facts, "tests_passed", &e.tests);
    push_decision_facts(&mut facts, "security_reviewed", &e.security_reviews);
    push_artifact_facts(&mut facts, &e.artifacts);
    push_approval_facts(&mut facts, &e.approvals);
    assert(facts_view(facts@) =~= evidence_facts(e));
    facts
}


fn push_atom(w: &mut Vec<Atom>, a: Atom)
    ensures
        atom_views(final(w)@) == atom_views(old(w)@).push(a@),
{
    let ghost before = w@;
    w.push(a);
    assert(atom_views(w@) =~= atom_views(before).push(a@));
}

/// `action_argument(action, key, value)`.
fn action_argument(action_id: &str, key: &str, value: &str) -> (a: Atom)
    ensures
        a@ == atom_spec("action_argument"@, seq![JsonV::Str(action_id@), JsonV::Str(key@), JsonV::Str(value@)], false),
{
    atom("action_argument", args3(s(action_id), s(key), s(value)), false)
}

/// `mission_constraint($mission, key, value)`.
fn mission_constraint(key: &str, value: &str) -> (a: Atom)
    ensures
        a@ == atom_spec("mission_constraint"@, seq![JsonV::Str("$mission"@), JsonV::Str(key@), JsonV::Str(value@)], false),
{
    atom("mission_constraint", args3(s("$mission"), s(key), s(value)), false)
}

/// `"release:"` followed by the version.
fn release_resource(version: &str) -> (r: String)
    ensures
        r@ == "release:"@ + version@,
{
    let mut out = chars_of("release:");
    push_str(&mut out, version);
    crate::text::string_from_chars(out.as_slice())
}

/// The rule that authorizes exactly this release.
fn authorize_rule(input: &ReleaseAuthorizationInput) -> (r: Rule)
    ensures
        rule_view(r) == authorize_rule_view(input),
{
    let t = &input.release;
    let a = t.action_id.as_str();
    let c = t.commit.as_str();
    let v = t.version.as_str();
    let e = t.environment.as_str();
    let d = t.artifact_digest.as_str();
    let mut w: Vec<Atom> = Vec::new();
    push_atom(&mut w, atom("mission_active", args1(s("$mission")), false));
    push_atom(&mut w, atom("mission_action", args2(s("$mission"), s(a)), false));
    push_atom(&mut w, atom("mission_principal", args2(s("$mission"), s(input.mission.principal.as_str())), false));
    push_atom(&mut w, mission_constraint("commit", c));
    push_atom(&mut w, mission_constraint("version", v));
    push_atom(&mut w, mission_constraint("environment", e));
    push_atom(&mut w, mission_constraint("artifact_digest", d));
    push_atom(&mut w, atom("action_tool", args2(s(a), s(t.tool.as_str())), false));
    push_atom(&mut w, action_argument(a, "commit", c));
    push_atom(&mut w, action_argument(a, "version", v));
    push_atom(&mut w, action_argument(a, "environment", e));
    push_atom(&mut w, action_argument(a, "artifact_digest", d));
    let resource = release_resource(v);
    push_atom(&mut w, atom("action_effect", args4(s(a), s("deploy"), s(resource.as_str()), s(e)), false));
    push_atom(&mut w, atom("tests_passed", args1(s(c)), false));
    push_atom(&mut w, atom("security_reviewed", args1(s(c)), false));
    push_atom(&mut w, atom("artifact_built", args2(s(c), s(d)), false));
    push_atom(
        &mut w,
        atom("release_approved", args6(s(v), s(c), s(e), s(d), s(t.tool.as_str()), s(t.required_approver.as_str())), false),
    );
    assert(atom_views(Seq::<Atom>::empty()) =~= Seq::empty());
    Rule { id: String::from_str("release.authorize"), when: w, head: atom("action_authorized", args1(s(a)), false) }
}

/// A rule that denies the action on one piece of negative evidence.
fn deny_rule(id: &str, evidence: Atom, action_id: &str) -> (r: Rule)
    ensures
        rule_view(r) == deny_rule_view(id@, evidence@, action_id@),
{
    let mut w: Vec<Atom> = Vec::new();
    assert(atom_views(w@) =~= Seq::empty());
    push_atom(&mut w, evidence);
    Rule { id: String::from_str(id), when: w, head: atom("action_authorized", args1(s(action_id)), true) }
}

proof fn lemma_rules_view_push(s: Seq<Rule>, r: Rule)
    ensures
        rules_view(s.push(r)) == rules_view(s).push(rule_view(r)),
{
    assert(rules_view(s.push(r)) =~= rules_view(s).push(rule_view(r)));
}

/// The rules of the release policy.
fn release_rule_set(input: &ReleaseAuthorizationInput) -> (rules: Vec<Rule>)
    ensures
        rules_view(rules@) == release_rules(input),
{
    let t = &input.release;
    let a = t.action_id.as_str();
    let c = t.commit.as_str();
    let mut rules: Vec<Rule> = Vec::new();
    assert(rules_view(rules@) =~= Seq::empty());
    let r0 = authorize_rule(input);
    proof { lemma_rules_view_push(rules@, r0); }
    rules.push(r0);
    let r1 = deny_rule("release.deny.failed-tests", atom("tests_passed", args1(s(c)), true), a);
    proof { lemma_rules_view_push(rules@, r1); }
    rules.push(r1);
    let r2 = deny_rule("release.deny.rejected-security-review", atom("security_reviewed", args1(s(c)), true), a);
    proof { lemma_rules_view_push(rules@, r2); }
    rules.push(r2);
    let approval = atom(
        "release_approved",
        args6(
            s(t.version.as_str()),
            s(c),
            s(t.environment.as_str()),
            s(t.artifact_digest.as_str()),
            s(t.tool.as_str()),
            s(t.required_approver.as_str()),
        ),
        true,
    );
    let r3 = deny_rule("release.deny.rejected-approval", approval, a);
    proof { lemma_rules_view_push(rules@, r3); }
    rules.push(r3);
    assert(str_args(seq![t.version@, t.commit@, t.environment@, t.artifact_digest@, t.tool@, t.required_approver@]) =~= seq![
        JsonV::Str(t.version@),
        JsonV::Str(t.commit@),
        JsonV::Str(t.environment@),
        JsonV::Str(t.artifact_digest@),
        JsonV::Str(t.tool@),
        JsonV::Str(t.required_approver@),
    ]);
    rules
}


/// The one effect of a release: deploying `release:<version>` to the environment.
fn release_effects(t: &ReleaseTarget) -> (v: Vec<ActionEffect>)
    ensures
        effects_json(v@) == seq![
            JsonV::Object(
                seq!["kind"@, "resource"@, "value"@],
                seq![JsonV::Str("deploy"@), JsonV::Str("release:"@ + t.version@), JsonV::Str(t.environment@)],
            ),
        ],
{
    let effect = ActionEffect {
        kind: String::from_str("deploy"),
        resource: release_resource(t.version.as_str()),
        value: Some(s(t.environment.as_str())),
    };
    let mut v: Vec<ActionEffect> = Vec::new();
    v.push(effect);
    assert(seq!["kind"@, "resource"@] + seq!["value"@] =~= seq!["kind"@, "resource"@, "value"@]);
    assert(seq![JsonV::Str("deploy"@), JsonV::Str("release:"@ + t.version@)] + seq![JsonV::Str(t.environment@)] =~= seq![
        JsonV::Str("deploy"@),
        JsonV::Str("release:"@ + t.version@),
        JsonV::Str(t.environment@),
    ]);
    assert(effects_json(v@) =~= seq![crate::action::effect_json(effect)]);
    v
}

/// Compiles a release authorization input into an action request whose
/// policy authorizes exactly this release (version, commit, environment,
/// artifact, tool, approver) and denies it on failed tests, a rejected
/// security review, or a denied approval.
pub fn compile_release_authorization(input: &ReleaseAuthorizationInput) -> (r: Result<ActionRequest, crate::error::ReasonError>)
    ensures
        r is Ok <==> (input.schema@ == RELEASE_AUTHORIZATION_SCHEMA@ && release_target_ok(&input.release)),
        r matches Err(e) ==> e is InvalidAction,
        r matches Ok(request) ==> release_request_ok(input, &request),
{
    if !str_eq(input.schema.as_str(), RELEASE_AUTHORIZATION_SCHEMA) {
        let mut out = chars_of("$.schema: expected ");
        crate::text::push_debug(&mut out, RELEASE_AUTHORIZATION_SCHEMA);
        push_str(&mut out, ", got ");
        crate::text::push_debug(&mut out, input.schema.as_str());
        return Err(crate::error::ReasonError::InvalidAction(crate::text::string_from_chars(out.as_slice())));
    }
    let t = &input.release;
    match validate_release_target(t) {
        Ok(()) => {},
        Err(e) => {
            return Err(e);
        },
    }
    let m = &input.mission;
    let mission = Mission {
        id: m.id.clone(),
        principal: m.principal.clone(),
        instruction_digest: m.instruction_digest.clone(),
        issued_at: m.issued_at.clone(),
        valid_until: clone_opt_string(&m.valid_until),
        constraints: release_bindings(t),
    };
    let action = ProposedAction {
        id: t.action_id.clone(),
        tool: t.tool.clone(),
        proposed_at: t.proposed_at.clone(),
        arguments: release_bindings(t),
        effects: release_effects(t),
    };
    let policy = Program {
        schema: String::from_str(crate::model::PROGRAM_SCHEMA_V2),
        ontology: crate::model::Ontology {
            id: String::from_str("zerker.release-safety"),
            version: String::from_str("1"),
            predicates: release_predicates(),
        },
        authority: crate::model::AuthorityPolicy {
            classes: release_classes(&input.evidence),
            default_admit: StrSet::new(),
            predicate_admit: release_admissions(),
        },
        evaluation_time: Some(input.evaluation_time.clone()),
        facts: release_facts(&input.evidence),
        rules: release_rule_set(input),
        query: crate::action::authorization_query(t.action_id.as_str()),
    };
    Ok(ActionRequest { schema: String::from_str(crate::action::ACTION_REQUEST_SCHEMA), mission, action, policy })
}

} // verus!
