use vstd::prelude::*;

use crate::action::{AuthorizationIssue, AuthorizationResult, AuthorizationStatus, AuthorizationVerification};
use crate::checker::VerificationResult;
use crate::json::{encode, encode_value, JsonV, JsonValue};
use crate::model::{Atom, AtomV};
use crate::reasoning::{CheckResult, Status};
use crate::report::WithheldFact;
use crate::temporal::TemporallyWithheldFact;
use crate::text::{chars_of, decimal, join_sep, join_with, push_str, strings_view};

verus! {

/// How a value reads in text output: a string as itself, anything else as JSON.
pub open spec fn value_text(v: JsonV) -> Seq<char> {
    match v {
        JsonV::Str(s) => s,
        _ => encode(v),
    }
}

/// How an atom reads in text output: `not p(a, b)` or `p(a, b)`.
pub open spec fn atom_text(a: AtomV) -> Seq<char> {
    (if a.negated { "not "@ } else { ""@ }) + a.predicate + "("@ + join_sep(
        a.arguments.map_values(|v: JsonV| value_text(v)),
        ", "@,
    ) + ")"@
}

/// How a value reads in text output.
pub fn display_value(v: &JsonValue) -> (s: String)
    ensures
        s@ == value_text(v@),
{
    match v {
        JsonValue::String(t) => t.clone(),
        _ => {
            let cs = encode_value(v);
            crate::text::string_from_chars(cs.as_slice())
        },
    }
}

/// How an atom reads in text output.
pub fn display_atom(atom: &Atom) -> (s: String)
    ensures
        s@ == atom_text(atom@),
{
    let mut parts: Vec<String> = Vec::new();
    let mut i: usize = 0;
    proof { crate::json::lemma_json_views(atom.arguments@); }
    while i < atom.arguments.len()
        invariant
            i <= atom.arguments@.len(),
            crate::json::json_views(atom.arguments@).len() == atom.arguments@.len(),
            forall|k: int| 0 <= k < atom.arguments@.len() ==> #[trigger] crate::json::json_views(atom.arguments@)[k] == atom.arguments@[k]@,
            strings_view(parts@) == crate::json::json_views(atom.arguments@).take(i as int).map_values(|v: JsonV| value_text(v)),
        decreases atom.arguments.len() - i,
    {
        let t = display_value(&atom.arguments[i]);
        let ghost before = parts@;
        parts.push(t);
        proof {
            let js = crate::json::json_views(atom.arguments@);
            assert(strings_view(parts@) =~= strings_view(before).push(t@));
            assert(js.take(i + 1).map_values(|v: JsonV| value_text(v)) =~= js.take(i as int).map_values(|v: JsonV| value_text(v)).push(
                value_text(js[i as int]),
            ));
        }
        i += 1;
    }
    assert(crate::json::json_views(atom.arguments@).take(i as int) =~= crate::json::json_views(atom.arguments@));
    let mut out: Vec<char> = Vec::new();
    if atom.negated {
        push_str(&mut out, "not ");
    }
    push_str(&mut out, atom.predicate.as_str());
    push_str(&mut out, "(");
    let joined = join_with(&parts, ", ");
    push_str(&mut out, joined.as_str());
    push_str(&mut out, ")");
    proof {
        reveal_strlit("");
        assert(""@ =~= Seq::<char>::empty());
    }
    assert(out@ =~= atom_text(atom@));
    crate::text::string_from_chars(out.as_slice())
}

/// The word a check status leads its text report with.
pub open spec fn status_word(s: Status) -> Seq<char> {
    match s {
        Status::Proved => "PROVED"@,
        Status::Disproved => "DISPROVED"@,
        Status::Inconsistent => "INCONSISTENT"@,
        Status::Unknown => "UNKNOWN"@,
    }
}

fn status_word_text(s: Status) -> (t: &'static str)
    ensures
        t@ == status_word(s),
{
    match s {
        Status::Proved => "PROVED",
        Status::Disproved => "DISPROVED",
        Status::Inconsistent => "INCONSISTENT",
        Status::Unknown => "UNKNOWN",
    }
}

/// The lowercase name of a check status.
pub open spec fn status_name_spec(s: Status) -> Seq<char> {
    match s {
        Status::Proved => "proved"@,
        Status::Disproved => "disproved"@,
        Status::Inconsistent => "inconsistent"@,
        Status::Unknown => "unknown"@,
    }
}

/// The lowercase name of a check status.
pub fn status_name(s: Status) -> (t: &'static str)
    ensures
        t@ == status_name_spec(s),
{
    match s {
        Status::Proved => "proved",
        Status::Disproved => "disproved",
        Status::Inconsistent => "inconsistent",
        Status::Unknown => "unknown",
    }
}

/// The process exit code of a check: 0 proved, 2 unknown, 3 disproved, 4 inconsistent.
pub open spec fn check_exit_spec(s: Status) -> u8 {
    match s {
        Status::Proved => 0,
        Status::Unknown => 2,
        Status::Disproved => 3,
        Status::Inconsistent => 4,
    }
}

/// The process exit code of a check.
pub fn check_exit_code(s: Status) -> (c: u8)
    ensures
        c == check_exit_spec(s),
{
    match s {
        Status::Proved => 0,
        Status::Unknown => 2,
        Status::Disproved => 3,
        Status::Inconsistent => 4,
    }
}

/// The process exit code of an authorization: 0 only when authorized, 2
/// insufficient evidence, 3 denied, 4 conflicted.
pub open spec fn authorization_exit_spec(s: AuthorizationStatus) -> u8 {
    match s {
        AuthorizationStatus::Authorized => 0,
        AuthorizationStatus::InsufficientEvidence => 2,
        AuthorizationStatus::Denied => 3,
        AuthorizationStatus::Conflicted => 4,
    }
}

/// The process exit code of an authorization.
pub fn authorization_exit_code(s: AuthorizationStatus) -> (c: u8)
    ensures
        c == authorization_exit_spec(s),
{
    match s {
        AuthorizationStatus::Authorized => 0,
        AuthorizationStatus::InsufficientEvidence => 2,
        AuthorizationStatus::Denied => 3,
        AuthorizationStatus::Conflicted => 4,
    }
}

fn line(out: Vec<char>) -> (s: String)
    ensures
        s@ == out@,
{
    crate::text::string_from_chars(out.as_slice())
}

fn push_line(lines: &mut Vec<String>, out: Vec<char>)
    ensures
        strings_view(final(lines)@) == strings_view(old(lines)@).push(out@),
{
    let s = line(out);
    lines.push(s);
    assert(strings_view(lines@) =~= strings_view(old(lines)@).push(out@));
}

fn push_text(lines: &mut Vec<String>, text: &str)
    ensures
        strings_view(final(lines)@) == strings_view(old(lines)@).push(text@),
{
    push_line(lines, chars_of(text));
}

/// The two lines of an authority-withheld fact.
pub open spec fn withheld_lines(w: WithheldFact) -> Seq<Seq<char>> {
    seq![
        "        - "@ + atom_text(w.atom@) + " from "@ + w.authority@ + " ("@ + w.fact_id@ + ")"@,
        "          admitted authority: "@ + if w.admitted_authorities@.len() == 0 {
            "none"@
        } else {
            join_sep(strings_view(w.admitted_authorities@), ", "@)
        },
    ]
}

/// The two lines of a temporally withheld fact.
pub open spec fn temporal_lines(w: TemporallyWithheldFact) -> Seq<Seq<char>> {
    seq!["        - "@ + atom_text(w.atom@) + " ("@ + w.fact_id@ + ")"@, "          "@ + w.reason@]
}

/// The lines of each item, one after the other.
pub open spec fn flat_lines(s: Seq<Seq<Seq<char>>>) -> Seq<Seq<char>>
    decreases s.len(),
{
    if s.len() == 0 {
        Seq::empty()
    } else {
        flat_lines(s.drop_last()) + s.last()
    }
}

/// The lines of a check result up to its missing-support explanation.
pub open spec fn support_lines(r: &CheckResult) -> Seq<Seq<char>> {
    seq![status_word(r.status) + "  "@ + atom_text(r.query@)] + (match r.proof {
        Some(p) => seq!["        support: "@ + decimal(p.nodes@.len()) + " nodes"@, "        proof "@ + p.digest@],
        None => Seq::empty(),
    }) + (match r.disproof {
        Some(p) => seq!["        opposing support: "@ + decimal(p.nodes@.len()) + " nodes"@, "        disproof "@ + p.digest@],
        None => Seq::empty(),
    })
}

/// What a check result explains about a conflict or a missing proof.
pub open spec fn explanation_lines(r: &CheckResult) -> Seq<Seq<char>> {
    match r.conflict {
        Some(c) => seq![
            "        conflict facts: "@ + join_sep(strings_view(c.fact_ids@), ", "@),
            "\nBoth the query and its explicit negation are supported. Do not authorize action until the conflict is resolved."@,
        ],
        None => if r.proof is None {
            (if r.missing@.len() == 0 {
                seq!["        no supporting derivation was found"@]
            } else {
                seq!["        missing support:"@] + r.missing@.map_values(|a: Atom| "        - "@ + atom_text(a@))
            }) + if r.disproof is Some {
                seq!["\nDisproved means the explicit negation is supported. It is not inferred from missing evidence."@]
            } else if r.temporal is Some && r.temporal->0.withheld@.len() > 0 {
                seq!["\nUnknown does not mean false. Refresh or replace temporally ineligible evidence."@]
            } else if r.authority.withheld@.len() == 0 {
                seq!["\nUnknown does not mean false. Add an observed fact or an applicable rule."@]
            } else {
                seq!["\nUnknown does not mean false. Supply evidence from an admitted authority; do not relabel untrusted evidence."@]
            }
        } else {
            Seq::empty()
        },
    }
}

/// What a check result reports of withheld evidence and its counts.
pub open spec fn report_lines(r: &CheckResult, proof_out: Option<Seq<char>>) -> Seq<Seq<char>> {
    (if r.authority.withheld@.len() > 0 {
        seq!["\nAuthority withheld "@ + decimal(r.authority.withheld@.len()) + " fact(s):"@] + flat_lines(
            r.authority.withheld@.map_values(|w: WithheldFact| withheld_lines(w)),
        )
    } else {
        Seq::empty()
    }) + (match r.temporal {
        Some(t) => seq!["\nEvaluated at "@ + t.evaluation_time@] + if t.withheld@.len() > 0 {
            seq!["Temporal lifecycle withheld "@ + decimal(t.withheld@.len()) + " fact(s):"@] + flat_lines(
                t.withheld@.map_values(|w: TemporallyWithheldFact| temporal_lines(w)),
            )
        } else {
            Seq::empty()
        },
        None => Seq::empty(),
    }) + seq![
        "\nOntology "@ + r.ontology.id@ + "@"@ + r.ontology.version@ + "  "@ + decimal(r.metrics.facts_supplied as nat)
            + " supplied, "@ + decimal(r.metrics.facts_admitted as nat) + " admitted, "@ + decimal(
            r.metrics.facts_withheld as nat,
        ) + " withheld, "@ + decimal(r.metrics.facts_derived as nat) + " derived, "@ + decimal(r.metrics.rounds as nat)
            + " rounds"@,
    ] + match proof_out {
        Some(path) => seq!["Proof written to "@ + path, "Next: reason verify <program> "@ + path],
        None => Seq::empty(),
    }
}

/// The text report of a check result, line by line.
pub open spec fn check_result_lines(r: &CheckResult, proof_out: Option<Seq<char>>) -> Seq<Seq<char>> {
    support_lines(r) + explanation_lines(r) + report_lines(r, proof_out)
}


fn push_support(lines: &mut Vec<String>, r: &CheckResult)
    ensures
        strings_view(final(lines)@) == strings_view(old(lines)@) + support_lines(r),
{
    let ghost start = strings_view(lines@);
    let mut out = chars_of(status_word_text(r.status));
    push_str(&mut out, "  ");
    let q = display_atom(&r.query);
    push_str(&mut out, q.as_str());
    push_line(lines, out);
    let ghost after_head = strings_view(lines@);
    match &r.proof {
        Some(p) => {
            let mut a = chars_of("        support: ");
            crate::text::push_decimal(&mut a, p.nodes.len() as u64);
            push_str(&mut a, " nodes");
            push_line(lines, a);
            let mut b = chars_of("        proof ");
            push_str(&mut b, p.digest.as_str());
            push_line(lines, b);
        },
        None => {},
    }
    let ghost after_proof = strings_view(lines@);
    match &r.disproof {
        Some(p) => {
            let mut a = chars_of("        opposing support: ");
            crate::text::push_decimal(&mut a, p.nodes.len() as u64);
            push_str(&mut a, " nodes");
            push_line(lines, a);
            let mut b = chars_of("        disproof ");
            push_str(&mut b, p.digest.as_str());
            push_line(lines, b);
        },
        None => {},
    }
    assert(strings_view(lines@) =~= start + support_lines(r));
}

fn push_missing(lines: &mut Vec<String>, missing: &Vec<Atom>)
    ensures
        strings_view(final(lines)@) == strings_view(old(lines)@) + missing@.map_values(|a: Atom| "        - "@ + atom_text(a@)),
{
    let ghost start = strings_view(lines@);
    let mut i: usize = 0;
    while i < missing.len()
        invariant
            i <= missing@.len(),
            strings_view(lines@) == start + missing@.take(i as int).map_values(|a: Atom| "        - "@ + atom_text(a@)),
        decreases missing.len() - i,
    {
        let mut out = chars_of("        - ");
        let t = display_atom(&missing[i]);
        push_str(&mut out, t.as_str());
        push_line(lines, out);
        assert(missing@.take(i + 1).map_values(|a: Atom| "        - "@ + atom_text(a@)) =~= missing@.take(i as int).map_values(
            |a: Atom| "        - "@ + atom_text(a@),
        ).push("        - "@ + atom_text(missing@[i as int]@)));
        i += 1;
    }
    assert(missing@.take(i as int) =~= missing@);
}

fn push_explanation(lines: &mut Vec<String>, r: &CheckResult)
    ensures
        strings_view(final(lines)@) == strings_view(old(lines)@) + explanation_lines(r),
{
    let ghost start = strings_view(lines@);
    match &r.conflict {
        Some(c) => {
            let mut out = chars_of("        conflict facts: ");
            let j = join_with(&c.fact_ids, ", ");
            push_str(&mut out, j.as_str());
            push_line(lines, out);
            push_text(
                lines,
                "\nBoth the query and its explicit negation are supported. Do not authorize action until the conflict is resolved.",
            );
            assert(strings_view(lines@) =~= start + explanation_lines(r));
        },
        None => {
            if r.proof.is_none() {
                if r.missing.len() == 0 {
                    push_text(lines, "        no supporting derivation was found");
                } else {
                    push_text(lines, "        missing support:");
                    push_missing(lines, &r.missing);
                }
                let ghost mid = strings_view(lines@);
                let temporal_withheld = match &r.temporal {
                    Some(t) => t.withheld.len() > 0,
                    None => false,
                };
                if r.disproof.is_some() {
                    push_text(
                        lines,
                        "\nDisproved means the explicit negation is supported. It is not inferred from missing evidence.",
                    );
                } else if temporal_withheld {
                    push_text(lines, "\nUnknown does not mean false. Refresh or replace temporally ineligible evidence.");
                } else if r.authority.withheld.len() == 0 {
                    push_text(lines, "\nUnknown does not mean false. Add an observed fact or an applicable rule.");
                } else {
                    push_text(
                        lines,
                        "\nUnknown does not mean false. Supply evidence from an admitted authority; do not relabel untrusted evidence.",
                    );
                }
                assert(strings_view(lines@) =~= start + explanation_lines(r));
            } else {
                assert(strings_view(lines@) =~= start + explanation_lines(r));
            }
        },
    }
}

fn push_withheld(lines: &mut Vec<String>, withheld: &Vec<WithheldFact>)
    ensures
        strings_view(final(lines)@) == strings_view(old(lines)@) + flat_lines(
            withheld@.map_values(|w: WithheldFact| withheld_lines(w)),
        ),
{
    let ghost start = strings_view(lines@);
    let mut i: usize = 0;
    while i < withheld.len()
        invariant
            i <= withheld@.len(),
            strings_view(lines@) == start + flat_lines(withheld@.take(i as int).map_values(|w: WithheldFact| withheld_lines(w))),
        decreases withheld.len() - i,
    {
        let w = &withheld[i];
        let ghost before = strings_view(lines@);
        let mut a = chars_of("        - ");
        let t = display_atom(&w.atom);
        push_str(&mut a, t.as_str());
        push_str(&mut a, " from ");
        push_str(&mut a, w.authority.as_str());
        push_str(&mut a, " (");
        push_str(&mut a, w.fact_id.as_str());
        push_str(&mut a, ")");
        push_line(lines, a);
        let mut b = chars_of("          admitted authority: ");
        if w.admitted_authorities.len() == 0 {
            push_str(&mut b, "none");
        } else {
            let j = join_with(&w.admitted_authorities, ", ");
            push_str(&mut b, j.as_str());
        }
        push_line(lines, b);
        proof {
            let f = |w: WithheldFact| withheld_lines(w);
            let m = withheld@.take(i + 1).map_values(f);
            assert(m.drop_last() =~= withheld@.take(i as int).map_values(f));
            assert(m.last() == withheld_lines(withheld@[i as int]));
            assert(strings_view(lines@) =~= before + withheld_lines(withheld@[i as int]));
        }
        i += 1;
    }
    assert(withheld@.take(i as int) =~= withheld@);
}

fn push_temporal_withheld(lines: &mut Vec<String>, withheld: &Vec<TemporallyWithheldFact>)
    ensures
        strings_view(final(lines)@) == strings_view(old(lines)@) + flat_lines(
            withheld@.map_values(|w: TemporallyWithheldFact| temporal_lines(w)),
        ),
{
    let ghost start = strings_view(lines@);
    let mut i: usize = 0;
    while i < withheld.len()
        invariant
            i <= withheld@.len(),
            strings_view(lines@) == start + flat_lines(
                withheld@.take(i as int).map_values(|w: TemporallyWithheldFact| temporal_lines(w)),
            ),
        decreases withheld.len() - i,
    {
        let w = &withheld[i];
        let ghost before = strings_view(lines@);
        let mut a = chars_of("        - ");
        let t = display_atom(&w.atom);
        push_str(&mut a, t.as_str());
        push_str(&mut a, " (");
        push_str(&mut a, w.fact_id.as_str());
        push_str(&mut a, ")");
        push_line(lines, a);
        let mut b = chars_of("          ");
        push_str(&mut b, w.reason.as_str());
        push_line(lines, b);
        proof {
            let f = |w: TemporallyWithheldFact| temporal_lines(w);
            let m = withheld@.take(i + 1).map_values(f);
            assert(m.drop_last() =~= withheld@.take(i as int).map_values(f));
            assert(m.last() == temporal_lines(withheld@[i as int]));
            assert(strings_view(lines@) =~= before + temporal_lines(withheld@[i as int]));
        }
        i += 1;
    }
    assert(withheld@.take(i as int) =~= withheld@);
}

fn push_report(lines: &mut Vec<String>, r: &CheckResult, proof_out: Option<&str>)
    ensures
        strings_view(final(lines)@) == strings_view(old(lines)@) + report_lines(
            r,
            match proof_out {
                Some(p) => Some(p@),
                None => None,
            },
        ),
{
    let ghost start = strings_view(lines@);
    if r.authority.withheld.len() > 0 {
        let mut out = chars_of("\nAuthority withheld ");
        crate::text::push_decimal(&mut out, r.authority.withheld.len() as u64);
        push_str(&mut out, " fact(s):");
        push_line(lines, out);
        push_withheld(lines, &r.authority.withheld);
    }
    let ghost mid = strings_view(lines@);
    match &r.temporal {
        Some(t) => {
            let mut out = chars_of("\nEvaluated at ");
            push_str(&mut out, t.evaluation_time.as_str());
            push_line(lines, out);
            if t.withheld.len() > 0 {
                let mut h = chars_of("Temporal lifecycle withheld ");
                crate::text::push_decimal(&mut h, t.withheld.len() as u64);
                push_str(&mut h, " fact(s):");
                push_line(lines, h);
                push_temporal_withheld(lines, &t.withheld);
            }
        },
        None => {},
    }
    let ghost mid2 = strings_view(lines@);
    let mut out = chars_of("\nOntology ");
    push_str(&mut out, r.ontology.id.as_str());
    push_str(&mut out, "@");
    push_str(&mut out, r.ontology.version.as_str());
    push_str(&mut out, "  ");
    crate::text::push_decimal(&mut out, r.metrics.facts_supplied as u64);
    push_str(&mut out, " supplied, ");
    crate::text::push_decimal(&mut out, r.metrics.facts_admitted as u64);
    push_str(&mut out, " admitted, ");
    crate::text::push_decimal(&mut out, r.metrics.facts_withheld as u64);
    push_str(&mut out, " withheld, ");
    crate::text::push_decimal(&mut out, r.metrics.facts_derived as u64);
    push_str(&mut out, " derived, ");
    crate::text::push_decimal(&mut out, r.metrics.rounds as u64);
    push_str(&mut out, " rounds");
    push_line(lines, out);
    match proof_out {
        Some(path) => {
            let mut a = chars_of("Proof written to ");
            push_str(&mut a, path);
            push_line(lines, a);
            let mut b = chars_of("Next: reason verify <program> ");
            push_str(&mut b, path);
            push_line(lines, b);
        },
        None => {},
    }
    assert(strings_view(lines@) =~= start + report_lines(
        r,
        match proof_out {
            Some(p) => Some(p@),
            None => None,
        },
    ));
}

/// The text report of a check result, line by line, naming the proof file
/// when one was written.
pub fn check_result_text(r: &CheckResult, proof_out: Option<&str>) -> (lines: Vec<String>)
    ensures
        strings_view(lines@) == check_result_lines(
            r,
            match proof_out {
                Some(p) => Some(p@),
                None => None,
            },
        ),
{
    let mut lines: Vec<String> = Vec::new();
    assert(strings_view(lines@) =~= Seq::<Seq<char>>::empty());
    push_support(&mut lines, r);
    push_explanation(&mut lines, r);
    push_report(&mut lines, r, proof_out);
    assert(strings_view(lines@) =~= check_result_lines(
        r,
        match proof_out {
            Some(p) => Some(p@),
            None => None,
        },
    ));
    lines
}


/// The word an authorization status leads its text report with.
pub open spec fn authorization_word(s: AuthorizationStatus) -> Seq<char> {
    match s {
        AuthorizationStatus::Authorized => "AUTHORIZED"@,
        AuthorizationStatus::Denied => "DENIED"@,
        AuthorizationStatus::Conflicted => "CONFLICTED"@,
        AuthorizationStatus::InsufficientEvidence => "INSUFFICIENT_EVIDENCE"@,
    }
}

fn authorization_word_text(s: AuthorizationStatus) -> (t: &'static str)
    ensures
        t@ == authorization_word(s),
{
    match s {
        AuthorizationStatus::Authorized => "AUTHORIZED",
        AuthorizationStatus::Denied => "DENIED",
        AuthorizationStatus::Conflicted => "CONFLICTED",
        AuthorizationStatus::InsufficientEvidence => "INSUFFICIENT_EVIDENCE",
    }
}

/// The lowercase wire name of an authorization status.
pub open spec fn authorization_name(s: AuthorizationStatus) -> Seq<char> {
    match s {
        AuthorizationStatus::Authorized => "authorized"@,
        AuthorizationStatus::Denied => "denied"@,
        AuthorizationStatus::Conflicted => "conflicted"@,
        AuthorizationStatus::InsufficientEvidence => "insufficient_evidence"@,
    }
}

pub fn authorization_name_text(s: AuthorizationStatus) -> (t: &'static str)
    ensures
        t@ == authorization_name(s),
{
    match s {
        AuthorizationStatus::Authorized => "authorized",
        AuthorizationStatus::Denied => "denied",
        AuthorizationStatus::Conflicted => "conflicted",
        AuthorizationStatus::InsufficientEvidence => "insufficient_evidence",
    }
}

/// `key=value` of a tool argument.
pub open spec fn argument_text(e: (String, JsonValue)) -> Seq<char> {
    e.0@ + "="@ + value_text(e.1@)
}

/// The line of a declared effect: kind, resource, and `= value` if it has one.
pub open spec fn effect_line(e: crate::action::ActionEffect) -> Seq<char> {
    "            effect "@ + e.kind@ + " "@ + e.resource@ + match e.value {
        Some(v) => " = "@ + value_text(v@),
        None => Seq::empty(),
    }
}

/// The lines of an authorization issue: code, atom if any, message, and the facts behind it.
pub open spec fn issue_lines(i: AuthorizationIssue) -> Seq<Seq<char>> {
    seq![
        match i.atom {
            Some(a) => "            - ["@ + i.code@ + "] "@ + atom_text(a@) + ": "@ + i.message@,
            None => "            - ["@ + i.code@ + "] "@ + i.message@,
        },
    ] + if i.fact_ids@.len() > 0 {
        seq!["              facts: "@ + join_sep(strings_view(i.fact_ids@), ", "@)]
    } else {
        Seq::empty()
    }
}

/// The lines of an authorization that state the decision and the bound action.
pub open spec fn authorization_head_lines(a: &AuthorizationResult) -> Seq<Seq<char>> {
    seq![
        authorization_word(a.status) + "  "@ + a.action.id@ + " via "@ + a.mission.id@,
        "            "@ + a.action.tool@ + "("@ + join_sep(
            a.action.arguments.entries().map_values(|e: (String, JsonValue)| argument_text(e)),
            ", "@,
        ) + ")"@,
    ] + a.action.effects@.map_values(|e: crate::action::ActionEffect| effect_line(e)) + seq![
        "            action "@ + a.action.digest@,
        "            mission "@ + a.mission.digest@,
    ]
}

/// The lines of an authorization that state its evaluation time and its issues.
pub open spec fn authorization_issue_lines(a: &AuthorizationResult) -> Seq<Seq<char>> {
    (match a.reasoning.temporal {
        Some(t) => seq!["            evaluated at "@ + t.evaluation_time@],
        None => Seq::empty(),
    }) + (if a.issues@.len() == 0 {
        seq!["            all authorization requirements are proved"@]
    } else {
        seq!["            issues:"@] + flat_lines(a.issues@.map_values(|i: AuthorizationIssue| issue_lines(i)))
    })
}

/// The lines of an authorization that name its proofs and certificate file.
pub open spec fn authorization_proof_lines(a: &AuthorizationResult, out: Option<Seq<char>>) -> Seq<Seq<char>> {
    (match a.reasoning.proof {
        Some(p) => seq!["            proof "@ + p.digest@],
        None => Seq::empty(),
    }) + (match a.reasoning.disproof {
        Some(p) => seq!["            disproof "@ + p.digest@],
        None => Seq::empty(),
    }) + match out {
        Some(path) => seq!["Certificate written to "@ + path, "Next: reason verify-authorization <request> "@ + path],
        None => Seq::empty(),
    }
}

/// The text report of an authorization, line by line.
pub open spec fn authorization_lines(a: &AuthorizationResult, out: Option<Seq<char>>) -> Seq<Seq<char>> {
    authorization_head_lines(a) + authorization_issue_lines(a) + authorization_proof_lines(a, out)
}

fn arguments_text(m: &crate::engine::Bindings) -> (s: String)
    ensures
        s@ == join_sep(m.entries().map_values(|e: (String, JsonValue)| argument_text(e)), ", "@),
{
    let mut parts: Vec<String> = Vec::new();
    let mut i: usize = 0;
    while i < m.len()
        invariant
            i <= m.entries().len(),
            strings_view(parts@) == m.entries().take(i as int).map_values(|e: (String, JsonValue)| argument_text(e)),
        decreases m.entries().len() - i,
    {
        let mut out = chars_of(m.key_at(i).as_str());
        push_str(&mut out, "=");
        let v = display_value(m.value_at(i));
        push_str(&mut out, v.as_str());
        let ghost before = parts@;
        parts.push(line(out));
        proof {
            assert(strings_view(parts@) =~= strings_view(before).push(argument_text(m.entries()[i as int])));
            assert(m.entries().take(i + 1).map_values(|e: (String, JsonValue)| argument_text(e)) =~= m.entries().take(
                i as int,
            ).map_values(|e: (String, JsonValue)| argument_text(e)).push(argument_text(m.entries()[i as int])));
        }
        i += 1;
    }
    assert(m.entries().take(i as int) =~= m.entries());
    join_with(&parts, ", ")
}

fn push_effects(lines: &mut Vec<String>, effects: &Vec<crate::action::ActionEffect>)
    ensures
        strings_view(final(lines)@) == strings_view(old(lines)@) + effects@.map_values(
            |e: crate::action::ActionEffect| effect_line(e),
        ),
{
    let ghost start = strings_view(lines@);
    let mut i: usize = 0;
    while i < effects.len()
        invariant
            i <= effects@.len(),
            strings_view(lines@) == start + effects@.take(i as int).map_values(|e: crate::action::ActionEffect| effect_line(e)),
        decreases effects.len() - i,
    {
        let e = &effects[i];
        let mut out = chars_of("            effect ");
        push_str(&mut out, e.kind.as_str());
        push_str(&mut out, " ");
        push_str(&mut out, e.resource.as_str());
        match &e.value {
            Some(v) => {
                push_str(&mut out, " = ");
                let t = display_value(v);
                push_str(&mut out, t.as_str());
            },
            None => {},
        }
        assert(out@ =~= effect_line(effects@[i as int]));
        push_line(lines, out);
        assert(effects@.take(i + 1).map_values(|e: crate::action::ActionEffect| effect_line(e)) =~= effects@.take(
            i as int,
        ).map_values(|e: crate::action::ActionEffect| effect_line(e)).push(effect_line(effects@[i as int])));
        i += 1;
    }
    assert(effects@.take(i as int) =~= effects@);
}

fn push_issues(lines: &mut Vec<String>, issues: &Vec<AuthorizationIssue>)
    ensures
        strings_view(final(lines)@) == strings_view(old(lines)@) + flat_lines(
            issues@.map_values(|i: AuthorizationIssue| issue_lines(i)),
        ),
{
    let ghost start = strings_view(lines@);
    let mut i: usize = 0;
    while i < issues.len()
        invariant
            i <= issues@.len(),
            strings_view(lines@) == start + flat_lines(issues@.take(i as int).map_values(|i: AuthorizationIssue| issue_lines(i))),
        decreases issues.len() - i,
    {
        let issue = &issues[i];
        let ghost before = strings_view(lines@);
        let mut out = chars_of("            - [");
        push_str(&mut out, issue.code.as_str());
        push_str(&mut out, "] ");
        match &issue.atom {
            Some(a) => {
                let t = display_atom(a);
                push_str(&mut out, t.as_str());
                push_str(&mut out, ": ");
            },
            None => {},
        }
        push_str(&mut out, issue.message.as_str());
        push_line(lines, out);
        if issue.fact_ids.len() > 0 {
            let mut f = chars_of("              facts: ");
            let j = join_with(&issue.fact_ids, ", ");
            push_str(&mut f, j.as_str());
            push_line(lines, f);
        }
        proof {
            let g = |i: AuthorizationIssue| issue_lines(i);
            let m = issues@.take(i + 1).map_values(g);
            assert(m.drop_last() =~= issues@.take(i as int).map_values(g));
            assert(m.last() == issue_lines(issues@[i as int]));
            assert(strings_view(lines@) =~= before + issue_lines(issues@[i as int]));
        }
        i += 1;
    }
    assert(issues@.take(i as int) =~= issues@);
}

fn push_authorization_head(lines: &mut Vec<String>, a: &AuthorizationResult)
    ensures
        strings_view(final(lines)@) == strings_view(old(lines)@) + authorization_head_lines(a),
{
    let ghost s0 = strings_view(lines@);
    let mut head = chars_of(authorization_word_text(a.status));
    push_str(&mut head, "  ");
    push_str(&mut head, a.action.id.as_str());
    push_str(&mut head, " via ");
    push_str(&mut head, a.mission.id.as_str());
    push_line(lines, head);
    let mut call = chars_of("            ");
    push_str(&mut call, a.action.tool.as_str());
    push_str(&mut call, "(");
    let args = arguments_text(&a.action.arguments);
    push_str(&mut call, args.as_str());
    push_str(&mut call, ")");
    push_line(lines, call);
    let ghost s1 = strings_view(lines@);
    push_effects(lines, &a.action.effects);
    let ghost s2 = strings_view(lines@);
    let mut ad = chars_of("            action ");
    push_str(&mut ad, a.action.digest.as_str());
    push_line(lines, ad);
    let mut md = chars_of("            mission ");
    push_str(&mut md, a.mission.digest.as_str());
    push_line(lines, md);
    assert(strings_view(lines@) =~= s0 + authorization_head_lines(a));
}

fn push_authorization_issues(lines: &mut Vec<String>, a: &AuthorizationResult)
    ensures
        strings_view(final(lines)@) == strings_view(old(lines)@) + authorization_issue_lines(a),
{
    let ghost s3 = strings_view(lines@);
    match &a.reasoning.temporal {
        Some(t) => {
            let mut e = chars_of("            evaluated at ");
            push_str(&mut e, t.evaluation_time.as_str());
            push_line(lines, e);
        },
        None => {},
    }
    let ghost s4 = strings_view(lines@);
    if a.issues.len() == 0 {
        push_text(lines, "            all authorization requirements are proved");
    } else {
        push_text(lines, "            issues:");
        push_issues(lines, &a.issues);
    }
    assert(strings_view(lines@) =~= s3 + authorization_issue_lines(a));
}

fn push_authorization_proofs(lines: &mut Vec<String>, a: &AuthorizationResult, certificate_out: Option<&str>)
    ensures
        strings_view(final(lines)@) == strings_view(old(lines)@) + authorization_proof_lines(
            a,
            match certificate_out {
                Some(p) => Some(p@),
                None => None,
            },
        ),
{
    let ghost s5 = strings_view(lines@);
    match &a.reasoning.proof {
        Some(p) => {
            let mut e = chars_of("            proof ");
            push_str(&mut e, p.digest.as_str());
            push_line(lines, e);
        },
        None => {},
    }
    match &a.reasoning.disproof {
        Some(p) => {
            let mut e = chars_of("            disproof ");
            push_str(&mut e, p.digest.as_str());
            push_line(lines, e);
        },
        None => {},
    }
    let ghost s6 = strings_view(lines@);
    match certificate_out {
        Some(path) => {
            let mut c = chars_of("Certificate written to ");
            push_str(&mut c, path);
            push_line(lines, c);
            let mut n = chars_of("Next: reason verify-authorization <request> ");
            push_str(&mut n, path);
            push_line(lines, n);
        },
        None => {},
    }
    assert(strings_view(lines@) =~= s5 + authorization_proof_lines(
        a,
        match certificate_out {
            Some(p) => Some(p@),
            None => None,
        },
    ));
}

/// The text report of an authorization, line by line, naming the
/// certificate file when one was written.
pub fn authorization_text(a: &AuthorizationResult, certificate_out: Option<&str>) -> (lines: Vec<String>)
    ensures
        strings_view(lines@) == authorization_lines(
            a,
            match certificate_out {
                Some(p) => Some(p@),
                None => None,
            },
        ),
{
    let mut lines: Vec<String> = Vec::new();
    assert(strings_view(lines@) =~= Seq::<Seq<char>>::empty());
    push_authorization_head(&mut lines, a);
    push_authorization_issues(&mut lines, a);
    push_authorization_proofs(&mut lines, a, certificate_out);
    assert(strings_view(lines@) =~= authorization_lines(
        a,
        match certificate_out {
            Some(p) => Some(p@),
            None => None,
        },
    ));
    lines
}

/// The text report of a verified authorization, line by line.
pub open spec fn authorization_verification_lines(v: &AuthorizationVerification) -> Seq<Seq<char>> {
    seq![
        "VERIFIED_AUTHORIZATION  "@ + v.request_digest@ + " ("@ + authorization_name(v.authorization_status) + ")"@,
        "                        result "@ + v.reasoning_result_digest@,
    ]
}

/// The text report of a verified authorization, line by line.
pub fn authorization_verification_text(v: &AuthorizationVerification) -> (lines: Vec<String>)
    ensures
        strings_view(lines@) == authorization_verification_lines(v),
{
    let mut lines: Vec<String> = Vec::new();
    let mut a = chars_of("VERIFIED_AUTHORIZATION  ");
    push_str(&mut a, v.request_digest.as_str());
    push_str(&mut a, " (");
    push_str(&mut a, authorization_name_text(v.authorization_status));
    push_str(&mut a, ")");
    push_line(&mut lines, a);
    let mut b = chars_of("                        result ");
    push_str(&mut b, v.reasoning_result_digest.as_str());
    push_line(&mut lines, b);
    assert(strings_view(lines@) =~= authorization_verification_lines(v));
    lines
}

/// The text report of a verified check result, line by line.
pub open spec fn verification_lines(v: &VerificationResult) -> Seq<Seq<char>> {
    seq!["VERIFIED  "@ + atom_text(v.query@) + " ("@ + status_name_spec(v.result_status) + ")"@] + (match v.evaluation_time {
        Some(t) => seq!["          evaluated at "@ + t@],
        None => Seq::empty(),
    }) + seq!["          "@ + decimal(v.nodes_verified as nat) + " proof nodes"@] + strings_view(v.proof_digests@).map_values(
        |d: Seq<char>| "          proof "@ + d,
    )
}

/// The text report of a verified check result, line by line.
pub fn verification_text(v: &VerificationResult) -> (lines: Vec<String>)
    ensures
        strings_view(lines@) == verification_lines(v),
{
    let mut lines: Vec<String> = Vec::new();
    let mut a = chars_of("VERIFIED  ");
    let q = display_atom(&v.query);
    push_str(&mut a, q.as_str());
    push_str(&mut a, " (");
    push_str(&mut a, status_name(v.result_status));
    push_str(&mut a, ")");
    push_line(&mut lines, a);
    match &v.evaluation_time {
        Some(t) => {
            let mut e = chars_of("          evaluated at ");
            push_str(&mut e, t.as_str());
            push_line(&mut lines, e);
        },
        None => {},
    }
    let mut n = chars_of("          ");
    crate::text::push_decimal(&mut n, v.nodes_verified as u64);
    push_str(&mut n, " proof nodes");
    push_line(&mut lines, n);
    let ghost head = strings_view(lines@);
    let mut i: usize = 0;
    while i < v.proof_digests.len()
        invariant
            i <= v.proof_digests@.len(),
            strings_view(lines@) == head + strings_view(v.proof_digests@.take(i as int)).map_values(
                |d: Seq<char>| "          proof "@ + d,
            ),
        decreases v.proof_digests.len() - i,
    {
        let mut p = chars_of("          proof ");
        push_str(&mut p, v.proof_digests[i].as_str());
        push_line(&mut lines, p);
        assert(strings_view(v.proof_digests@.take(i + 1)).map_values(|d: Seq<char>| "          proof "@ + d) =~= strings_view(
            v.proof_digests@.take(i as int),
        ).map_values(|d: Seq<char>| "          proof "@ + d).push("          proof "@ + v.proof_digests@[i as int]@));
        i += 1;
    }
    assert(v.proof_digests@.take(i as int) =~= v.proof_digests@);
    assert(strings_view(lines@) =~= verification_lines(v));
    lines
}

} // verus!
