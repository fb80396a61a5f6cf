use vstd::prelude::*;

use crate::collections::{StrMap, StrSet};
use crate::json::{json_views, lemma_json_views, JsonV, JsonValue};
use crate::model::{AtomV, Atom, Ontology, Predicate, ScalarType};
use crate::text::{chars_of, push_debug, push_decimal, push_str, string_from_chars};

verus! {

/// A string argument `$name` with a non-empty name is a variable.
pub open spec fn is_variable(v: JsonV) -> bool {
    v matches JsonV::Str(s) && s.len() > 1 && s[0] == '$'
}

/// The name of a variable argument (without the `$`).
pub open spec fn variable_of(v: JsonV) -> Seq<char> {
    v->Str_0.drop_first()
}

pub open spec fn is_digit(c: char) -> bool {
    '0' <= c && c <= '9'
}

pub open spec fn all_digits(s: Seq<char>) -> bool {
    forall|i: int| 0 <= i < s.len() ==> is_digit(#[trigger] s[i])
}

pub open spec fn digits_value(s: Seq<char>) -> nat
    decreases s.len(),
{
    if s.len() == 0 {
        0
    } else {
        digits_value(s.drop_last()) * 10 + ((s.last() as int) - ('0' as int)) as nat
    }
}

/// Whether serde_json's `as_i64` yields a value for a number written `t`:
/// a negative integer, or a non-negative integer no larger than `i64::MAX`.
pub open spec fn number_is_i64(t: Seq<char>) -> bool {
    ||| t.len() > 1 && t[0] == '-' && all_digits(t.drop_first())
    ||| t.len() > 0 && all_digits(t) && digits_value(t) <= i64::MAX
}

/// Whether a value has the declared scalar type.
pub open spec fn type_ok(v: JsonV, t: ScalarType) -> bool {
    match t {
        ScalarType::String => v is Str,
        ScalarType::Integer => v matches JsonV::Number(n) && number_is_i64(n),
        ScalarType::Boolean => v is Bool,
    }
}

/// Whether one argument is acceptable: a variable where variables are
/// allowed, or a constant of the declared type.
pub open spec fn arg_ok(v: JsonV, t: ScalarType, variables_allowed: bool) -> bool {
    if is_variable(v) {
        variables_allowed
    } else {
        type_ok(v, t)
    }
}

/// Whether an atom fits the ontology: its predicate is declared, it has the
/// declared number of arguments, and each argument is acceptable.
pub open spec fn atom_ok(a: AtomV, ontology: &Ontology, variables_allowed: bool) -> bool {
    match ontology.predicates.spec_get(a.predicate) {
        None => false,
        Some(p) => {
            &&& p.arguments@.len() == a.arguments.len()
            &&& forall|i: int|
                0 <= i < a.arguments.len() ==> arg_ok(
                    #[trigger] a.arguments[i],
                    p.arguments@[i],
                    variables_allowed,
                )
        },
    }
}

/// The name of a variable argument, if the value is one.
pub fn variable_name(v: &JsonValue) -> (r: Option<String>)
    ensures
        r is Some <==> is_variable(v@),
        r matches Some(n) ==> n@ == variable_of(v@),
{
    match v {
        JsonValue::String(s) => {
            let cs = chars_of(s.as_str());
            if cs.len() > 1 && cs[0] == '$' {
                let mut rest: Vec<char> = Vec::new();
                let mut i: usize = 1;
                while i < cs.len()
                    invariant
                        1 <= i <= cs@.len(),
                        rest@ == cs@.subrange(1, i as int),
                    decreases cs.len() - i,
                {
                    rest.push(cs[i]);
                    proof {
                        assert(cs@.subrange(1, i + 1) =~= cs@.subrange(1, i as int).push(cs@[i as int]));
                    }
                    i += 1;
                }
                assert(rest@ =~= s@.drop_first());
                Some(string_from_chars(rest.as_slice()))
            } else {
                None
            }
        },
        _ => None,
    }
}

/// Whether the number text `t` is an `i64` for serde_json.
pub fn number_text_is_i64(t: &str) -> (b: bool)
    ensures
        b == number_is_i64(t@),
{
    let cs = chars_of(t);
    if cs.len() == 0 {
        return false;
    }
    let negative = cs[0] == '-';
    let start: usize = if negative { 1 } else { 0 };
    if negative && cs.len() == 1 {
        return false;
    }
    let mut value: u64 = 0;
    let mut too_large = false;
    let mut i: usize = start;
    while i < cs.len()
        invariant
            cs@ == t@,
            start <= i <= cs@.len(),
            start == (if negative { 1usize } else { 0usize }),
            negative == (t@[0] == '-'),
            forall|j: int| start <= j < i ==> is_digit(#[trigger] t@[j]),
            !negative && !too_large ==> value == digits_value(t@.take(i as int)),
            !negative && too_large ==> digits_value(t@.take(i as int)) > i64::MAX,
            value <= i64::MAX,
        decreases cs.len() - i,
    {
        let c = cs[i];
        if !('0' <= c && c <= '9') {
            proof {
                if negative {
                    assert(t@.drop_first()[i - 1] == c);
                }
            }
            return false;
        }
        proof {
            let p = t@.take(i + 1);
            assert(p.drop_last() =~= t@.take(i as int));
            assert(p.last() == c);
        }
        if !negative && !too_large {
            let d = (c as u32 - '0' as u32) as u64;
            if value > (9223372036854775807u64 - d) / 10 {
                too_large = true;
                proof {
                    assert(digits_value(t@.take(i + 1)) == value * 10 + d);
                    assert(value * 10 + d > i64::MAX) by (nonlinear_arith)
                        requires value > (9223372036854775807u64 - d) / 10, d < 10;
                }
            } else {
                proof {
                    assert(value * 10 + d <= i64::MAX) by (nonlinear_arith)
                        requires value <= (9223372036854775807u64 - d) / 10, d < 10;
                }
                value = value * 10 + d;
            }
        } else if !negative {
            proof {
                assert(digits_value(t@.take(i + 1)) >= digits_value(t@.take(i as int)) * 10);
                assert(digits_value(t@.take(i as int)) * 10 >= digits_value(t@.take(i as int))) by (nonlinear_arith);
            }
        }
        i += 1;
    }
    proof {
        assert(t@.take(t@.len() as int) =~= t@);
        if negative {
            assert forall|j: int| 0 <= j < t@.drop_first().len() implies is_digit(#[trigger] t@.drop_first()[j]) by {
                assert(t@.drop_first()[j] == t@[j + 1]);
            }
        } else {
            if t@.len() > 1 && t@[0] == '-' {
                assert(false);
            }
        }
    }
    negative || !too_large
}

pub fn scalar_name(t: ScalarType) -> (s: &'static str)
    ensures
        s@ == match t {
            ScalarType::String => "string"@,
            ScalarType::Integer => "integer"@,
            ScalarType::Boolean => "boolean"@,
        },
{
    match t {
        ScalarType::String => "string",
        ScalarType::Integer => "integer",
        ScalarType::Boolean => "boolean",
    }
}

/// The name serde_json's kind of a value is reported by.
pub fn value_kind(v: &JsonValue) -> (s: &'static str)
    ensures
        s@ == match v@ {
            JsonV::Null => "null"@,
            JsonV::Bool(_) => "boolean"@,
            JsonV::Number(_) => "number"@,
            JsonV::Str(_) => "string"@,
            JsonV::Array(_) => "array"@,
            JsonV::Object(_, _) => "object"@,
        },
{
    match v {
        JsonValue::Null => "null",
        JsonValue::Bool(_) => "boolean",
        JsonValue::Number(_) => "number",
        JsonValue::String(_) => "string",
        JsonValue::Array(_) => "array",
        JsonValue::Object(_, _) => "object",
    }
}

/// Whether a constant value has the declared type.
pub fn has_type(v: &JsonValue, t: ScalarType) -> (b: bool)
    ensures
        b == type_ok(v@, t),
{
    match t {
        ScalarType::String => match v {
            JsonValue::String(_) => true,
            _ => false,
        },
        ScalarType::Integer => match v {
            JsonValue::Number(n) => number_text_is_i64(n.as_str()),
            _ => false,
        },
        ScalarType::Boolean => match v {
            JsonValue::Bool(_) => true,
            _ => false,
        },
    }
}

/// `path` followed by `rest`.
pub fn path_message(path: &[char], rest: &str) -> (s: String)
    ensures
        s@ == path@ + rest@,
{
    let mut out: Vec<char> = Vec::new();
    let mut i: usize = 0;
    while i < path.len()
        invariant
            i <= path@.len(),
            out@ == path@.take(i as int),
        decreases path.len() - i,
    {
        out.push(path[i]);
        i += 1;
        proof { assert(out@ =~= path@.take(i as int)); }
    }
    assert(path@.take(path@.len() as int) =~= path@);
    push_str(&mut out, rest);
    string_from_chars(out.as_slice())
}

/// `path` followed by `[index]`.
pub fn indexed_path(path: &[char], index: usize) -> (s: Vec<char>)
    ensures
        s@ == path@ + seq!['['] + crate::text::decimal(index as nat) + seq![']'],
{
    let mut out: Vec<char> = Vec::new();
    let mut i: usize = 0;
    while i < path.len()
        invariant
            i <= path@.len(),
            out@ == path@.take(i as int),
        decreases path.len() - i,
    {
        out.push(path[i]);
        i += 1;
        proof { assert(out@ =~= path@.take(i as int)); }
    }
    assert(path@.take(path@.len() as int) =~= path@);
    out.push('[');
    push_decimal(&mut out, index as u64);
    out.push(']');
    assert(out@ =~= path@ + seq!['['] + crate::text::decimal(index as nat) + seq![']']);
    out
}

/// `base` followed by `suffix`.
pub fn extend_path(base: &[char], suffix: &str) -> (s: Vec<char>)
    ensures
        s@ == base@ + suffix@,
{
    let mut out: Vec<char> = Vec::new();
    let mut i: usize = 0;
    while i < base.len()
        invariant
            i <= base@.len(),
            out@ == base@.take(i as int),
        decreases base.len() - i,
    {
        out.push(base[i]);
        i += 1;
        proof { assert(out@ =~= base@.take(i as int)); }
    }
    assert(base@.take(base@.len() as int) =~= base@);
    push_str(&mut out, suffix);
    out
}

fn unknown_predicate_message(path: &[char], predicate: &str) -> (s: String)
    ensures
        s@ == path@ + ".predicate: unknown predicate "@ + crate::text::debug_text(predicate@)
            + "; declare it in $.ontology.predicates"@,
{
    let mut out = extend_path(path, ".predicate: unknown predicate ");
    push_debug(&mut out, predicate);
    push_str(&mut out, "; declare it in $.ontology.predicates");
    string_from_chars(out.as_slice())
}

fn arity_message(path: &[char], predicate: &str, expected: usize, got: usize) -> (s: String)
    ensures
        s@ == path@ + ".arguments: predicate "@ + crate::text::debug_text(predicate@) + " expects "@ + crate::text::decimal(
            expected as nat,
        ) + " arguments, got "@ + crate::text::decimal(got as nat),
{
    let mut out = extend_path(path, ".arguments: predicate ");
    push_debug(&mut out, predicate);
    push_str(&mut out, " expects ");
    push_decimal(&mut out, expected as u64);
    push_str(&mut out, " arguments, got ");
    push_decimal(&mut out, got as u64);
    string_from_chars(out.as_slice())
}

fn argument_message(path: &[char], index: usize, rest: &str) -> (s: String)
    ensures
        s@ == path@ + ".arguments"@ + seq!['['] + crate::text::decimal(index as nat) + seq![']'] + rest@,
{
    let mut out = extend_path(path, ".arguments");
    out.push('[');
    push_decimal(&mut out, index as u64);
    out.push(']');
    push_str(&mut out, rest);
    string_from_chars(out.as_slice())
}

fn argument_type_message(path: &[char], index: usize, expected: &str, got: &str) -> (s: String)
    ensures
        s@ == path@ + ".arguments"@ + seq!['['] + crate::text::decimal(index as nat) + "]: expected "@ + expected@ + ", got "@ + got@,
{
    let mut out = extend_path(path, ".arguments");
    out.push('[');
    push_decimal(&mut out, index as u64);
    push_str(&mut out, "]: expected ");
    push_str(&mut out, expected);
    push_str(&mut out, ", got ");
    push_str(&mut out, got);
    string_from_chars(out.as_slice())
}

/// Reports, under `path`, every way `atom` does not fit the ontology.
pub fn validate_atom(
    atom: &Atom,
    ontology: &Ontology,
    variables_allowed: bool,
    path: &[char],
    errors: &mut Vec<String>,
)
    ensures
        crate::text::grows(old(errors)@, final(errors)@),
        final(errors)@.len() >= old(errors)@.len(),
        (final(errors)@.len() == old(errors)@.len()) == atom_ok(atom@, ontology, variables_allowed),
{
    let ghost errors_start = errors@;
    let predicate = match ontology.predicates.get(atom.predicate.as_str()) {
        Some(p) => p,
        None => {
            errors.push(unknown_predicate_message(path, atom.predicate.as_str()));
            return;
        },
    };
    proof { lemma_json_views(atom.arguments@); }
    if predicate.arguments.len() != atom.arguments.len() {
        errors.push(arity_message(path, atom.predicate.as_str(), predicate.arguments.len(), atom.arguments.len()));
        return;
    }
    let ghost start = errors@.len();
    let mut i: usize = 0;
    while i < atom.arguments.len()
        invariant
            crate::text::grows(errors_start, errors@),
            i <= atom.arguments@.len(),
            predicate.arguments@.len() == atom.arguments@.len(),
            errors@.len() >= start,
            json_views(atom.arguments@).len() == atom.arguments@.len(),
            forall|k: int| 0 <= k < atom.arguments@.len() ==> #[trigger] json_views(atom.arguments@)[k] == atom.arguments@[k]@,
            (errors@.len() == start) == (forall|k: int| 0 <= k < i ==> arg_ok(
                #[trigger] json_views(atom.arguments@)[k],
                predicate.arguments@[k],
                variables_allowed,
            )),
        decreases atom.arguments.len() - i,
    {
        let value = &atom.arguments[i];
        let expected = predicate.arguments[i];
        let ghost ok_before = errors@.len() == start;
        if variable_name(value).is_some() {
            if !variables_allowed {
                errors.push(argument_message(path, i, ": variables are not allowed here"));
            }
        } else if !has_type(value, expected) {
            errors.push(argument_type_message(path, i, scalar_name(expected), value_kind(value)));
        }
        proof {
            assert(json_views(atom.arguments@)[i as int] == value@);
        }
        i += 1;
    }
}

} // verus!
