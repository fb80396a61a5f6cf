use vstd::prelude::*;

use unicode_normalization::UnicodeNormalization;

use crate::collections::StrSet;
use crate::error::{reason_message, ReasonError};
use crate::json::{array_of, encode, encode_value, json_views, lemma_json_views_push, string_value, JsonV, JsonValue, ObjectBuilder};
use crate::text::{chars_of, debug_text, decimal, join_lines, push_str, str_eq, strings_view};

verus! {

pub const POLICY_SOURCE_MANIFEST_SCHEMA: &'static str = "zerker.reason.policy-source-manifest.v1";
pub const POLICY_SOURCE_VERIFICATION_SCHEMA: &'static str = "zerker.reason.policy-source-verification.v1";
pub const MAX_POLICY_SOURCES: usize = 256;
pub const MAX_SOURCE_MANIFEST_BYTES: usize = 262144;
pub const MAX_PORTABLE_POLICY_PATH_BYTES: usize = 4096;

/// What a policy source file holds.
#[derive(Clone, Copy, Debug, PartialEq, Eq, Structural)]
pub enum PolicySourceKind {
    Instruction,
    Skill,
    Context,
}

/// Whose policy a source file states.
#[derive(Clone, Copy, Debug, PartialEq, Eq, Structural)]
pub enum PolicySourceScope {
    Organization,
    Repository,
    Agent,
}

/// A declared policy source: a portable path below the source root.
pub struct PolicySource {
    pub path: String,
    pub kind: PolicySourceKind,
    pub scope: PolicySourceScope,
}

/// The list of policy sources a bundle is locked from.
pub struct PolicySourceManifest {
    pub schema: String,
    pub sources: Vec<PolicySource>,
}

/// A policy source with the exact size and digest it was locked at.
pub struct LockedPolicySource {
    pub path: String,
    pub kind: PolicySourceKind,
    pub scope: PolicySourceScope,
    pub size_bytes: u64,
    pub digest: String,
}

/// The report of a successful source verification.
pub struct PolicySourceVerification {
    pub schema: &'static str,
    pub status: &'static str,
    pub policy_bundle_digest: String,
    pub sources_verified: usize,
}

/// Why an organization policy input was refused.
#[derive(Debug)]
pub enum PolicyError {
    Invalid(String),
    InputTooLarge { limit: usize },
    Utf8(String),
    Json(String),
    Reason(ReasonError),
    SourceAccess { path: String, message: String },
}

/// The message each policy error prints.
pub open spec fn policy_message(e: PolicyError) -> Seq<char> {
    match e {
        PolicyError::Invalid(m) => "invalid organization policy contract:\n"@ + m@,
        PolicyError::InputTooLarge { limit } => "organization policy JSON exceeds the "@ + decimal(limit as nat)
            + "-byte limit"@,
        PolicyError::Utf8(m) => "organization policy JSON is not UTF-8: "@ + m@,
        PolicyError::Json(m) => "invalid organization policy JSON: "@ + m@,
        PolicyError::Reason(r) => "organization policy authorization failed: "@ + reason_message(r),
        PolicyError::SourceAccess { path, message } => "policy source access failed for "@ + debug_text(path@) + ": "@
            + message@,
    }
}

impl PolicyError {
    /// The message this error prints.
    pub fn message(&self) -> (s: String)
        ensures
            s@ == policy_message(*self),
    {
        let mut out: Vec<char> = Vec::new();
        match self {
            PolicyError::Invalid(m) => {
                push_str(&mut out, "invalid organization policy contract:\n");
                push_str(&mut out, m.as_str());
            },
            PolicyError::InputTooLarge { limit } => {
                push_str(&mut out, "organization policy JSON exceeds the ");
                crate::text::push_decimal(&mut out, *limit as u64);
                push_str(&mut out, "-byte limit");
            },
            PolicyError::Utf8(m) => {
                push_str(&mut out, "organization policy JSON is not UTF-8: ");
                push_str(&mut out, m.as_str());
            },
            PolicyError::Json(m) => {
                push_str(&mut out, "invalid organization policy JSON: ");
                push_str(&mut out, m.as_str());
            },
            PolicyError::Reason(r) => {
                push_str(&mut out, "organization policy authorization failed: ");
                let m = r.message();
                push_str(&mut out, m.as_str());
            },
            PolicyError::SourceAccess { path, message } => {
                push_str(&mut out, "policy source access failed for ");
                crate::text::push_debug(&mut out, path.as_str());
                push_str(&mut out, ": ");
                push_str(&mut out, message.as_str());
            },
        }
        crate::text::string_from_chars(out.as_slice())
    }
}

/// The number of bytes UTF-8 takes for a character.
pub open spec fn utf8_width(c: char) -> nat {
    if (c as u32) < 0x80 {
        1
    } else if (c as u32) < 0x800 {
        2
    } else if (c as u32) < 0x10000 {
        3
    } else {
        4
    }
}

/// The number of bytes UTF-8 takes for a text.
pub open spec fn utf8_len(s: Seq<char>) -> nat
    decreases s.len(),
{
    if s.len() == 0 {
        0
    } else {
        utf8_len(s.drop_last()) + utf8_width(s.last())
    }
}

proof fn lemma_utf8_len_take(s: Seq<char>, i: int)
    requires
        0 <= i <= s.len(),
    ensures
        utf8_len(s.take(i)) <= utf8_len(s),
    decreases s.len() - i,
{
    if i < s.len() {
        lemma_utf8_len_take(s, i + 1);
        assert(s.take(i + 1).drop_last() =~= s.take(i));
    } else {
        assert(s.take(i) =~= s);
    }
}

proof fn lemma_utf8_len_at_least_len(s: Seq<char>)
    ensures
        s.len() <= utf8_len(s),
    decreases s.len(),
{
    if s.len() > 0 {
        lemma_utf8_len_at_least_len(s.drop_last());
    }
}

/// The checks before the character scans have passed.
spec fn path_prefix_ok(p: Seq<char>) -> bool {
    &&& p.len() > 0
    &&& p.len() <= MAX_PORTABLE_POLICY_PATH_BYTES
    &&& utf8_len(p) <= MAX_PORTABLE_POLICY_PATH_BYTES
    &&& nfc_text(p) == p
    &&& p[0] != '/'
    &&& p.last() != '/'
}

/// Whether the UTF-8 encoding of the characters is longer than `limit` bytes.
pub fn chars_utf8_longer_than(cs: &Vec<char>, limit: u64) -> (b: bool)
    requires
        limit < 0x1000_0000,
    ensures
        b == (utf8_len(cs@) > limit),
{
    let mut n: u64 = 0;
    let mut i: usize = 0;
    while i < cs.len()
        invariant
            i <= cs@.len(),
            limit < 0x1000_0000,
            n == utf8_len(cs@.take(i as int)),
            n <= limit,
        decreases cs.len() - i,
    {
        let c = cs[i] as u32;
        let w: u64 = if c < 0x80 {
            1
        } else if c < 0x800 {
            2
        } else if c < 0x10000 {
            3
        } else {
            4
        };
        proof {
            assert(cs@.take(i + 1).drop_last() =~= cs@.take(i as int));
            assert(cs@.take(i + 1).last() == cs@[i as int]);
        }
        n = n + w;
        i += 1;
        if n > limit {
            proof { lemma_utf8_len_take(cs@, i as int); }
            return true;
        }
    }
    assert(cs@.take(i as int) =~= cs@);
    false
}

/// Whether the UTF-8 encoding of `s` is longer than `limit` bytes.
fn utf8_longer_than(s: &str, limit: u64) -> (b: bool)
    requires
        limit < 0x1000_0000,
    ensures
        b == (utf8_len(s@) > limit),
{
    let cs = chars_of(s);
    chars_utf8_longer_than(&cs, limit)
}

/// The Unicode Normalization Form C of a text, as `unicode-normalization` computes it.
pub uninterp spec fn nfc_text(s: Seq<char>) -> Seq<char>;

/// `UnicodeNormalization::nfc` of `unicode-normalization`: the canonical
/// composition of the text's canonical decomposition. The result is named
/// (`nfc_text`), not restated from Unicode's tables.
#[verifier::external_body]
fn nfc(s: &str) -> (r: String)
    ensures
        r@ == nfc_text(s@),
{
    s.nfc().collect::<String>()
}

/// Characters a portable path must not hold: NUL and the other control
/// characters (general category Cc), and the bidirectional controls.
pub open spec fn forbidden_path_char(c: char) -> bool {
    let u = c as u32;
    ||| u <= 0x1f
    ||| 0x7f <= u <= 0x9f
    ||| u == 0x061c
    ||| u == 0x200e
    ||| u == 0x200f
    ||| 0x202a <= u <= 0x202e
    ||| 0x2066 <= u <= 0x2069
}

fn is_forbidden_path_char(c: char) -> (b: bool)
    ensures
        b == forbidden_path_char(c),
{
    let u = c as u32;
    u <= 0x1f || (0x7f <= u && u <= 0x9f) || u == 0x061c || u == 0x200e || u == 0x200f || (0x202a <= u && u
        <= 0x202e) || (0x2066 <= u && u <= 0x2069)
}

/// A `:` stands before the first `/` (a drive or URI-like prefix).
pub open spec fn first_segment_has_colon(p: Seq<char>) -> bool {
    exists|i: int| 0 <= i < p.len() && p[i] == ':' && forall|k: int| 0 <= k < i ==> p[k] != '/'
}

/// `i` starts a segment (`/`-separated part) of `p`.
pub open spec fn segment_start(p: Seq<char>, i: int) -> bool {
    i == 0 || p[i - 1] == '/'
}

/// `j` ends a segment of `p`.
pub open spec fn segment_end(p: Seq<char>, j: int) -> bool {
    j == p.len() || p[j] == '/'
}

/// Some `/`-separated segment of `p` is empty, `.`, or `..`.
pub open spec fn has_empty_dot_or_parent_segment(p: Seq<char>) -> bool {
    exists|i: int, j: int|
        #![trigger segment_start(p, i), segment_end(p, j)]
        0 <= i <= j <= p.len() && segment_start(p, i) && segment_end(p, j) && j - i <= 2 && (forall|k: int|
            i <= k < j ==> p[k] == '.')
}

/// Why a path is not portable, if it is not.
pub open spec fn portable_path_error(p: Seq<char>) -> Option<Seq<char>> {
    if p.len() == 0 {
        Some("must not be empty"@)
    } else if utf8_len(p) > MAX_PORTABLE_POLICY_PATH_BYTES {
        Some("exceeds the 4096-byte portable path limit"@)
    } else if nfc_text(p) != p {
        Some("must already be Unicode NFC"@)
    } else if p[0] == '/' || p.last() == '/' {
        Some("must be root-relative without a leading or trailing slash"@)
    } else if p.contains('\\') {
        Some("backslash is not a portable separator"@)
    } else if exists|i: int| 0 <= i < p.len() && forbidden_path_char(#[trigger] p[i]) {
        Some("control and bidirectional-control characters are forbidden"@)
    } else if first_segment_has_colon(p) {
        Some("drive and URI-like prefixes are forbidden"@)
    } else if has_empty_dot_or_parent_segment(p) {
        Some("empty, dot, and parent segments are forbidden"@)
    } else {
        None
    }
}

fn path_err(msg: &str) -> (r: Result<(), String>)
    ensures
        r matches Err(m) && m@ == msg@,
{
    Err(String::from_str(msg))
}

/// Checks that a policy source path is portable: nonempty, at most 4096
/// UTF-8 bytes, already NFC, relative, `/`-separated, free of control and
/// bidirectional characters, without a drive prefix, and without empty,
/// `.`, or `..` segments.
pub fn validate_portable_path(path: &str) -> (r: Result<(), String>)
    ensures
        r is Ok <==> portable_path_error(path@) is None,
        r matches Err(m) ==> portable_path_error(path@) == Some(m@),
{
    let cs = chars_of(path);
    let n = cs.len();
    if n == 0 {
        return path_err("must not be empty");
    }
    if utf8_longer_than(path, 4096) {
        return path_err("exceeds the 4096-byte portable path limit");
    }
    let normal = nfc(path);
    if !str_eq(normal.as_str(), path) {
        return path_err("must already be Unicode NFC");
    }
    if cs[0] == '/' || cs[n - 1] == '/' {
        return path_err("must be root-relative without a leading or trailing slash");
    }
    proof { lemma_utf8_len_at_least_len(path@); }
    assert(path_prefix_ok(path@));
    let mut i: usize = 0;
    while i < n
        invariant
            cs@ == path@,
            n == cs@.len(),
            i <= n,
            path_prefix_ok(path@),
            forall|k: int| 0 <= k < i ==> path@[k] != '\\',
        decreases n - i,
    {
        if cs[i] == '\\' {
            assert(path@[i as int] == '\\');
            return path_err("backslash is not a portable separator");
        }
        i += 1;
    }
    assert(!path@.contains('\\'));
    let mut i: usize = 0;
    while i < n
        invariant
            cs@ == path@,
            n == cs@.len(),
            i <= n,
            path_prefix_ok(path@),
            !path@.contains('\\'),
            forall|k: int| 0 <= k < i ==> !forbidden_path_char(#[trigger] path@[k]),
        decreases n - i,
    {
        if is_forbidden_path_char(cs[i]) {
            return path_err("control and bidirectional-control characters are forbidden");
        }
        i += 1;
    }
    let mut i: usize = 0;
    while i < n && cs[i] != '/'
        invariant
            cs@ == path@,
            n == cs@.len(),
            i <= n,
            path_prefix_ok(path@),
            !path@.contains('\\'),
            forall|k: int| 0 <= k < n ==> !forbidden_path_char(#[trigger] path@[k]),
            forall|k: int| 0 <= k < i ==> path@[k] != '/' && path@[k] != ':',
        decreases n - i,
    {
        if cs[i] == ':' {
            return path_err("drive and URI-like prefixes are forbidden");
        }
        i += 1;
    }
    assert(!first_segment_has_colon(path@)) by {
        if first_segment_has_colon(path@) {
            let j = choose|j: int| 0 <= j < path@.len() && path@[j] == ':' && forall|k: int| 0 <= k < j ==> path@[k] != '/';
            if j >= i {
                assert(i < n);
                assert(path@[i as int] == '/');
            }
        }
    }
    // Scan the segments: `start` is where the current one began.
    let mut start: usize = 0;
    let mut j: usize = 0;
    while j <= n
        invariant
            cs@ == path@,
            n == cs@.len(),
            path_prefix_ok(path@),
            !path@.contains('\\'),
            forall|k: int| 0 <= k < n ==> !forbidden_path_char(#[trigger] path@[k]),
            !first_segment_has_colon(path@),
            start <= j <= n + 1,
            j <= n ==> start <= j,
            j <= n ==> segment_start(path@, start as int),
            j <= n ==> forall|k: int| start <= k < j ==> path@[k] != '/',
            forall|a: int, b: int|
                #![trigger segment_start(path@, a), segment_end(path@, b)]
                0 <= a <= b <= n && b < j && segment_start(path@, a) && segment_end(path@, b) && (forall|k: int|
                    a <= k < b ==> path@[k] != '/') ==> !(b - a <= 2 && (forall|k: int| a <= k < b ==> path@[k] == '.')),
        decreases n + 1 - j,
    {
        if j == n || cs[j] == '/' {
            let len = j - start;
            let bad = len == 0 || (len == 1 && cs[start] == '.') || (len == 2 && cs[start] == '.' && cs[start + 1] == '.');
            if bad {
                proof {
                    assert(segment_start(path@, start as int));
                    assert(segment_end(path@, j as int));
                    assert forall|k: int| start <= k < j implies path@[k] == '.' by {
                        if len == 2 {
                            assert(k == start || k == start + 1);
                        }
                    }
                }
                return path_err("empty, dot, and parent segments are forbidden");
            }
            proof {
                assert forall|a: int, b: int|
                    #![trigger segment_start(path@, a), segment_end(path@, b)]
                    0 <= a <= b <= n && b < j + 1 && segment_start(path@, a) && segment_end(path@, b) && (forall|k: int|
                        a <= k < b ==> path@[k] != '/') implies !(b - a <= 2 && (forall|k: int| a <= k < b ==> path@[k] == '.')) by {
                    if b == j {
                        if a < start {
                            assert(path@[start - 1] == '/');
                        } else if a > start {
                            assert(path@[a - 1] == '/');
                        }
                        if b - a <= 2 && (forall|k: int| a <= k < b ==> path@[k] == '.') {
                            if len == 1 {
                                assert(path@[start as int] == '.');
                            } else if len == 2 {
                                assert(path@[start as int] == '.');
                                assert(path@[start + 1] == '.');
                            }
                        }
                    }
                }
            }
            start = j + 1;
        } else {
            proof {
                assert forall|a: int, b: int|
                    #![trigger segment_start(path@, a), segment_end(path@, b)]
                    0 <= a <= b <= n && b < j + 1 && segment_start(path@, a) && segment_end(path@, b) && (forall|k: int|
                        a <= k < b ==> path@[k] != '/') implies !(b - a <= 2 && (forall|k: int| a <= k < b ==> path@[k] == '.')) by {
                    if b == j {
                        assert(segment_end(path@, j as int));
                        assert(path@[j as int] == '/');
                    }
                }
            }
        }
        j += 1;
    }
    assert(!has_empty_dot_or_parent_segment(path@)) by {
        if has_empty_dot_or_parent_segment(path@) {
            let (a, b) = choose|a: int, b: int|
                #![trigger segment_start(path@, a), segment_end(path@, b)]
                0 <= a <= b <= path@.len() && segment_start(path@, a) && segment_end(path@, b) && b - a <= 2 && (forall|k: int|
                    a <= k < b ==> path@[k] == '.');
            assert forall|k: int| a <= k < b implies path@[k] != '/' by {
                assert(path@[k] == '.');
            }
        }
    }
    Ok(())
}


/// The name serde writes for a source kind.
pub open spec fn kind_name(k: PolicySourceKind) -> Seq<char> {
    match k {
        PolicySourceKind::Instruction => "instruction"@,
        PolicySourceKind::Skill => "skill"@,
        PolicySourceKind::Context => "context"@,
    }
}

/// The name serde writes for a source scope.
pub open spec fn scope_name(s: PolicySourceScope) -> Seq<char> {
    match s {
        PolicySourceScope::Organization => "organization"@,
        PolicySourceScope::Repository => "repository"@,
        PolicySourceScope::Agent => "agent"@,
    }
}

pub fn kind_text(k: PolicySourceKind) -> (s: &'static str)
    ensures
        s@ == kind_name(k),
{
    match k {
        PolicySourceKind::Instruction => "instruction",
        PolicySourceKind::Skill => "skill",
        PolicySourceKind::Context => "context",
    }
}

pub fn scope_text(k: PolicySourceScope) -> (s: &'static str)
    ensures
        s@ == scope_name(k),
{
    match k {
        PolicySourceScope::Organization => "organization",
        PolicySourceScope::Repository => "repository",
        PolicySourceScope::Agent => "agent",
    }
}

/// A declared source as serde writes it: path, kind, scope.
pub open spec fn source_json(s: PolicySource) -> JsonV {
    JsonV::Object(
        seq!["path"@, "kind"@, "scope"@],
        seq![JsonV::Str(s.path@), JsonV::Str(kind_name(s.kind)), JsonV::Str(scope_name(s.scope))],
    )
}

/// A manifest as serde writes it: schema, then the sources in order.
pub open spec fn manifest_json(m: &PolicySourceManifest) -> JsonV {
    JsonV::Object(
        seq!["schema"@, "sources"@],
        seq![JsonV::Str(m.schema@), JsonV::Array(m.sources@.map_values(|s: PolicySource| source_json(s)))],
    )
}

fn source_to_json(s: &PolicySource) -> (j: JsonValue)
    ensures
        j@ == source_json(*s),
{
    let mut b = ObjectBuilder::new();
    b.add("path", string_value(s.path.as_str()));
    b.add("kind", string_value(kind_text(s.kind)));
    b.add("scope", string_value(scope_text(s.scope)));
    assert(b.key_views() =~= seq!["path"@, "kind"@, "scope"@]);
    assert(b.value_views() =~= seq![JsonV::Str(s.path@), JsonV::Str(kind_name(s.kind)), JsonV::Str(scope_name(s.scope))]);
    b.finish()
}

fn manifest_to_json(m: &PolicySourceManifest) -> (j: JsonValue)
    ensures
        j@ == manifest_json(m),
{
    let mut items: Vec<JsonValue> = Vec::new();
    let mut i: usize = 0;
    while i < m.sources.len()
        invariant
            i <= m.sources@.len(),
            json_views(items@) == m.sources@.take(i as int).map_values(|s: PolicySource| source_json(s)),
        decreases m.sources.len() - i,
    {
        let j = source_to_json(&m.sources[i]);
        proof { lemma_json_views_push(items@, j); }
        items.push(j);
        assert(m.sources@.take(i + 1).map_values(|s: PolicySource| source_json(s)) =~= m.sources@.take(i as int).map_values(
            |s: PolicySource| source_json(s),
        ).push(source_json(m.sources@[i as int])));
        i += 1;
    }
    assert(m.sources@.take(i as int) =~= m.sources@);
    let mut b = ObjectBuilder::new();
    b.add("schema", string_value(m.schema.as_str()));
    let arr = array_of(items);
    b.add("sources", arr);
    assert(b.key_views() =~= seq!["schema"@, "sources"@]);
    assert(b.value_views() =~= seq![JsonV::Str(m.schema@), JsonV::Array(m.sources@.map_values(|s: PolicySource| source_json(s)))]);
    b.finish()
}

/// `$.sources[i].path: ` followed by `m`.
pub open spec fn source_path_message(i: nat, m: Seq<char>) -> Seq<char> {
    "$.sources["@ + decimal(i) + "].path: "@ + m
}

/// The error the `i`-th declared source contributes, if any: its path is not
/// portable, or it repeats an earlier portable path.
pub open spec fn source_error(sources: Seq<PolicySource>, i: int) -> Option<Seq<char>> {
    let p = sources[i].path@;
    match portable_path_error(p) {
        Some(m) => Some(source_path_message(i as nat, m)),
        None => if exists|j: int|
            0 <= j < i && portable_path_error(#[trigger] sources[j].path@) is None && sources[j].path@ == p {
            Some(source_path_message(i as nat, "duplicate portable path "@ + debug_text(p)))
        } else {
            None
        },
    }
}

/// The errors of the first `n` declared sources, in order.
pub open spec fn source_errors(sources: Seq<PolicySource>, n: nat) -> Seq<Seq<char>>
    decreases n,
{
    if n == 0 {
        Seq::empty()
    } else {
        source_errors(sources, (n - 1) as nat) + match source_error(sources, n - 1) {
            Some(m) => seq![m],
            None => Seq::empty(),
        }
    }
}

/// Every problem of a manifest, in the order they are reported.
pub open spec fn manifest_errors(m: &PolicySourceManifest) -> Seq<Seq<char>> {
    let n = m.sources@.len();
    (if utf8_len(encode(manifest_json(m))) > MAX_SOURCE_MANIFEST_BYTES {
        seq!["$: serialized manifest exceeds the 262144-byte limit"@]
    } else {
        Seq::empty()
    }) + (if m.schema@ != POLICY_SOURCE_MANIFEST_SCHEMA@ {
        seq!["$.schema: expected "@ + debug_text(POLICY_SOURCE_MANIFEST_SCHEMA@) + ", got "@ + debug_text(m.schema@)]
    } else {
        Seq::empty()
    }) + (if n == 0 {
        seq!["$.sources: declare at least one policy source"@]
    } else {
        Seq::empty()
    }) + (if n > MAX_POLICY_SOURCES {
        seq!["$.sources: "@ + decimal(n) + " entries exceeds the 256-source limit"@]
    } else {
        Seq::empty()
    }) + source_errors(m.sources@, n)
}

/// Collected problems become one `Invalid` error, one problem per line.
pub fn finish_validation(errors: Vec<String>) -> (r: Result<(), PolicyError>)
    ensures
        r is Ok <==> errors@.len() == 0,
        r matches Err(e) ==> e matches PolicyError::Invalid(m) && m@ == join_lines(strings_view(errors@)),
{
    if errors.len() == 0 {
        Ok(())
    } else {
        invalid(crate::text::join_newline(&errors))
    }
}

/// An `Invalid` error with the given message.
pub fn invalid<T>(message: String) -> (r: Result<T, PolicyError>)
    ensures
        r matches Err(e) && e matches PolicyError::Invalid(m) && m@ == message@,
{
    Err(PolicyError::Invalid(message))
}

fn push_message(errors: &mut Vec<String>, out: Vec<char>)
    ensures
        strings_view(final(errors)@) == strings_view(old(errors)@).push(out@),
{
    let s = crate::text::string_from_chars(out.as_slice());
    errors.push(s);
    assert(strings_view(errors@) =~= strings_view(old(errors)@).push(out@));
}

/// Checks a policy source manifest: its serialized size, schema, number of
/// sources, and that every source path is portable and declared once.
pub fn validate_policy_source_manifest(manifest: &PolicySourceManifest) -> (r: Result<(), PolicyError>)
    ensures
        r is Ok <==> manifest_errors(manifest).len() == 0,
        r matches Err(e) ==> e matches PolicyError::Invalid(m) && m@ == join_lines(manifest_errors(manifest)),
{
    let mut errors: Vec<String> = Vec::new();
    let json = manifest_to_json(manifest);
    let text = encode_value(&json);
    if chars_utf8_longer_than(&text, 262144) {
        push_message(&mut errors, chars_of("$: serialized manifest exceeds the 262144-byte limit"));
    }
    if !str_eq(manifest.schema.as_str(), POLICY_SOURCE_MANIFEST_SCHEMA) {
        let mut out = chars_of("$.schema: expected ");
        crate::text::push_debug(&mut out, POLICY_SOURCE_MANIFEST_SCHEMA);
        push_str(&mut out, ", got ");
        crate::text::push_debug(&mut out, manifest.schema.as_str());
        push_message(&mut errors, out);
    }
    let n = manifest.sources.len();
    if n == 0 {
        push_message(&mut errors, chars_of("$.sources: declare at least one policy source"));
    }
    if n > MAX_POLICY_SOURCES {
        let mut out = chars_of("$.sources: ");
        crate::text::push_decimal(&mut out, n as u64);
        push_str(&mut out, " entries exceeds the 256-source limit");
        push_message(&mut errors, out);
    }
    let ghost head = strings_view(errors@);
    let mut paths = StrSet::new();
    let mut i: usize = 0;
    while i < n
        invariant
            n == manifest.sources@.len(),
            i <= n,
            strings_view(errors@) == head + source_errors(manifest.sources@, i as nat),
            forall|x: Seq<char>| #[trigger] paths.has(x) <==> exists|j: int|
                0 <= j < i && portable_path_error(#[trigger] manifest.sources@[j].path@) is None && manifest.sources@[j].path@
                    == x,
        decreases n - i,
    {
        let path = manifest.sources[i].path.as_str();
        let ghost before = paths;
        let ghost errs = strings_view(errors@);
        match validate_portable_path(path) {
            Err(message) => {
                let mut out = chars_of("$.sources[");
                crate::text::push_decimal(&mut out, i as u64);
                push_str(&mut out, "].path: ");
                push_str(&mut out, message.as_str());
                proof {
                    assert(out@ =~= source_path_message(i as nat, message@));
                }
                push_message(&mut errors, out);
            },
            Ok(()) => {
                let added = paths.insert(path.to_owned());
                if !added {
                    let mut out = chars_of("$.sources[");
                    crate::text::push_decimal(&mut out, i as u64);
                    push_str(&mut out, "].path: duplicate portable path ");
                    crate::text::push_debug(&mut out, path);
                    proof {
                        reveal_strlit("].path: duplicate portable path ");
                        reveal_strlit("].path: ");
                        reveal_strlit("duplicate portable path ");
                        assert("].path: duplicate portable path "@ =~= "].path: "@ + "duplicate portable path "@);
                        assert(out@ =~= source_path_message(i as nat, "duplicate portable path "@ + debug_text(path@)));
                    }
                    push_message(&mut errors, out);
                }
            },
        }
        proof {
            let srcs = manifest.sources@;
            assert(source_errors(srcs, (i + 1) as nat) == source_errors(srcs, i as nat) + match source_error(srcs, i as int) {
                Some(m) => seq![m],
                None => Seq::<Seq<char>>::empty(),
            });
            assert(strings_view(errors@) =~= head + source_errors(srcs, (i + 1) as nat));
            assert forall|x: Seq<char>| #[trigger] paths.has(x) <==> exists|j: int|
                0 <= j < i + 1 && portable_path_error(#[trigger] srcs[j].path@) is None && srcs[j].path@ == x by {
                if exists|j: int| 0 <= j < i + 1 && portable_path_error(#[trigger] srcs[j].path@) is None && srcs[j].path@ == x {
                    let j = choose|j: int| 0 <= j < i + 1 && portable_path_error(#[trigger] srcs[j].path@) is None && srcs[j].path@ == x;
                    if j < i {
                        assert(before.has(x));
                    }
                }
                if before.has(x) {
                    let j = choose|j: int| 0 <= j < i && portable_path_error(#[trigger] srcs[j].path@) is None && srcs[j].path@ == x;
                    assert(0 <= j < i + 1);
                }
            }
        }
        i += 1;
    }
    proof {
        let ghost srcs = manifest.sources@;
        reveal_strlit("$: serialized manifest exceeds the 262144-byte limit");
        assert(strings_view(errors@) =~= manifest_errors(manifest));
    }
    finish_validation(errors)
}


/// A byte that can continue a JSON number token: a digit, `.`, `e`, `E`, `+`, `-`.
pub open spec fn is_number_byte(x: u8) -> bool {
    (0x30 <= x <= 0x39) || x == 0x2e || x == 0x65 || x == 0x45 || x == 0x2b || x == 0x2d
}

/// Where a run of number bytes that continues at `i` ends.
pub open spec fn number_end(b: Seq<u8>, i: int) -> int
    decreases b.len() - i,
{
    if 0 <= i < b.len() && is_number_byte(b[i]) {
        number_end(b, i + 1)
    } else {
        i
    }
}

pub proof fn lemma_number_end(b: Seq<u8>, i: int)
    requires
        0 <= i,
    ensures
        i <= number_end(b, i),
        number_end(b, i) <= b.len() || number_end(b, i) == i,
    decreases b.len() - i,
{
    if 0 <= i < b.len() && is_number_byte(b[i]) {
        lemma_number_end(b, i + 1);
    }
}

/// ASCII bytes read as characters.
pub open spec fn ascii_text(b: Seq<u8>) -> Seq<char> {
    b.map_values(|x: u8| x as char)
}

/// The text serde_json prints for the number it parses from a token, or
/// `None` when it does not parse one.
pub uninterp spec fn json_number_text(token: Seq<char>) -> Option<Seq<char>>;

/// `<serde_json::Number as FromStr>::from_str` followed by its `Display`
/// text. What serde_json parses and prints is named (`json_number_text`),
/// not restated.
#[verifier::external_body]
fn canonical_json_number(token: &str) -> (r: Option<String>)
    ensures
        crate::model::opt_view(r) == json_number_text(token@),
{
    token.parse::<serde_json::Number>().ok().map(|n| n.to_string())
}

/// Scans JSON text from byte `i`, outside or inside a string: every number
/// token (a run of number bytes starting with `-` or a digit outside
/// strings) must be the text serde_json prints for the number it denotes.
/// The first offending token decides the error.
pub open spec fn number_scan(b: Seq<u8>, i: int, in_string: bool, escaped: bool) -> Result<(), Seq<char>>
    decreases b.len() - i,
{
    if i < 0 || i >= b.len() {
        Ok(())
    } else if in_string {
        if escaped {
            number_scan(b, i + 1, true, false)
        } else if b[i] == 0x5c {
            number_scan(b, i + 1, true, true)
        } else if b[i] == 0x22 {
            number_scan(b, i + 1, false, false)
        } else {
            number_scan(b, i + 1, true, false)
        }
    } else if b[i] == 0x22 {
        number_scan(b, i + 1, true, false)
    } else if b[i] != 0x2d && !(0x30 <= b[i] <= 0x39) {
        number_scan(b, i + 1, false, false)
    } else {
        let end = number_end(b, i + 1);
        let token = ascii_text(b.subrange(i, end));
        match json_number_text(token) {
            None => Err("invalid JSON number at byte "@ + decimal(i as nat)),
            Some(c) => if c != token {
                Err("non-canonical JSON number at byte "@ + decimal(i as nat))
            } else {
                proof { lemma_number_end(b, i + 1); }
                number_scan(b, end, false, false)
            },
        }
    }
}

fn token_text(b: &[u8], start: usize, end: usize) -> (s: String)
    requires
        start <= end <= b@.len(),
        forall|k: int| start <= k < end ==> is_number_byte(#[trigger] b@[k]),
    ensures
        s@ == ascii_text(b@.subrange(start as int, end as int)),
{
    let mut out: Vec<char> = Vec::new();
    let mut k = start;
    while k < end
        invariant
            start <= k <= end <= b@.len(),
            forall|q: int| start <= q < end ==> is_number_byte(#[trigger] b@[q]),
            out@ == ascii_text(b@.subrange(start as int, k as int)),
        decreases end - k,
    {
        let x = b[k];
        assert(is_number_byte(b@[k as int]));
        let c: char = if x == 0x2e {
            '.'
        } else if x == 0x65 {
            'e'
        } else if x == 0x45 {
            'E'
        } else if x == 0x2b {
            '+'
        } else if x == 0x2d {
            '-'
        } else if x == 0x30 {
            '0'
        } else if x == 0x31 {
            '1'
        } else if x == 0x32 {
            '2'
        } else if x == 0x33 {
            '3'
        } else if x == 0x34 {
            '4'
        } else if x == 0x35 {
            '5'
        } else if x == 0x36 {
            '6'
        } else if x == 0x37 {
            '7'
        } else if x == 0x38 {
            '8'
        } else {
            '9'
        };
        assert(c == x as char);
        out.push(c);
        assert(ascii_text(b@.subrange(start as int, k + 1)) =~= ascii_text(b@.subrange(start as int, k as int)).push(
            x as char,
        ));
        k += 1;
    }
    crate::text::string_from_chars(out.as_slice())
}

/// Requires every JSON number token of `text` to be already written the way
/// serde_json prints it, so that no accepted spelling changes value when
/// parsed. Strings are skipped. Meant for text that is valid JSON.
pub fn validate_canonical_json_numbers(text: &str) -> (r: Result<(), String>)
    ensures
        match number_scan(vstd::utf8::encode_utf8(text@), 0, false, false) {
            Ok(()) => r is Ok,
            Err(m) => r matches Err(e) && e@ == m,
        },
{
    let bytes = text.as_bytes();
    let ghost b = bytes@;
    let n = bytes.len();
    let mut index: usize = 0;
    let mut in_string = false;
    let mut escaped = false;
    while index < n
        invariant
            b == bytes@,
            b == vstd::utf8::encode_utf8(text@),
            n == b.len(),
            index <= n,
            !in_string ==> !escaped,
            number_scan(b, 0, false, false) == number_scan(b, index as int, in_string, escaped),
        decreases n - index,
    {
        let byte = bytes[index];
        if in_string {
            if escaped {
                escaped = false;
            } else if byte == 0x5c {
                escaped = true;
            } else if byte == 0x22 {
                in_string = false;
            }
            index += 1;
            continue;
        }
        if byte == 0x22 {
            in_string = true;
            index += 1;
            continue;
        }
        if byte != 0x2d && !(0x30 <= byte && byte <= 0x39) {
            index += 1;
            continue;
        }
        let start = index;
        assert(number_scan(b, 0, false, false) == number_scan(b, start as int, false, false));
        index += 1;
        while index < n && (0x30 <= bytes[index] && bytes[index] <= 0x39 || bytes[index] == 0x2e || bytes[index] == 0x65
            || bytes[index] == 0x45 || bytes[index] == 0x2b || bytes[index] == 0x2d)
            invariant
                b == bytes@,
                n == b.len(),
                start < index <= n,
                number_end(b, start + 1) == number_end(b, index as int),
                number_scan(b, 0, false, false) == number_scan(b, start as int, false, false),
                b[start as int] == 0x2d || (0x30 <= b[start as int] <= 0x39),
                forall|k: int| start < k < index ==> is_number_byte(#[trigger] b[k]),
            decreases n - index,
        {
            index += 1;
        }
        assert(number_end(b, index as int) == index as int);
        proof { lemma_number_end(b, start + 1); }
        let token = token_text(bytes, start + 1, index);
        let mut whole: Vec<char> = Vec::new();
        whole.push(if bytes[start] == 0x2d { '-' } else { token_digit(bytes[start]) });
        let first = crate::text::string_from_chars(whole.as_slice());
        let mut all = chars_of(first.as_str());
        push_str(&mut all, token.as_str());
        let token = crate::text::string_from_chars(all.as_slice());
        assert(token@ =~= ascii_text(b.subrange(start as int, index as int)));
        proof {
            assert(number_scan(b, start as int, false, false) == match json_number_text(token@) {
                None => Err("invalid JSON number at byte "@ + decimal(start as nat)),
                Some(c) => if c != token@ {
                    Err("non-canonical JSON number at byte "@ + decimal(start as nat))
                } else {
                    number_scan(b, index as int, false, false)
                },
            });
        }
        match canonical_json_number(token.as_str()) {
            None => {
                let mut out = chars_of("invalid JSON number at byte ");
                crate::text::push_decimal(&mut out, start as u64);
                assert(out@ =~= "invalid JSON number at byte "@ + decimal(start as nat));
                return Err(crate::text::string_from_chars(out.as_slice()));
            },
            Some(c) => {
                if !str_eq(c.as_str(), token.as_str()) {
                    let mut out = chars_of("non-canonical JSON number at byte ");
                    crate::text::push_decimal(&mut out, start as u64);
                    assert(out@ =~= "non-canonical JSON number at byte "@ + decimal(start as nat));
                    return Err(crate::text::string_from_chars(out.as_slice()));
                }
            },
        }
    }
    Ok(())
}

fn token_digit(x: u8) -> (c: char)
    requires
        0x30 <= x <= 0x39,
    ensures
        c == x as char,
{
    if x == 0x30 {
        '0'
    } else if x == 0x31 {
        '1'
    } else if x == 0x32 {
        '2'
    } else if x == 0x33 {
        '3'
    } else if x == 0x34 {
        '4'
    } else if x == 0x35 {
        '5'
    } else if x == 0x36 {
        '6'
    } else if x == 0x37 {
        '7'
    } else if x == 0x38 {
        '8'
    } else {
        '9'
    }
}


/// The message `std::str::Utf8Error` prints for bytes that are not UTF-8.
pub uninterp spec fn utf8_error_text(bytes: Seq<u8>) -> Seq<char>;

/// `std::str::from_utf8`: the text the bytes encode when they are valid
/// UTF-8, else the error's message, which is named (`utf8_error_text`).
#[verifier::external_body]
pub fn utf8_text(bytes: &[u8]) -> (r: Result<String, String>)
    ensures
        r is Ok <==> vstd::utf8::valid_utf8(bytes@),
        r matches Ok(s) ==> vstd::utf8::encode_utf8(s@) == bytes@,
        r matches Err(e) ==> e@ == utf8_error_text(bytes@),
{
    match std::str::from_utf8(bytes) {
        Ok(s) => Ok(s.to_owned()),
        Err(e) => Err(e.to_string()),
    }
}

/// Parses a policy source manifest from at most 256 KiB of UTF-8 JSON whose
/// numbers are canonical, and validates it. `decoded` is the strict typed
/// decoding of those bytes (duplicate and unknown members rejected at every
/// depth), or its error message.
pub fn parse_policy_source_manifest(bytes: &[u8], decoded: Result<PolicySourceManifest, String>) -> (r: Result<
    PolicySourceManifest,
    PolicyError,
>)
    ensures
        bytes@.len() > MAX_SOURCE_MANIFEST_BYTES ==> (r matches Err(PolicyError::InputTooLarge { limit })
            && limit == MAX_SOURCE_MANIFEST_BYTES),
        bytes@.len() <= MAX_SOURCE_MANIFEST_BYTES && !vstd::utf8::valid_utf8(bytes@) ==> (r matches Err(
            PolicyError::Utf8(m),
        ) && m@ == utf8_error_text(bytes@)),
        bytes@.len() <= MAX_SOURCE_MANIFEST_BYTES && vstd::utf8::valid_utf8(bytes@) ==> match decoded {
            Err(d) => r matches Err(PolicyError::Json(m)) && m@ == d@,
            Ok(manifest) => match number_scan(bytes@, 0, false, false) {
                Err(n) => r matches Err(PolicyError::Invalid(m)) && m@ == n,
                Ok(()) => if manifest_errors(&manifest).len() == 0 {
                    r == Ok::<PolicySourceManifest, PolicyError>(manifest)
                } else {
                    r matches Err(PolicyError::Invalid(m)) && m@ == join_lines(manifest_errors(&manifest))
                },
            },
        },
{
    if bytes.len() > MAX_SOURCE_MANIFEST_BYTES {
        return Err(PolicyError::InputTooLarge { limit: MAX_SOURCE_MANIFEST_BYTES });
    }
    let text = match utf8_text(bytes) {
        Ok(t) => t,
        Err(e) => {
            return Err(PolicyError::Utf8(e));
        },
    };
    let manifest = match decoded {
        Ok(m) => m,
        Err(e) => {
            return Err(PolicyError::Json(e));
        },
    };
    match validate_canonical_json_numbers(text.as_str()) {
        Ok(()) => {},
        Err(m) => {
            return Err(PolicyError::Invalid(m));
        },
    }
    match validate_policy_source_manifest(&manifest) {
        Ok(()) => Ok(manifest),
        Err(e) => Err(e),
    }
}

} // verus!
