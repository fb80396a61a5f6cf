use vstd::prelude::*;

pub use crate::text::strings_view;
use crate::text::push_str;

verus! {

/// A JSON value. A number is held as the text serde_json prints for it; an
/// object as its member names in the order they are written out, and the
/// member values in the same order (the builders of this crate add members in
/// the order the serialized form lists them).
#[derive(Debug)]
pub enum JsonValue {
    Null,
    Bool(bool),
    Number(String),
    String(String),
    Array(Vec<JsonValue>),
    Object(Vec<String>, Vec<JsonValue>),
}

/// The mathematical content of a `JsonValue`.
pub enum JsonV {
    Null,
    Bool(bool),
    Number(Seq<char>),
    Str(Seq<char>),
    Array(Seq<JsonV>),
    Object(Seq<Seq<char>>, Seq<JsonV>),
}

/// Element-wise view of a sequence of JSON values.
pub open spec fn json_views(v: Seq<JsonValue>) -> Seq<JsonV>
    decreases v,
{
    if v.len() == 0 {
        Seq::empty()
    } else {
        let head = match v[0] {
            JsonValue::Null => JsonV::Null,
            JsonValue::Bool(b) => JsonV::Bool(b),
            JsonValue::Number(t) => JsonV::Number(t@),
            JsonValue::String(s) => JsonV::Str(s@),
            JsonValue::Array(items) => JsonV::Array(json_views(items@)),
            JsonValue::Object(keys, values) => JsonV::Object(strings_view(keys@), json_views(values@)),
        };
        seq![head] + json_views(v.drop_first())
    }
}

impl View for JsonValue {
    type V = JsonV;

    open spec fn view(&self) -> JsonV {
        match *self {
            JsonValue::Null => JsonV::Null,
            JsonValue::Bool(b) => JsonV::Bool(b),
            JsonValue::Number(t) => JsonV::Number(t@),
            JsonValue::String(s) => JsonV::Str(s@),
            JsonValue::Array(items) => JsonV::Array(json_views(items@)),
            JsonValue::Object(keys, values) => JsonV::Object(strings_view(keys@), json_views(values@)),
        }
    }
}

pub proof fn lemma_json_views(v: Seq<JsonValue>)
    ensures
        json_views(v).len() == v.len(),
        forall|i: int| 0 <= i < v.len() ==> #[trigger] json_views(v)[i] == v[i]@,
    decreases v.len(),
{
    if v.len() > 0 {
        lemma_json_views(v.drop_first());
        assert forall|i: int| 0 <= i < v.len() implies #[trigger] json_views(v)[i] == v[i]@ by {
            if i > 0 {
                assert(json_views(v)[i] == json_views(v.drop_first())[i - 1]);
            }
        }
    }
}

pub proof fn lemma_json_views_push(s: Seq<JsonValue>, x: JsonValue)
    ensures
        json_views(s.push(x)) == json_views(s).push(x@),
{
    lemma_json_views(s);
    lemma_json_views(s.push(x));
    assert(json_views(s.push(x)) =~= json_views(s).push(x@));
}

pub proof fn lemma_take_push<T>(s: Seq<T>, i: int)
    requires
        0 <= i < s.len(),
    ensures
        s.take(i + 1) == s.take(i).push(s[i]),
{
    assert(s.take(i + 1) =~= s.take(i).push(s[i]));
}

pub proof fn lemma_strings_view_push(s: Seq<String>, x: String)
    ensures
        strings_view(s.push(x)) == strings_view(s).push(x@),
{
    assert(strings_view(s.push(x)) =~= strings_view(s).push(x@));
}

/// A lowercase hexadecimal digit.
pub open spec fn hex_digit(n: int) -> char {
    seq!['0', '1', '2', '3', '4', '5', '6', '7', '8', '9', 'a', 'b', 'c', 'd', 'e', 'f'][n]
}

/// How serde_json writes one character inside a string literal.
pub open spec fn escape_char(c: char) -> Seq<char> {
    if c == '"' {
        seq!['\\', '"']
    } else if c == '\\' {
        seq!['\\', '\\']
    } else if c == '\u{8}' {
        seq!['\\', 'b']
    } else if c == '\t' {
        seq!['\\', 't']
    } else if c == '\n' {
        seq!['\\', 'n']
    } else if c == '\u{c}' {
        seq!['\\', 'f']
    } else if c == '\r' {
        seq!['\\', 'r']
    } else if (c as int) < 0x20 {
        seq!['\\', 'u', '0', '0', hex_digit((c as int) / 16), hex_digit((c as int) % 16)]
    } else {
        seq![c]
    }
}

pub open spec fn escape_seq(s: Seq<char>) -> Seq<char>
    decreases s.len(),
{
    if s.len() == 0 {
        Seq::empty()
    } else {
        escape_seq(s.drop_last()) + escape_char(s.last())
    }
}

/// A JSON string literal for `s`, as serde_json writes it.
pub open spec fn quoted(s: Seq<char>) -> Seq<char> {
    seq!['"'] + escape_seq(s) + seq!['"']
}

/// The items joined by commas.
pub open spec fn comma_join(items: Seq<Seq<char>>) -> Seq<char>
    decreases items.len(),
{
    if items.len() == 0 {
        Seq::empty()
    } else if items.len() == 1 {
        items[0]
    } else {
        comma_join(items.drop_last()) + seq![','] + items.last()
    }
}

/// `"key":value` members.
pub open spec fn members(keys: Seq<Seq<char>>, values: Seq<Seq<char>>) -> Seq<Seq<char>> {
    Seq::new(
        if keys.len() < values.len() { keys.len() } else { values.len() },
        |i: int| quoted(keys[i]) + seq![':'] + values[i],
    )
}

/// The compact serde_json text of each value in a sequence.
pub open spec fn encode_all(vs: Seq<JsonV>) -> Seq<Seq<char>>
    decreases vs,
{
    if vs.len() == 0 {
        Seq::empty()
    } else {
        let head = match vs[0] {
            JsonV::Null => seq!['n', 'u', 'l', 'l'],
            JsonV::Bool(b) => if b {
                seq!['t', 'r', 'u', 'e']
            } else {
                seq!['f', 'a', 'l', 's', 'e']
            },
            JsonV::Number(t) => t,
            JsonV::Str(s) => quoted(s),
            JsonV::Array(items) => seq!['['] + comma_join(encode_all(items)) + seq![']'],
            JsonV::Object(keys, values) => seq!['{'] + comma_join(
                members(keys, encode_all(values)),
            ) + seq!['}'],
        };
        seq![head] + encode_all(vs.drop_first())
    }
}

/// The compact text serde_json writes for a value.
pub open spec fn encode(v: JsonV) -> Seq<char> {
    encode_all(seq![v])[0]
}

pub proof fn lemma_encode_all(vs: Seq<JsonV>)
    ensures
        encode_all(vs).len() == vs.len(),
        forall|i: int| 0 <= i < vs.len() ==> #[trigger] encode_all(vs)[i] == encode(vs[i]),
    decreases vs.len(),
{
    if vs.len() > 0 {
        lemma_encode_all(vs.drop_first());
        assert forall|i: int| 0 <= i < vs.len() implies #[trigger] encode_all(vs)[i] == encode(vs[i]) by {
            assert(seq![vs[i]].drop_first() =~= Seq::<JsonV>::empty());
            if i > 0 {
                assert(encode_all(vs)[i] == encode_all(vs.drop_first())[i - 1]);
                assert(vs.drop_first()[i - 1] == vs[i]);
            } else {
                assert(seq![vs[0]][0] == vs[0]);
            }
        }
    }
}

pub fn hex_digit_exec(n: u32) -> (c: char)
    requires
        n < 16,
    ensures
        c == hex_digit(n as int),
{
    if n < 8 {
        if n < 4 {
            if n == 0 { '0' } else if n == 1 { '1' } else if n == 2 { '2' } else { '3' }
        } else {
            if n == 4 { '4' } else if n == 5 { '5' } else if n == 6 { '6' } else { '7' }
        }
    } else {
        if n < 12 {
            if n == 8 { '8' } else if n == 9 { '9' } else if n == 10 { 'a' } else { 'b' }
        } else {
            if n == 12 { 'c' } else if n == 13 { 'd' } else if n == 14 { 'e' } else { 'f' }
        }
    }
}

/// Appends the serde_json escape of one character.
pub fn push_escaped_char(out: &mut Vec<char>, c: char)
    ensures
        final(out)@ == old(out)@ + escape_char(c),
{
    if c == '"' {
        out.push('\\');
        out.push('"');
    } else if c == '\\' {
        out.push('\\');
        out.push('\\');
    } else if c == '\u{8}' {
        out.push('\\');
        out.push('b');
    } else if c == '\t' {
        out.push('\\');
        out.push('t');
    } else if c == '\n' {
        out.push('\\');
        out.push('n');
    } else if c == '\u{c}' {
        out.push('\\');
        out.push('f');
    } else if c == '\r' {
        out.push('\\');
        out.push('r');
    } else if (c as u32) < 0x20 {
        let n = c as u32;
        out.push('\\');
        out.push('u');
        out.push('0');
        out.push('0');
        out.push(hex_digit_exec(n / 16));
        out.push(hex_digit_exec(n % 16));
    } else {
        out.push(c);
    }
    assert(out@ =~= old(out)@ + escape_char(c));
}

/// Appends `s` as a serde_json string literal.
pub fn push_quoted(out: &mut Vec<char>, s: &str)
    ensures
        final(out)@ == old(out)@ + quoted(s@),
{
    let ghost start = out@;
    out.push('"');
    for c in it: s.chars()
        invariant
            out@ == start + seq!['"'] + escape_seq(it.seq().take(it.index() as int)),
            it.seq() == s@,
    {
        push_escaped_char(out, c);
        proof {
            let t = it.seq().take(it.index() + 1);
            assert(t.drop_last() =~= it.seq().take(it.index() as int));
            assert(t.last() == c);
        }
    }
    out.push('"');
    proof {
        assert(s@.take(s@.len() as int) =~= s@);
        assert(out@ =~= start + quoted(s@));
    }
}

/// Appends the compact serde_json text of `v`.
pub fn encode_into(out: &mut Vec<char>, v: &JsonValue)
    ensures
        final(out)@ == old(out)@ + encode(v@),
    decreases v,
{
    let ghost start = out@;
    proof {
        assert(seq![v@].drop_first() =~= Seq::<JsonV>::empty());
    }
    match v {
        JsonValue::Null => {
            push_str(out, "null");
            proof { reveal_strlit("null"); }
        },
        JsonValue::Bool(b) => {
            if *b {
                push_str(out, "true");
                proof { reveal_strlit("true"); }
            } else {
                push_str(out, "false");
                proof { reveal_strlit("false"); }
            }
        },
        JsonValue::Number(t) => {
            push_str(out, t.as_str());
        },
        JsonValue::String(s) => {
            push_quoted(out, s.as_str());
        },
        JsonValue::Array(items) => {
            out.push('[');
            let ghost iv = json_views(items@);
            proof {
                lemma_json_views(items@);
                lemma_encode_all(iv);
            }
            let mut i: usize = 0;
            while i < items.len()
                invariant
                    *v == JsonValue::Array(*items),
                    i <= items@.len(),
                    iv == json_views(items@),
                    iv.len() == items@.len(),
                    forall|k: int| 0 <= k < items@.len() ==> #[trigger] iv[k] == items@[k]@,
                    encode_all(iv).len() == iv.len(),
                    forall|k: int| 0 <= k < iv.len() ==> #[trigger] encode_all(iv)[k] == encode(iv[k]),
                    out@ == start + seq!['['] + comma_join(encode_all(iv).take(i as int)),
                decreases items.len() - i,
            {
                let ghost before = out@;
                if i > 0 {
                    out.push(',');
                }
                proof {
                    assert(*items == (*v)->Array_0);
                    assert(decreases_to!(*v => (*v)->Array_0));
                    assert(decreases_to!(*items => items@));
                    assert(decreases_to!(items@ => items@[i as int]));
                }
                encode_into(out, &items[i]);
                proof {
                    let e = encode_all(iv);
                    assert(e.take(i + 1).drop_last() =~= e.take(i as int));
                    if i == 0 {
                        assert(comma_join(e.take(0)) =~= Seq::<char>::empty());
                        assert(comma_join(e.take(1)) == e.take(1)[0]);
                    }
                }
                i += 1;
            }
            out.push(']');
            proof {
                assert(encode_all(iv).take(items@.len() as int) =~= encode_all(iv));
            }
        },
        JsonValue::Object(keys, values) => {
            out.push('{');
            let ghost vv = json_views(values@);
            let ghost kv = strings_view(keys@);
            proof {
                lemma_json_views(values@);
                lemma_encode_all(vv);
            }
            let n = if keys.len() < values.len() { keys.len() } else { values.len() };
            let ghost ms = members(kv, encode_all(vv));
            let mut i: usize = 0;
            while i < n
                invariant
                    *v == JsonValue::Object(*keys, *values),
                    i <= n,
                    n == (if keys@.len() < values@.len() { keys@.len() } else { values@.len() }),
                    vv == json_views(values@),
                    kv == strings_view(keys@),
                    vv.len() == values@.len(),
                    forall|k: int| 0 <= k < values@.len() ==> #[trigger] vv[k] == values@[k]@,
                    encode_all(vv).len() == vv.len(),
                    forall|k: int| 0 <= k < vv.len() ==> #[trigger] encode_all(vv)[k] == encode(vv[k]),
                    ms == members(kv, encode_all(vv)),
                    ms.len() == n,
                    out@ == start + seq!['{'] + comma_join(ms.take(i as int)),
                decreases n - i,
            {
                if i > 0 {
                    out.push(',');
                }
                push_quoted(out, keys[i].as_str());
                out.push(':');
                proof {
                    assert(*values == (*v)->Object_1);
                    assert(decreases_to!(*v => (*v)->Object_1));
                    assert(decreases_to!(*values => values@));
                    assert(decreases_to!(values@ => values@[i as int]));
                }
                encode_into(out, &values[i]);
                proof {
                    assert(ms[i as int] == quoted(keys@[i as int]@) + seq![':'] + encode(values@[i as int]@));
                    assert(ms.take(i + 1).drop_last() =~= ms.take(i as int));
                    if i == 0 {
                        assert(comma_join(ms.take(0)) =~= Seq::<char>::empty());
                        assert(comma_join(ms.take(1)) == ms.take(1)[0]);
                    }
                }
                i += 1;
            }
            proof {
                assert(ms.take(n as int) =~= ms);
            }
            out.push('}');
        },
    }
}

/// Whether two values are the same JSON value.
pub fn json_eq(a: &JsonValue, b: &JsonValue) -> (r: bool)
    ensures
        r == (a@ == b@),
    decreases a,
{
    match (a, b) {
        (JsonValue::Null, JsonValue::Null) => true,
        (JsonValue::Bool(x), JsonValue::Bool(y)) => *x == *y,
        (JsonValue::Number(x), JsonValue::Number(y)) => crate::text::str_eq(x.as_str(), y.as_str()),
        (JsonValue::String(x), JsonValue::String(y)) => crate::text::str_eq(x.as_str(), y.as_str()),
        (JsonValue::Array(x), JsonValue::Array(y)) => {
            proof {
                lemma_json_views(x@);
                lemma_json_views(y@);
            }
            if x.len() != y.len() {
                return false;
            }
            let mut i: usize = 0;
            while i < x.len()
                invariant
                    *a == JsonValue::Array(*x),
                    *b == JsonValue::Array(*y),
                    x@.len() == y@.len(),
                    i <= x@.len(),
                    json_views(x@).len() == x@.len(),
                    json_views(y@).len() == y@.len(),
                    forall|k: int| 0 <= k < x@.len() ==> #[trigger] json_views(x@)[k] == x@[k]@,
                    forall|k: int| 0 <= k < y@.len() ==> #[trigger] json_views(y@)[k] == y@[k]@,
                    forall|k: int| 0 <= k < i ==> x@[k]@ == y@[k]@,
                decreases x.len() - i,
            {
                proof {
                    assert(*x == (*a)->Array_0);
                    assert(decreases_to!(*a => (*a)->Array_0));
                    assert(decreases_to!(*x => x@));
                    assert(decreases_to!(x@ => x@[i as int]));
                }
                if !json_eq(&x[i], &y[i]) {
                    proof {
                        assert(json_views(x@)[i as int] != json_views(y@)[i as int]);
                        assert(a@ == JsonV::Array(json_views(x@)));
                        assert(b@ == JsonV::Array(json_views(y@)));
                    }
                    return false;
                }
                i += 1;
            }
            proof {
                assert(json_views(x@) =~= json_views(y@));
            }
            true
        },
        (JsonValue::Object(xk, xv), JsonValue::Object(yk, yv)) => {
            proof {
                lemma_json_views(xv@);
                lemma_json_views(yv@);
            }
            if xk.len() != yk.len() || xv.len() != yv.len() {
                proof {
                    if xk.len() != yk.len() {
                        assert(strings_view(xk@).len() != strings_view(yk@).len());
                    }
                    assert(a@ == JsonV::Object(strings_view(xk@), json_views(xv@)));
                    assert(b@ == JsonV::Object(strings_view(yk@), json_views(yv@)));
                }
                return false;
            }
            let mut i: usize = 0;
            while i < xk.len()
                invariant
                    *a == JsonValue::Object(*xk, *xv),
                    *b == JsonValue::Object(*yk, *yv),
                    xk@.len() == yk@.len(),
                    i <= xk@.len(),
                    forall|k: int| 0 <= k < i ==> xk@[k]@ == yk@[k]@,
                decreases xk.len() - i,
            {
                if !crate::text::str_eq(xk[i].as_str(), yk[i].as_str()) {
                    proof {
                        assert(strings_view(xk@)[i as int] != strings_view(yk@)[i as int]);
                        assert(a@ == JsonV::Object(strings_view(xk@), json_views(xv@)));
                        assert(b@ == JsonV::Object(strings_view(yk@), json_views(yv@)));
                    }
                    return false;
                }
                i += 1;
            }
            proof {
                assert(strings_view(xk@) =~= strings_view(yk@));
            }
            let mut j: usize = 0;
            while j < xv.len()
                invariant
                    *a == JsonValue::Object(*xk, *xv),
                    *b == JsonValue::Object(*yk, *yv),
                    strings_view(xk@) == strings_view(yk@),
                    xv@.len() == yv@.len(),
                    j <= xv@.len(),
                    json_views(xv@).len() == xv@.len(),
                    json_views(yv@).len() == yv@.len(),
                    forall|k: int| 0 <= k < xv@.len() ==> #[trigger] json_views(xv@)[k] == xv@[k]@,
                    forall|k: int| 0 <= k < yv@.len() ==> #[trigger] json_views(yv@)[k] == yv@[k]@,
                    forall|k: int| 0 <= k < j ==> xv@[k]@ == yv@[k]@,
                decreases xv.len() - j,
            {
                proof {
                    assert(*xv == (*a)->Object_1);
                    assert(decreases_to!(*a => (*a)->Object_1));
                    assert(decreases_to!(*xv => xv@));
                    assert(decreases_to!(xv@ => xv@[j as int]));
                }
                if !json_eq(&xv[j], &yv[j]) {
                    proof {
                        assert(json_views(xv@)[j as int] != json_views(yv@)[j as int]);
                        assert(a@ == JsonV::Object(strings_view(xk@), json_views(xv@)));
                        assert(b@ == JsonV::Object(strings_view(yk@), json_views(yv@)));
                    }
                    return false;
                }
                j += 1;
            }
            proof {
                assert(json_views(xv@) =~= json_views(yv@));
            }
            true
        },
        _ => false,
    }
}

/// Builds a JSON object member by member, in the order the members are added.
pub struct ObjectBuilder {
    keys: Vec<String>,
    values: Vec<JsonValue>,
}

impl ObjectBuilder {
    pub closed spec fn key_views(&self) -> Seq<Seq<char>> {
        strings_view(self.keys@)
    }

    pub closed spec fn value_views(&self) -> Seq<JsonV> {
        json_views(self.values@)
    }

    pub fn new() -> (b: Self)
        ensures
            b.key_views() == Seq::<Seq<char>>::empty(),
            b.value_views() == Seq::<JsonV>::empty(),
    {
        let b = ObjectBuilder { keys: Vec::new(), values: Vec::new() };
        assert(strings_view(b.keys@) =~= Seq::<Seq<char>>::empty());
        b
    }

    pub fn add(&mut self, key: &str, value: JsonValue)
        ensures
            final(self).key_views() == old(self).key_views().push(key@),
            final(self).value_views() == old(self).value_views().push(value@),
    {
        proof { lemma_json_views(self.values@); }
        self.keys.push(key.to_owned());
        self.values.push(value);
        proof {
            lemma_json_views(self.values@);
            assert(strings_view(self.keys@) =~= strings_view(old(self).keys@).push(key@));
            assert(json_views(self.values@) =~= json_views(old(self).values@).push(value@));
        }
    }

    pub fn finish(self) -> (j: JsonValue)
        ensures
            j@ == JsonV::Object(self.key_views(), self.value_views()),
    {
        JsonValue::Object(self.keys, self.values)
    }
}

/// A JSON array of the given values.
pub fn array_of(values: Vec<JsonValue>) -> (j: JsonValue)
    ensures
        j@ == JsonV::Array(json_views(values@)),
{
    JsonValue::Array(values)
}

/// A JSON string holding `s`.
pub fn string_value(s: &str) -> (j: JsonValue)
    ensures
        j@ == JsonV::Str(s@),
{
    JsonValue::String(s.to_owned())
}

/// A JSON array of strings.
pub fn string_array(items: &[String]) -> (j: JsonValue)
    ensures
        j@ == JsonV::Array(strings_json(strings_view(items@))),
{
    let mut values: Vec<JsonValue> = Vec::new();
    let mut i: usize = 0;
    while i < items.len()
        invariant
            i <= items@.len(),
            json_views(values@) == strings_json(strings_view(items@.take(i as int))),
        decreases items.len() - i,
    {
        let ghost before = values@;
        let sv = string_value(items[i].as_str());
        values.push(sv);
        proof { lemma_json_views_push(before, sv); }
        proof {
            lemma_take_push(items@, i as int);
            lemma_strings_view_push(items@.take(i as int), items@[i as int]);
            assert(strings_json(strings_view(items@.take(i + 1))) =~= strings_json(strings_view(items@.take(i as int))).push(JsonV::Str(items@[i as int]@)));
        }
        i += 1;
    }
    proof {
        assert(items@.take(items@.len() as int) =~= items@);
    }
    JsonValue::Array(values)
}

/// JSON strings for each of the given texts.
pub open spec fn strings_json(s: Seq<Seq<char>>) -> Seq<JsonV> {
    s.map_values(|x: Seq<char>| JsonV::Str(x))
}

impl Clone for JsonValue {
    fn clone(&self) -> (r: Self)
        ensures
            r@ == self@,
    {
        json_clone(self)
    }
}

/// Copies a JSON value.
pub fn json_clone(v: &JsonValue) -> (r: JsonValue)
    ensures
        r@ == v@,
    decreases v,
{
    match v {
        JsonValue::Null => JsonValue::Null,
        JsonValue::Bool(b) => JsonValue::Bool(*b),
        JsonValue::Number(t) => JsonValue::Number(t.clone()),
        JsonValue::String(s) => JsonValue::String(s.clone()),
        JsonValue::Array(items) => {
            let mut out: Vec<JsonValue> = Vec::new();
            let mut i: usize = 0;
            while i < items.len()
                invariant
                    *v == JsonValue::Array(*items),
                    i <= items@.len(),
                    json_views(out@) == json_views(items@.take(i as int)),
                decreases items.len() - i,
            {
                proof {
                    assert(decreases_to!(*v => (*v)->Array_0));
                    assert(decreases_to!(*items => items@));
                    assert(decreases_to!(items@ => items@[i as int]));
                }
                let ghost before = out@;
                let c = json_clone(&items[i]);
                out.push(c);
                proof {
                    lemma_json_views_push(before, c);
                    lemma_take_push(items@, i as int);
                    lemma_json_views_push(items@.take(i as int), items@[i as int]);
                }
                i += 1;
            }
            proof {
                assert(items@.take(items@.len() as int) =~= items@);
            }
            JsonValue::Array(out)
        },
        JsonValue::Object(keys, values) => {
            let mut ks: Vec<String> = Vec::new();
            let mut i: usize = 0;
            while i < keys.len()
                invariant
                    i <= keys@.len(),
                    strings_view(ks@) == strings_view(keys@.take(i as int)),
                decreases keys.len() - i,
            {
                let ghost before = ks@;
                ks.push(keys[i].clone());
                proof {
                    lemma_strings_view_push(before, keys@[i as int]);
                    lemma_take_push(keys@, i as int);
                    lemma_strings_view_push(keys@.take(i as int), keys@[i as int]);
                }
                i += 1;
            }
            let mut out: Vec<JsonValue> = Vec::new();
            let mut j: usize = 0;
            while j < values.len()
                invariant
                    *v == JsonValue::Object(*keys, *values),
                    j <= values@.len(),
                    json_views(out@) == json_views(values@.take(j as int)),
                decreases values.len() - j,
            {
                proof {
                    assert(decreases_to!(*v => (*v)->Object_1));
                    assert(decreases_to!(*values => values@));
                    assert(decreases_to!(values@ => values@[j as int]));
                }
                let ghost before = out@;
                let c = json_clone(&values[j]);
                out.push(c);
                proof {
                    lemma_json_views_push(before, c);
                    lemma_take_push(values@, j as int);
                    lemma_json_views_push(values@.take(j as int), values@[j as int]);
                }
                j += 1;
            }
            proof {
                assert(keys@.take(keys@.len() as int) =~= keys@);
                assert(values@.take(values@.len() as int) =~= values@);
            }
            JsonValue::Object(ks, out)
        },
    }
}

/// Copies a sequence of JSON values.
pub fn json_vec_clone(v: &Vec<JsonValue>) -> (r: Vec<JsonValue>)
    ensures
        json_views(r@) == json_views(v@),
{
    let mut out: Vec<JsonValue> = Vec::new();
    let mut i: usize = 0;
    while i < v.len()
        invariant
            i <= v@.len(),
            json_views(out@) == json_views(v@.take(i as int)),
        decreases v.len() - i,
    {
        let ghost before = out@;
        let c = json_clone(&v[i]);
        out.push(c);
        proof {
            lemma_json_views_push(before, c);
            lemma_take_push(v@, i as int);
            lemma_json_views_push(v@.take(i as int), v@[i as int]);
        }
        i += 1;
    }
    proof {
        assert(v@.take(v@.len() as int) =~= v@);
    }
    out
}

/// Encodes a value as compact serde_json text.
pub fn encode_value(v: &JsonValue) -> (s: Vec<char>)
    ensures
        s@ == encode(v@),
{
    let mut out: Vec<char> = Vec::new();
    encode_into(&mut out, v);
    assert(out@ =~= encode(v@));
    out
}

} // verus!
