//! JSON documents as plain values, for the site logic that reads them.

use vstd::prelude::*;
use crate::text::{chars_of, same};

verus! {

/// A JSON number: its text, and its value when it is an unsigned integer that fits
/// `u64`.
#[derive(Debug, Clone, PartialEq, Eq)]
pub struct JsonNumber {
    pub text: String,
    pub as_u64: Option<u64>,
}

/// A parsed JSON value. Object members keep the order the parser gave them; keys are
/// distinct.
#[derive(Debug)]
pub enum JsonValue {
    Null,
    Bool(bool),
    Number(JsonNumber),
    Str(String),
    Array(Vec<JsonValue>),
    Object(Vec<(String, JsonValue)>),
}

/// The value of the first member of `entries` named `key`.
pub open spec fn member(entries: Seq<(String, JsonValue)>, key: Seq<char>) -> Option<JsonValue>
    decreases entries.len(),
{
    if entries.len() == 0 {
        None
    } else if entries[0].0@ == key {
        Some(entries[0].1)
    } else {
        member(entries.drop_first(), key)
    }
}

/// `Value::get(key)`: the member `key` of an object; nothing for other values.
pub open spec fn jget(v: JsonValue, key: Seq<char>) -> Option<JsonValue> {
    match v {
        JsonValue::Object(entries) => member(entries@, key),
        _ => None,
    }
}

/// `Value::get` of `key`, then of `key2` (a two-step JSON pointer through objects).
pub open spec fn jget2(v: JsonValue, key: Seq<char>, key2: Seq<char>) -> Option<JsonValue> {
    match jget(v, key) {
        Some(x) => jget(x, key2),
        None => None,
    }
}

/// `Value::as_str`.
pub open spec fn jstr(v: Option<JsonValue>) -> Option<Seq<char>> {
    match v {
        Some(JsonValue::Str(s)) => Some(s@),
        _ => None,
    }
}

/// `Value::as_bool`.
pub open spec fn jbool(v: Option<JsonValue>) -> Option<bool> {
    match v {
        Some(JsonValue::Bool(b)) => Some(b),
        _ => None,
    }
}

pub open spec fn opt_ref(r: Option<&JsonValue>) -> Option<JsonValue> {
    match r {
        Some(x) => Some(*x),
        None => None,
    }
}

impl JsonValue {
    /// The member `key` of an object.
    pub fn get(&self, key: &str) -> (r: Option<&JsonValue>)
        ensures
            opt_ref(r) == jget(*self, key@),
    {
        match self {
            JsonValue::Object(entries) => {
                let k = chars_of(key);
                let mut i: usize = 0;
                assert(entries@.subrange(0, entries@.len() as int) =~= entries@);
                while i < entries.len()
                    invariant
                        i <= entries@.len(),
                        k@ == key@,
                        jget(*self, key@) == member(entries@, key@),
                        member(entries@, key@) == member(
                            entries@.subrange(i as int, entries@.len() as int),
                            key@,
                        ),
                    decreases entries@.len() - i,
                {
                    let ghost rest = entries@.subrange(i as int, entries@.len() as int);
                    assert(rest.drop_first() =~= entries@.subrange(i + 1, entries@.len() as int));
                    assert(rest[0] == entries@[i as int]);
                    assert(rest.len() > 0);
                    if same(&chars_of(entries[i].0.as_str()), &k) {
                        return Some(&entries[i].1);
                    }
                    i = i + 1;
                }
                assert(entries@.subrange(i as int, entries@.len() as int).len() == 0);
                None
            },
            _ => None,
        }
    }

    /// The text of a string value.
    pub fn as_str(&self) -> (r: Option<&str>)
        ensures
            crate::extract::html::opt_str_view(r) == jstr(Some(*self)),
    {
        match self {
            JsonValue::Str(s) => Some(s.as_str()),
            _ => None,
        }
    }

    /// The value of a boolean.
    pub fn as_bool(&self) -> (r: Option<bool>)
        ensures
            r == jbool(Some(*self)),
    {
        match self {
            JsonValue::Bool(b) => Some(*b),
            _ => None,
        }
    }
}

/// `v.get(key).and_then(Value::as_str)`.
pub fn get_str<'a>(v: &'a JsonValue, key: &str) -> (r: Option<&'a str>)
    ensures
        crate::extract::html::opt_str_view(r) == jstr(jget(*v, key@)),
{
    match v.get(key) {
        Some(x) => x.as_str(),
        None => None,
    }
}

/// `v.get(key).and_then(Value::as_bool)`.
pub fn get_bool(v: &JsonValue, key: &str) -> (r: Option<bool>)
    ensures
        r == jbool(jget(*v, key@)),
{
    match v.get(key) {
        Some(x) => x.as_bool(),
        None => None,
    }
}

/// `v.get(key)` then `.get(key2)`.
pub fn get2<'a>(v: &'a JsonValue, key: &str, key2: &str) -> (r: Option<&'a JsonValue>)
    ensures
        opt_ref(r) == jget2(*v, key@, key2@),
{
    match v.get(key) {
        Some(x) => x.get(key2),
        None => None,
    }
}

/// serde's `Option<u32>` read from a field that may be missing: missing or `null` is
/// `None`; an integer that fits `u32` is its value; anything else fails (outer `None`).
pub open spec fn de_opt_u32(v: Option<JsonValue>) -> Option<Option<u32>> {
    match v {
        None => Some(None),
        Some(JsonValue::Null) => Some(None),
        Some(JsonValue::Number(n)) => match n.as_u64 {
            Some(x) => if x <= u32::MAX {
                Some(Some(x as u32))
            } else {
                None
            },
            None => None,
        },
        _ => None,
    }
}

/// serde's `Option<u64>` read from a field that may be missing.
pub open spec fn de_opt_u64(v: Option<JsonValue>) -> Option<Option<u64>> {
    match v {
        None => Some(None),
        Some(JsonValue::Null) => Some(None),
        Some(JsonValue::Number(n)) => match n.as_u64 {
            Some(x) => Some(Some(x)),
            None => None,
        },
        _ => None,
    }
}

/// serde's `Option<String>` read from a field that may be missing.
pub open spec fn de_opt_string(v: Option<JsonValue>) -> Option<Option<Seq<char>>> {
    match v {
        None => Some(None),
        Some(JsonValue::Null) => Some(None),
        Some(JsonValue::Str(s)) => Some(Some(s@)),
        _ => None,
    }
}

/// serde's `Option<bool>` read from a field that may be missing.
pub open spec fn de_opt_bool(v: Option<JsonValue>) -> Option<Option<bool>> {
    match v {
        None => Some(None),
        Some(JsonValue::Null) => Some(None),
        Some(JsonValue::Bool(b)) => Some(Some(b)),
        _ => None,
    }
}

/// serde's `String` read from a required field: a missing field or a non-string fails.
pub open spec fn de_string(v: Option<JsonValue>) -> Option<Seq<char>> {
    match v {
        Some(JsonValue::Str(s)) => Some(s@),
        _ => None,
    }
}

pub fn decode_opt_u32(v: Option<&JsonValue>) -> (r: Option<Option<u32>>)
    ensures
        r == de_opt_u32(opt_ref(v)),
{
    match v {
        None => Some(None),
        Some(JsonValue::Null) => Some(None),
        Some(JsonValue::Number(n)) => match n.as_u64 {
            Some(x) => if x <= 4294967295u64 {
                Some(Some(x as u32))
            } else {
                None
            },
            None => None,
        },
        _ => None,
    }
}

pub fn decode_opt_u64(v: Option<&JsonValue>) -> (r: Option<Option<u64>>)
    ensures
        r == de_opt_u64(opt_ref(v)),
{
    match v {
        None => Some(None),
        Some(JsonValue::Null) => Some(None),
        Some(JsonValue::Number(n)) => match n.as_u64 {
            Some(x) => Some(Some(x)),
            None => None,
        },
        _ => None,
    }
}

pub fn decode_opt_string(v: Option<&JsonValue>) -> (r: Option<Option<String>>)
    ensures
        match de_opt_string(opt_ref(v)) {
            Some(Some(s)) => r matches Some(Some(t)) && t@ == s,
            Some(None) => r == Some(None::<String>),
            None => r is None,
        },
{
    match v {
        None => Some(None),
        Some(JsonValue::Null) => Some(None),
        Some(JsonValue::Str(s)) => Some(Some(crate::model::copy_string(s))),
        _ => None,
    }
}

pub fn decode_opt_bool(v: Option<&JsonValue>) -> (r: Option<Option<bool>>)
    ensures
        r == de_opt_bool(opt_ref(v)),
{
    match v {
        None => Some(None),
        Some(JsonValue::Null) => Some(None),
        Some(JsonValue::Bool(b)) => Some(Some(*b)),
        _ => None,
    }
}

pub fn decode_string(v: Option<&JsonValue>) -> (r: Option<String>)
    ensures
        match de_string(opt_ref(v)) {
            Some(s) => r matches Some(t) && t@ == s,
            None => r is None,
        },
{
    match v {
        Some(JsonValue::Str(s)) => Some(crate::model::copy_string(s)),
        _ => None,
    }
}

/// serde reads a struct of `n` fields from an object (fields by name) or from an array of
/// exactly `n` items (fields in order); from nothing else.
pub open spec fn struct_shape(e: JsonValue, n: nat) -> bool {
    match e {
        JsonValue::Object(_) => true,
        JsonValue::Array(a) => a@.len() == n,
        _ => false,
    }
}

/// The field named `key`, the `idx`-th in declaration order, of a struct-shaped value.
pub open spec fn field_at(e: JsonValue, key: Seq<char>, idx: int) -> Option<JsonValue> {
    match e {
        JsonValue::Object(m) => member(m@, key),
        JsonValue::Array(a) => if 0 <= idx < a@.len() {
            Some(a@[idx])
        } else {
            None
        },
        _ => None,
    }
}

pub fn is_struct_shape(e: &JsonValue, n: usize) -> (r: bool)
    ensures
        r == struct_shape(*e, n as nat),
{
    match e {
        JsonValue::Object(_) => true,
        JsonValue::Array(a) => a.len() == n,
        _ => false,
    }
}

pub fn struct_field<'a>(e: &'a JsonValue, key: &str, idx: usize) -> (r: Option<&'a JsonValue>)
    ensures
        opt_ref(r) == field_at(*e, key@, idx as int),
{
    match e {
        JsonValue::Array(a) => if idx < a.len() {
            Some(&a[idx])
        } else {
            None
        },
        _ => e.get(key),
    }
}

/// A lowercase hexadecimal digit.
pub open spec fn hex_digit(d: nat) -> char {
    if d < 10 {
        (('0' as u32) + d) as char
    } else {
        (('a' as u32) + d - 10) as char
    }
}

/// How the compact JSON writer writes one character of a string: `"` and `\` and the
/// control characters escaped (`\b \t \n \f \r`, else `\u00XX` in lowercase hex), the
/// rest as is.
pub open spec fn escape_char(c: char) -> Seq<char> {
    if c == '"' {
        seq!['\\', '"']
    } else if c == '\\' {
        seq!['\\', '\\']
    } else if c == '\u{8}' {
        seq!['\\', 'b']
    } else if c == '\t' {
        seq!['\\', 't']
    } else if c == '\n' {
        seq!['\\', 'n']
    } else if c == '\u{c}' {
        seq!['\\', 'f']
    } else if c == '\r' {
        seq!['\\', 'r']
    } else if (c as u32) < 0x20 {
        seq!['\\', 'u', '0', '0', hex_digit((c as u32 / 16) as nat), hex_digit((c as u32 % 16) as nat)]
    } else {
        seq![c]
    }
}

pub open spec fn escaped(s: Seq<char>) -> Seq<char>
    decreases s.len(),
{
    if s.len() == 0 {
        Seq::empty()
    } else {
        escaped(s.drop_last()) + escape_char(s.last())
    }
}

/// A JSON string literal.
pub open spec fn quoted(s: Seq<char>) -> Seq<char> {
    seq!['"'] + escaped(s) + seq!['"']
}

/// The compact JSON text of a value: no spaces, items and members separated by commas,
/// numbers as their text, strings quoted with the escapes of `escape_char`.
pub open spec fn json_text(v: JsonValue) -> Seq<char>
    decreases v,
{
    match v {
        JsonValue::Null => "null"@,
        JsonValue::Bool(b) => if b {
            "true"@
        } else {
            "false"@
        },
        JsonValue::Number(n) => n.text@,
        JsonValue::Str(s) => quoted(s@),
        JsonValue::Array(a) => seq!['['] + items_text(a@) + seq![']'],
        JsonValue::Object(m) => seq!['{'] + members_text(m@) + seq!['}'],
    }
}

pub open spec fn items_text(s: Seq<JsonValue>) -> Seq<char>
    decreases s,
{
    if s.len() == 0 {
        Seq::empty()
    } else if s.len() == 1 {
        json_text(s[0])
    } else {
        items_text(s.drop_last()) + seq![','] + json_text(s.last())
    }
}

pub open spec fn member_text(m: (String, JsonValue)) -> Seq<char>
    decreases m,
{
    quoted(m.0@) + seq![':'] + json_text(m.1)
}

pub open spec fn members_text(m: Seq<(String, JsonValue)>) -> Seq<char>
    decreases m,
{
    if m.len() == 0 {
        Seq::empty()
    } else if m.len() == 1 {
        member_text(m[0])
    } else {
        members_text(m.drop_last()) + seq![','] + member_text(m.last())
    }
}

fn push_hex(out: &mut Vec<char>, d: u32)
    requires
        d < 16,
    ensures
        final(out)@ == old(out)@.push(hex_digit(d as nat)),
{
    let c: char = if d < 10 {
        ((48 + d) as u8) as char
    } else {
        ((87 + d) as u8) as char
    };
    assert(c == hex_digit(d as nat)) by {
        assert(('0' as u32) == 48);
        assert(('a' as u32) == 97);
    }
    out.push(c);
}

/// Append the JSON string literal of `s`.
pub fn push_quoted(out: &mut Vec<char>, s: &str)
    ensures
        final(out)@ == old(out)@ + quoted(s@),
{
    let v = crate::text::chars_of(s);
    out.push('"');
    let ghost start = out@;
    let mut i: usize = 0;
    while i < v.len()
        invariant
            i <= v@.len(),
            out@ == start + escaped(v@.subrange(0, i as int)),
        decreases v@.len() - i,
    {
        let c = v[i];
        assert(v@.subrange(0, i + 1).drop_last() =~= v@.subrange(0, i as int));
        let ghost before = out@;
        if c == '"' {
            out.push('\\');
            out.push('"');
        } else if c == '\\' {
            out.push('\\');
            out.push('\\');
        } else if c == '\u{8}' {
            out.push('\\');
            out.push('b');
        } else if c == '\t' {
            out.push('\\');
            out.push('t');
        } else if c == '\n' {
            out.push('\\');
            out.push('n');
        } else if c == '\u{c}' {
            out.push('\\');
            out.push('f');
        } else if c == '\r' {
            out.push('\\');
            out.push('r');
        } else if (c as u32) < 32 {
            out.push('\\');
            out.push('u');
            out.push('0');
            out.push('0');
            push_hex(out, (c as u32) / 16);
            push_hex(out, (c as u32) % 16);
        } else {
            out.push(c);
        }
        assert(out@ =~= before + escape_char(c));
        i = i + 1;
    }
    assert(v@.subrange(0, v@.len() as int) =~= v@);
    out.push('"');
    assert(out@ =~= old(out)@ + quoted(s@));
}

/// Append the compact JSON text of `v`.
pub fn push_json(out: &mut Vec<char>, v: &JsonValue)
    ensures
        final(out)@ == old(out)@ + json_text(*v),
    decreases *v,
{
    match v {
        JsonValue::Null => crate::text::push_str(out, "null"),
        JsonValue::Bool(b) => if *b {
            crate::text::push_str(out, "true")
        } else {
            crate::text::push_str(out, "false")
        },
        JsonValue::Number(n) => crate::text::push_str(out, n.text.as_str()),
        JsonValue::Str(s) => push_quoted(out, s.as_str()),
        JsonValue::Array(a) => {
            out.push('[');
            let ghost start = out@;
            let mut i: usize = 0;
            while i < a.len()
                invariant
                    i <= a@.len(),
                    *v == JsonValue::Array(*a),
                    out@ == start + items_text(a@.subrange(0, i as int)),
                decreases a@.len() - i,
            {
                let ghost before = out@;
                if i > 0 {
                    out.push(',');
                }
                proof {
                    let vv = *v;
                    assert(vv->Array_0 == *a);
                    assert(decreases_to!(vv => vv->Array_0));
                    assert(decreases_to!(*a => a@));
                    assert(decreases_to!(a@ => a@[i as int]));
                    assert(decreases_to!(*v => a@[i as int]));
                }
                push_json(out, &a[i]);
                let ghost next = a@.subrange(0, i + 1);
                assert(next.drop_last() =~= a@.subrange(0, i as int));
                assert(next.last() == a@[i as int]);
                if i == 0 {
                    assert(out@ =~= start + items_text(next));
                } else {
                    assert(out@ =~= start + items_text(next));
                }
                i = i + 1;
            }
            assert(a@.subrange(0, a@.len() as int) =~= a@);
            out.push(']');
            assert(out@ =~= old(out)@ + json_text(*v));
        },
        JsonValue::Object(m) => {
            out.push('{');
            let ghost start = out@;
            let mut i: usize = 0;
            while i < m.len()
                invariant
                    i <= m@.len(),
                    *v == JsonValue::Object(*m),
                    out@ == start + members_text(m@.subrange(0, i as int)),
                decreases m@.len() - i,
            {
                if i > 0 {
                    out.push(',');
                }
                push_quoted(out, m[i].0.as_str());
                out.push(':');
                proof {
                    let vv = *v;
                    assert(vv->Object_0 == *m);
                    assert(decreases_to!(vv => vv->Object_0));
                    assert(decreases_to!(*m => m@));
                    assert(decreases_to!(m@ => m@[i as int]));
                    assert(decreases_to!(m@[i as int] => m@[i as int].1));
                    assert(decreases_to!(*v => m@[i as int].1));
                }
                let ghost before_val = out@;
                push_json(out, &m[i].1);
                let ghost next = m@.subrange(0, i + 1);
                assert(next.drop_last() =~= m@.subrange(0, i as int));
                assert(next.last() == m@[i as int]);
                assert(member_text(m@[i as int]) == quoted(m@[i as int].0@) + seq![':'] + json_text(m@[i as int].1));
                assert(out@ =~= start + members_text(next));
                i = i + 1;
            }
            assert(m@.subrange(0, m@.len() as int) =~= m@);
            out.push('}');
            assert(out@ =~= old(out)@ + json_text(*v));
        },
    }
}

} // verus!
