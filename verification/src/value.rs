//! The value model the matching engine walks: a sum over null, booleans,
//! integers, decimals, strings, byte data, lists and maps. Integers carry the
//! numeric value; decimals carry their canonical decimal text, which stands
//! for the floating-point value one for one.

use vstd::prelude::*;

use crate::numbers::dec_int;
use crate::numbers::digit_char;
use crate::strings::cat3;
use crate::strings::chars_to_string;
use crate::strings::str_to_chars;

verus! {

/// A structured value under match: the shape of a JSON document, extended
/// with a byte-data kind for binary payloads.
#[derive(Debug)]
pub enum Value {
    /// The null sentinel.
    Null,
    /// A boolean.
    Bool(bool),
    /// An integer number.
    Integer(i128),
    /// A decimal number, held as its canonical decimal text.
    Decimal(String),
    /// A string.
    Str(String),
    /// Raw byte data.
    Bytes(Vec<u8>),
    /// An ordered list of values.
    Array(Vec<Value>),
    /// A map from keys to values, in document order.
    Object(Vec<(String, Value)>),
}

/// Structural equality of two values; strings compare by their characters,
/// maps by their entry lists in order.
pub open spec fn value_eq(a: Value, b: Value) -> bool
    decreases a,
{
    match (a, b) {
        (Value::Null, Value::Null) => true,
        (Value::Bool(x), Value::Bool(y)) => x == y,
        (Value::Integer(x), Value::Integer(y)) => x == y,
        (Value::Decimal(x), Value::Decimal(y)) => x@ == y@,
        (Value::Str(x), Value::Str(y)) => x@ == y@,
        (Value::Bytes(x), Value::Bytes(y)) => x@ == y@,
        (Value::Array(x), Value::Array(y)) => seq_value_eq(x@, y@, 0),
        (Value::Object(x), Value::Object(y)) => obj_value_eq(x@, y@, 0),
        _ => false,
    }
}

/// Elementwise equality of two value lists from index `i` on.
pub open spec fn seq_value_eq(x: Seq<Value>, y: Seq<Value>, i: int) -> bool
    decreases x, x.len() - i,
{
    if x.len() != y.len() {
        false
    } else if i < 0 || i >= x.len() {
        true
    } else {
        value_eq(x[i], y[i]) && seq_value_eq(x, y, i + 1)
    }
}

/// Entrywise equality of two key-value lists from index `i` on.
pub open spec fn obj_value_eq(x: Seq<(String, Value)>, y: Seq<(String, Value)>, i: int) -> bool
    decreases x, x.len() - i,
{
    if x.len() != y.len() {
        false
    } else if i < 0 || i >= x.len() {
        true
    } else {
        x[i].0@ == y[i].0@ && value_eq(x[i].1, y[i].1) && obj_value_eq(x, y, i + 1)
    }
}

fn eq_value_vecs(x: &Vec<Value>, y: &Vec<Value>, i: usize) -> (r: bool)
    requires
        i <= x@.len(),
    ensures
        r == seq_value_eq(x@, y@, i as int),
    decreases x@, 0int, x@.len() - i,
{
    if x.len() != y.len() {
        false
    } else if i >= x.len() {
        true
    } else {
        proof {
            assert(decreases_to!(x@ => x@[i as int]));
        }
        if x[i].equals(&y[i]) {
            eq_value_vecs(x, y, i + 1)
        } else {
            false
        }
    }
}

fn eq_entry_vecs(x: &Vec<(String, Value)>, y: &Vec<(String, Value)>, i: usize) -> (r: bool)
    requires
        i <= x@.len(),
    ensures
        r == obj_value_eq(x@, y@, i as int),
    decreases x@, 0int, x@.len() - i,
{
    if x.len() != y.len() {
        false
    } else if i >= x.len() {
        true
    } else {
        proof {
            assert(decreases_to!(x@ => x@[i as int]));
        }
        if crate::strings::str_eq(x[i].0.as_str(), y[i].0.as_str()) && x[i].1.equals(&y[i].1) {
            eq_entry_vecs(x, y, i + 1)
        } else {
            false
        }
    }
}

/// The escape sequence a character takes inside a JSON string: quotes and
/// backslashes are escaped, control characters take their short escapes or a
/// `\u00..` form, and everything else stands for itself.
pub open spec fn esc_char(c: char) -> Seq<char> {
    if c == '"' {
        seq!['\\', '"']
    } else if c == '\\' {
        seq!['\\', '\\']
    } else if c == '\u{8}' {
        seq!['\\', 'b']
    } else if c == '\t' {
        seq!['\\', 't']
    } else if c == '\n' {
        seq!['\\', 'n']
    } else if c == '\u{c}' {
        seq!['\\', 'f']
    } else if c == '\r' {
        seq!['\\', 'r']
    } else if (c as u32) < 32 {
        seq!['\\', 'u', '0', '0', hex_char((c as u32 / 16) as int), hex_char((c as u32 % 16) as int)]
    } else {
        seq![c]
    }
}

/// The character for one hexadecimal digit, lower case.
pub open spec fn hex_char(d: int) -> char {
    if d < 10 {
        digit_char(d)
    } else {
        ((87 + d) as u8) as char
    }
}

/// A string's characters with every character escaped for JSON.
pub open spec fn escaped(s: Seq<char>) -> Seq<char>
    decreases s.len(),
{
    if s.len() == 0 {
        Seq::empty()
    } else {
        esc_char(s[0]) + escaped(s.subrange(1, s.len() as int))
    }
}

fn hex_char_of(d: u32) -> (r: char)
    requires
        d < 16,
    ensures
        r == hex_char(d as int),
{
    if d < 10 {
        ((48 + d) as u8) as char
    } else {
        ((87 + d) as u8) as char
    }
}

fn push_esc_char(out: &mut Vec<char>, c: char)
    ensures
        final(out)@ == old(out)@ + esc_char(c),
{
    if c == '"' {
        out.push('\\');
        out.push('"');
    } else if c == '\\' {
        out.push('\\');
        out.push('\\');
    } else if c == '\u{8}' {
        out.push('\\');
        out.push('b');
    } else if c == '\t' {
        out.push('\\');
        out.push('t');
    } else if c == '\n' {
        out.push('\\');
        out.push('n');
    } else if c == '\u{c}' {
        out.push('\\');
        out.push('f');
    } else if c == '\r' {
        out.push('\\');
        out.push('r');
    } else if (c as u32) < 32 {
        out.push('\\');
        out.push('u');
        out.push('0');
        out.push('0');
        out.push(hex_char_of((c as u32) / 16));
        out.push(hex_char_of((c as u32) % 16));
    } else {
        out.push(c);
    }
    proof {
        assert(final(out)@ =~= old(out)@ + esc_char(c));
    }
}

/// The characters of `s` escaped for a JSON string literal.
pub fn escape_chars(s: &str) -> (r: Vec<char>)
    ensures
        r@ == escaped(s@),
{
    let v = str_to_chars(s);
    let mut out: Vec<char> = Vec::new();
    let mut i: usize = 0;
    while i < v.len()
        invariant
            v@ == s@,
            i <= v@.len(),
            out@ == escaped(v@.subrange(0, i as int)),
        decreases v@.len() - i,
    {
        push_esc_char(&mut out, v[i]);
        i += 1;
        proof {
            lemma_escaped_step(v@, i as int);
        }
    }
    proof {
        assert(v@.subrange(0, v@.len() as int) =~= v@);
    }
    out
}

proof fn lemma_escaped_step(s: Seq<char>, i: int)
    requires
        1 <= i <= s.len(),
    ensures
        escaped(s.subrange(0, i)) == escaped(s.subrange(0, i - 1)) + esc_char(s[i - 1]),
    decreases i,
{
    if i == 1 {
        let one = s.subrange(0, 1);
        assert(one.subrange(1, 1) =~= Seq::<char>::empty());
        assert(escaped(one) == esc_char(s[0]) + escaped(one.subrange(1, 1)));
        assert(escaped(s.subrange(0, 0)) =~= Seq::<char>::empty());
        assert(esc_char(s[0]) + Seq::<char>::empty() =~= esc_char(s[0]));
        assert(Seq::<char>::empty() + esc_char(s[0]) =~= esc_char(s[0]));
    } else {
        let t = s.subrange(1, s.len() as int);
        lemma_escaped_step(t, i - 1);
        assert(s.subrange(0, i).subrange(1, i) =~= t.subrange(0, i - 1));
        assert(s.subrange(0, i - 1).subrange(1, i - 1) =~= t.subrange(0, i - 2));
        assert(s.subrange(0, i)[0] == s[0]);
        assert(s.subrange(0, i - 1)[0] == s[0]);
        assert(t[i - 2] == s[i - 1]);
        assert(escaped(s.subrange(0, i)) == esc_char(s[0]) + escaped(t.subrange(0, i - 1)));
        assert(escaped(s.subrange(0, i - 1)) == esc_char(s[0]) + escaped(t.subrange(0, i - 2)));
        assert((esc_char(s[0]) + (escaped(t.subrange(0, i - 2)) + esc_char(t[i - 2]))) =~= (
        esc_char(s[0]) + escaped(t.subrange(0, i - 2))) + esc_char(s[i - 1]));
    }
}

/// The compact JSON text of a value: no spaces, object entries and list
/// items joined with commas, strings quoted and escaped, byte data rendered
/// as a list of byte values.
pub open spec fn json_txt(v: Value) -> Seq<char>
    decreases v, 0int,
{
    match v {
        Value::Null => "null"@,
        Value::Bool(b) => if b {
            "true"@
        } else {
            "false"@
        },
        Value::Integer(i) => dec_int(i as int),
        Value::Decimal(s) => s@,
        Value::Str(s) => seq!['"'] + escaped(s@) + seq!['"'],
        Value::Bytes(b) => seq!['['] + bytes_txt(b@, 0) + seq![']'],
        Value::Array(items) => seq!['['] + arr_txt(items@, 0) + seq![']'],
        Value::Object(entries) => seq!['{'] + obj_txt(entries@, 0) + seq!['}'],
    }
}

/// The comma-separated JSON texts of the list items from index `i` on.
pub open spec fn arr_txt(items: Seq<Value>, i: int) -> Seq<char>
    decreases items, items.len() - i, 1int,
{
    if i < 0 || i >= items.len() {
        Seq::empty()
    } else if i == items.len() - 1 {
        json_txt(items[i])
    } else {
        json_txt(items[i]) + seq![','] + arr_txt(items, i + 1)
    }
}

/// The comma-separated `"key":value` texts of the map entries from `i` on.
pub open spec fn obj_txt(entries: Seq<(String, Value)>, i: int) -> Seq<char>
    decreases entries, entries.len() - i, 1int,
{
    if i < 0 || i >= entries.len() {
        Seq::empty()
    } else {
        let one = seq!['"'] + escaped(entries[i].0@) + seq!['"', ':'] + json_txt(entries[i].1);
        if i == entries.len() - 1 {
            one
        } else {
            one + seq![','] + obj_txt(entries, i + 1)
        }
    }
}

/// The comma-separated decimal byte values from index `i` on.
pub open spec fn bytes_txt(b: Seq<u8>, i: int) -> Seq<char>
    decreases b.len() - i,
{
    if i < 0 || i >= b.len() {
        Seq::empty()
    } else if i == b.len() - 1 {
        dec_int(b[i] as int)
    } else {
        dec_int(b[i] as int) + seq![','] + bytes_txt(b, i + 1)
    }
}

/// The plain display of a value, as diagnostics quote it: a string gives its
/// raw characters, everything else its compact JSON text.
pub open spec fn display_txt(v: Value) -> Seq<char> {
    match v {
        Value::Str(s) => s@,
        _ => json_txt(v),
    }
}

impl Value {
    /// Structural equality with another value (see [`value_eq`]).
    pub fn equals(&self, other: &Value) -> (r: bool)
        ensures
            r == value_eq(*self, *other),
        decreases self, 1int, 0int,
    {
        match (self, other) {
            (Value::Null, Value::Null) => true,
            (Value::Bool(x), Value::Bool(y)) => *x == *y,
            (Value::Integer(x), Value::Integer(y)) => *x == *y,
            (Value::Decimal(x), Value::Decimal(y)) => x.eq(y),
            (Value::Str(x), Value::Str(y)) => x.eq(y),
            (Value::Bytes(x), Value::Bytes(y)) => eq_bytes(x, y),
            (Value::Array(x), Value::Array(y)) => eq_value_vecs_outer(self, other, x, y),
            (Value::Object(x), Value::Object(y)) => eq_entry_vecs_outer(self, other, x, y),
            _ => false,
        }
    }

    /// The kind of the value, as diagnostics name it.
    pub fn type_of(&self) -> (r: String)
        ensures
            r@ == spec_type_of(*self),
    {
        match self {
            Value::Object(_) => String::from_str("Map"),
            Value::Array(_) => String::from_str("List"),
            Value::Null => String::from_str("Null"),
            Value::Bool(_) => String::from_str("Boolean"),
            Value::Integer(_) => String::from_str("Number"),
            Value::Decimal(_) => String::from_str("Number"),
            Value::Str(_) => String::from_str("String"),
            Value::Bytes(_) => String::from_str("Data"),
        }
    }

    /// The compact JSON text of the value (see [`json_txt`]).
    pub fn to_json_str(&self) -> (r: String)
        ensures
            r@ == json_txt(*self),
        decreases self, 1int, 0int,
    {
        match self {
            Value::Null => String::from_str("null"),
            Value::Bool(b) => if *b {
                String::from_str("true")
            } else {
                String::from_str("false")
            },
            Value::Integer(i) => crate::numbers::i128_to_string(*i),
            Value::Decimal(s) => s.clone(),
            Value::Str(s) => {
                let esc = escape_chars(s.as_str());
                let body = chars_to_string(&esc);
                let r = cat3("\"", body.as_str(), "\"");
                proof {
                    reveal_strlit("\"");
                    assert("\""@ =~= seq!['"']);
                    assert(r@ =~= seq!['"'] + escaped(s@) + seq!['"']);
                }
                r
            },
            Value::Bytes(b) => {
                let body = bytes_txt_exec(b, 0);
                let r = cat3("[", body.as_str(), "]");
                proof {
                    reveal_strlit("[");
                    reveal_strlit("]");
                    assert(r@ =~= seq!['['] + bytes_txt(b@, 0) + seq![']']);
                }
                r
            },
            Value::Array(items) => {
                let body = arr_txt_exec(self, items, 0);
                let r = cat3("[", body.as_str(), "]");
                proof {
                    reveal_strlit("[");
                    reveal_strlit("]");
                    assert(r@ =~= seq!['['] + arr_txt(items@, 0) + seq![']']);
                }
                r
            },
            Value::Object(entries) => {
                let body = obj_txt_exec(self, entries, 0);
                let r = cat3("{", body.as_str(), "}");
                proof {
                    reveal_strlit("{");
                    reveal_strlit("}");
                    assert(r@ =~= seq!['{'] + obj_txt(entries@, 0) + seq!['}']);
                }
                r
            },
        }
    }

    /// The plain display of the value (see [`display_txt`]): a string gives
    /// its raw characters, everything else its compact JSON text.
    pub fn display(&self) -> (r: String)
        ensures
            r@ == display_txt(*self),
    {
        match self {
            Value::Str(s) => s.clone(),
            _ => self.to_json_str(),
        }
    }
}

/// The kind of a value, as diagnostics name it.
pub open spec fn spec_type_of(v: Value) -> Seq<char> {
    match v {
        Value::Object(_) => "Map"@,
        Value::Array(_) => "List"@,
        Value::Null => "Null"@,
        Value::Bool(_) => "Boolean"@,
        Value::Integer(_) => "Number"@,
        Value::Decimal(_) => "Number"@,
        Value::Str(_) => "String"@,
        Value::Bytes(_) => "Data"@,
    }
}

fn eq_bytes(x: &Vec<u8>, y: &Vec<u8>) -> (r: bool)
    ensures
        r == (x@ == y@),
{
    if x.len() != y.len() {
        proof {
            assert(x@ != y@);
        }
        return false;
    }
    let mut i: usize = 0;
    while i < x.len()
        invariant
            x@.len() == y@.len(),
            i <= x@.len(),
            forall|j: int| 0 <= j < i ==> x@[j] == y@[j],
        decreases x@.len() - i,
    {
        if x[i] != y[i] {
            return false;
        }
        i += 1;
    }
    proof {
        assert(x@ =~= y@);
    }
    true
}

fn eq_value_vecs_outer(a: &Value, b: &Value, x: &Vec<Value>, y: &Vec<Value>) -> (r: bool)
    requires
        *a matches Value::Array(items) && items@ == x@,
        *b matches Value::Array(items) && items@ == y@,
    ensures
        r == seq_value_eq(x@, y@, 0),
    decreases a, 0int, 0int,
{
    eq_value_vecs(x, y, 0)
}

fn eq_entry_vecs_outer(
    a: &Value,
    b: &Value,
    x: &Vec<(String, Value)>,
    y: &Vec<(String, Value)>,
) -> (r: bool)
    requires
        *a matches Value::Object(entries) && entries@ == x@,
        *b matches Value::Object(entries) && entries@ == y@,
    ensures
        r == obj_value_eq(x@, y@, 0),
    decreases a, 0int, 0int,
{
    eq_entry_vecs(x, y, 0)
}

fn bytes_txt_exec(b: &Vec<u8>, i: usize) -> (r: String)
    requires
        i <= b@.len(),
    ensures
        r@ == bytes_txt(b@, i as int),
    decreases b@.len() - i,
{
    if i >= b.len() {
        String::new()
    } else if i == b.len() - 1 {
        crate::numbers::i128_to_string(b[i] as i128)
    } else {
        let head = crate::numbers::i128_to_string(b[i] as i128);
        let rest = bytes_txt_exec(b, i + 1);
        let r = cat3(head.as_str(), ",", rest.as_str());
        proof {
            reveal_strlit(",");
            assert(r@ =~= bytes_txt(b@, i as int));
        }
        r
    }
}

fn arr_txt_exec(outer: &Value, items: &Vec<Value>, i: usize) -> (r: String)
    requires
        i <= items@.len(),
        *outer matches Value::Array(x) && x@ == items@,
    ensures
        r@ == arr_txt(items@, i as int),
    decreases outer, 0int, items@.len() - i,
{
    if i >= items.len() {
        String::new()
    } else {
        proof {
            assert(decreases_to!(outer => items@[i as int])) by {
                assert(*outer matches Value::Array(x) && x@ == items@);
                assert(decreases_to!(*outer => items@));
                assert(decreases_to!(items@ => items@[i as int]));
            }
        }
        let head = items[i].to_json_str();
        if i == items.len() - 1 {
            head
        } else {
            let rest = arr_txt_exec(outer, items, i + 1);
            let r = cat3(head.as_str(), ",", rest.as_str());
            proof {
                reveal_strlit(",");
                assert(r@ =~= arr_txt(items@, i as int));
            }
            r
        }
    }
}

fn obj_txt_exec(outer: &Value, entries: &Vec<(String, Value)>, i: usize) -> (r: String)
    requires
        i <= entries@.len(),
        *outer matches Value::Object(x) && x@ == entries@,
    ensures
        r@ == obj_txt(entries@, i as int),
    decreases outer, 0int, entries@.len() - i,
{
    if i >= entries.len() {
        String::new()
    } else {
        proof {
            assert(decreases_to!(outer => entries@[i as int].1)) by {
                assert(decreases_to!(*outer => entries@));
                assert(decreases_to!(entries@ => entries@[i as int]));
            }
        }
        let esc = escape_chars(entries[i].0.as_str());
        let key = chars_to_string(&esc);
        let val = entries[i].1.to_json_str();
        let one = crate::strings::cat5("\"", key.as_str(), "\"", ":", val.as_str());
        proof {
            reveal_strlit("\"");
            reveal_strlit(":");
            assert(one@ =~= seq!['"'] + escaped(entries@[i as int].0@) + seq!['"', ':'] + json_txt(
                entries@[i as int].1,
            ));
        }
        if i == entries.len() - 1 {
            one
        } else {
            let rest = obj_txt_exec(outer, entries, i + 1);
            let r = cat3(one.as_str(), ",", rest.as_str());
            proof {
                reveal_strlit(",");
                assert(r@ =~= obj_txt(entries@, i as int));
            }
            r
        }
    }
}

} // verus!
