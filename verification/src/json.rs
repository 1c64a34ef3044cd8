//! A tiny JSON value model and serializer.
//!
//! The tool emits JSON but never parses it, and the value space is small
//! (strings, numbers, bools, arrays, string-keyed objects), so a hand-rolled
//! serializer keeps the crate dependency-free.

use vstd::prelude::*;
use crate::policy::join;
use crate::text::{dec_signed, dec, digits, digit_char, hex, zeros, push_char, push_dec_signed, digits_of,
    push_chars, chars_of};

verus! {

pub enum Value {
    Str(String),
    Num(i64),
    Bool(bool),
    Array(Vec<Value>),
    /// An object with insertion-ordered, string keys.
    Object(Vec<(String, Value)>),
}

/// How one character of a string is written inside JSON quotes.
pub open spec fn escape_char(c: char) -> Seq<char> {
    if c == '"' {
        seq!['\\', '"']
    } else if c == '\\' {
        seq!['\\', '\\']
    } else if c == '\n' {
        seq!['\\', 'n']
    } else if c == '\r' {
        seq!['\\', 'r']
    } else if c == '\t' {
        seq!['\\', 't']
    } else if (c as u32) < 0x20 {
        let h = hex(c as nat);
        seq!['\\', 'u'] + zeros((4 - h.len()) as nat) + h
    } else {
        seq![c]
    }
}

/// The characters of `s`, each escaped.
pub open spec fn escaped(s: Seq<char>) -> Seq<char>
    decreases s.len(),
{
    if s.len() == 0 {
        Seq::empty()
    } else {
        escaped(s.drop_last()) + escape_char(s.last())
    }
}

/// A JSON string literal for `s`.
pub open spec fn quoted(s: Seq<char>) -> Seq<char> {
    seq!['"'] + escaped(s) + seq!['"']
}

/// The compact JSON text of a value.
pub open spec fn json_text(v: Value) -> Seq<char>
    decreases v, 0nat,
{
    match v {
        Value::Str(s) => quoted(s@),
        Value::Num(n) => dec_signed(n as int),
        Value::Bool(b) => if b {
            seq!['t', 'r', 'u', 'e']
        } else {
            seq!['f', 'a', 'l', 's', 'e']
        },
        Value::Array(items) => seq!['['] + items_text(items@) + seq![']'],
        Value::Object(fields) => seq!['{'] + fields_text(fields@) + seq!['}'],
    }
}

/// Array elements, comma-separated.
pub open spec fn items_text(items: Seq<Value>) -> Seq<char>
    decreases items, 1nat,
{
    if items.len() == 0 {
        Seq::empty()
    } else if items.len() == 1 {
        json_text(items[0])
    } else {
        items_text(items.subrange(0, items.len() - 1)) + seq![','] + json_text(
            items[items.len() - 1],
        )
    }
}

/// Object members `"key":value`, comma-separated.
pub open spec fn fields_text(fields: Seq<(String, Value)>) -> Seq<char>
    decreases fields, 1nat,
{
    if fields.len() == 0 {
        Seq::empty()
    } else if fields.len() == 1 {
        quoted(fields[0].0@) + seq![':'] + json_text(fields[0].1)
    } else {
        fields_text(fields.subrange(0, fields.len() - 1)) + seq![','] + quoted(
            fields[fields.len() - 1].0@,
        ) + seq![':'] + json_text(fields[fields.len() - 1].1)
    }
}

/// An array's text from its elements' texts.
pub open spec fn array_text(items: Seq<Seq<char>>) -> Seq<char> {
    seq!['['] + join(items, seq![',']) + seq![']']
}

/// An object member's text: the quoted key, a colon, the value's text.
pub open spec fn member_text(key: Seq<char>, value: Seq<char>) -> Seq<char> {
    quoted(key) + seq![':'] + value
}

/// An object's text from its members' texts.
pub open spec fn object_text(members: Seq<Seq<char>>) -> Seq<char> {
    seq!['{'] + join(members, seq![',']) + seq!['}']
}

/// The texts of values.
pub open spec fn texts(items: Seq<Value>) -> Seq<Seq<char>> {
    items.map_values(|v: Value| json_text(v))
}

/// The member texts of fields.
pub open spec fn member_texts(fields: Seq<(String, Value)>) -> Seq<Seq<char>> {
    fields.map_values(|f: (String, Value)| member_text(f.0@, json_text(f.1)))
}

/// Array elements are written as their texts joined by commas.
pub proof fn lemma_items_text(items: Seq<Value>)
    ensures
        items_text(items) == join(texts(items), seq![',']),
    decreases items.len(),
{
    if items.len() > 1 {
        let pre = items.subrange(0, items.len() - 1);
        lemma_items_text(pre);
        assert(texts(items).drop_last() =~= texts(pre));
    }
}

/// Object members are written as their texts joined by commas.
pub proof fn lemma_fields_text(fields: Seq<(String, Value)>)
    ensures
        fields_text(fields) == join(member_texts(fields), seq![',']),
    decreases fields.len(),
{
    if fields.len() > 1 {
        let pre = fields.subrange(0, fields.len() - 1);
        lemma_fields_text(pre);
        assert(member_texts(fields).drop_last() =~= member_texts(pre));
        assert(fields_text(fields) =~= join(member_texts(fields), seq![',']));
    } else if fields.len() == 1 {
        assert(fields_text(fields) =~= join(member_texts(fields), seq![',']));
    }
}

/// Whether no character of `s` is below U+0020 (so the text is one line).
pub open spec fn no_control(s: Seq<char>) -> bool {
    forall|i: int| 0 <= i < s.len() ==> (s[i] as u32) >= 0x20
}

proof fn lemma_no_control_concat(a: Seq<char>, b: Seq<char>)
    requires
        no_control(a),
        no_control(b),
    ensures
        no_control(a + b),
{
    assert forall|i: int| 0 <= i < (a + b).len() implies ((a + b)[i] as u32) >= 0x20 by {
        if i < a.len() {
            assert((a + b)[i] == a[i]);
        } else {
            assert((a + b)[i] == b[i - a.len()]);
        }
    }
}

proof fn lemma_digits_no_control(n: nat, b: nat)
    ensures
        no_control(digits(n, b)),
    decreases n,
{
    if b >= 2 && n >= b {
        assert(n / b < n) by (nonlinear_arith)
            requires
                b >= 2,
                n >= b,
        ;
        lemma_digits_no_control(n / b, b);
        lemma_no_control_concat(digits(n / b, b), seq![digit_char(n % b)]);
        assert(digits(n, b) =~= digits(n / b, b) + seq![digit_char(n % b)]);
    }
}

proof fn lemma_escape_char_no_control(c: char)
    ensures
        no_control(escape_char(c)),
{
    if !(c == '"' || c == '\\' || c == '\n' || c == '\r' || c == '\t') && (c as u32) < 0x20 {
        let h = hex(c as nat);
        lemma_digits_no_control(c as nat, 16);
        lemma_no_control_concat(seq!['\\', 'u'], zeros((4 - h.len()) as nat));
        lemma_no_control_concat(seq!['\\', 'u'] + zeros((4 - h.len()) as nat), h);
    }
}

proof fn lemma_escaped_no_control(s: Seq<char>)
    ensures
        no_control(escaped(s)),
    decreases s.len(),
{
    if s.len() > 0 {
        lemma_escaped_no_control(s.drop_last());
        lemma_escape_char_no_control(s.last());
        lemma_no_control_concat(escaped(s.drop_last()), escape_char(s.last()));
    }
}

proof fn lemma_quoted_no_control(s: Seq<char>)
    ensures
        no_control(quoted(s)),
{
    lemma_escaped_no_control(s);
    lemma_no_control_concat(seq!['"'], escaped(s));
    lemma_no_control_concat(seq!['"'] + escaped(s), seq!['"']);
}

proof fn lemma_text_no_control(v: Value)
    ensures
        no_control(json_text(v)),
    decreases v, 0nat,
{
    match v {
        Value::Str(s) => lemma_quoted_no_control(s@),
        Value::Num(n) => {
            if n < 0 {
                lemma_digits_no_control((-n) as nat, 10);
                lemma_no_control_concat(seq!['-'], dec((-n) as nat));
            } else {
                lemma_digits_no_control(n as nat, 10);
            }
        },
        Value::Bool(b) => {},
        Value::Array(items) => {
            lemma_items_no_control(items@);
            lemma_no_control_concat(seq!['['], items_text(items@));
            lemma_no_control_concat(seq!['['] + items_text(items@), seq![']']);
        },
        Value::Object(fields) => {
            lemma_fields_no_control(fields@);
            lemma_no_control_concat(seq!['{'], fields_text(fields@));
            lemma_no_control_concat(seq!['{'] + fields_text(fields@), seq!['}']);
        },
    }
}

proof fn lemma_items_no_control(items: Seq<Value>)
    ensures
        no_control(items_text(items)),
    decreases items, 1nat,
{
    if items.len() == 1 {
        lemma_text_no_control(items[0]);
    } else if items.len() > 1 {
        let pre = items.subrange(0, items.len() - 1);
        lemma_items_no_control(pre);
        lemma_text_no_control(items[items.len() - 1]);
        lemma_no_control_concat(items_text(pre), seq![',']);
        lemma_no_control_concat(items_text(pre) + seq![','], json_text(items[items.len() - 1]));
    }
}

proof fn lemma_fields_no_control(fields: Seq<(String, Value)>)
    ensures
        no_control(fields_text(fields)),
    decreases fields, 1nat,
{
    if fields.len() >= 1 {
        let last = fields[fields.len() - 1];
        lemma_quoted_no_control(last.0@);
        lemma_text_no_control(last.1);
        lemma_no_control_concat(quoted(last.0@), seq![':']);
        lemma_no_control_concat(quoted(last.0@) + seq![':'], json_text(last.1));
        if fields.len() > 1 {
            let pre = fields.subrange(0, fields.len() - 1);
            lemma_fields_no_control(pre);
            lemma_no_control_concat(fields_text(pre), seq![',']);
            lemma_no_control_concat(fields_text(pre) + seq![','], quoted(last.0@));
            lemma_no_control_concat(fields_text(pre) + seq![','] + quoted(last.0@), seq![':']);
            lemma_no_control_concat(fields_text(pre) + seq![','] + quoted(last.0@) + seq![':'], json_text(last.1));
        }
    }
}

/// Rendered JSON is a single line: no character of the text of any value is
/// below U+0020; control characters inside strings are escaped.
pub proof fn law_json_text_single_line(v: Value)
    ensures
        no_control(json_text(v)),
{
    lemma_text_no_control(v);
}

impl Value {
    /// Render as compact (single-line) JSON.
    pub fn render(&self) -> (s: String)
        ensures
            s@ == json_text(*self),
    {
        let mut out = String::new();
        self.write(&mut out);
        assert(out@ =~= json_text(*self));
        out
    }

    fn write(&self, out: &mut String)
        ensures
            final(out)@ == old(out)@ + json_text(*self),
        decreases self,
    {
        match self {
            Value::Str(s) => write_string(s.as_str(), out),
            Value::Num(n) => push_dec_signed(out, *n),
            Value::Bool(b) => {
                if *b {
                    push_char(out, 't');
                    push_char(out, 'r');
                    push_char(out, 'u');
                    push_char(out, 'e');
                } else {
                    push_char(out, 'f');
                    push_char(out, 'a');
                    push_char(out, 'l');
                    push_char(out, 's');
                    push_char(out, 'e');
                }
                assert(out@ =~= old(out)@ + json_text(*self));
            },
            Value::Array(items) => {
                push_char(out, '[');
                let ghost start = out@;
                let mut i: usize = 0;
                while i < items.len()
                    invariant
                        i <= items@.len(),
                        *self == Value::Array(*items),
                        out@ == start + items_text(items@.subrange(0, i as int)),
                    decreases items@.len() - i,
                {
                    let ghost before = items@.subrange(0, i as int);
                    if i > 0 {
                        push_char(out, ',');
                    }
                    assert(decreases_to!(*self => self->Array_0));
                    assert(decreases_to!(*items => items@));
                    assert(decreases_to!(items@ => items@[i as int]));
                    items[i].write(out);
                    proof {
                        let now = items@.subrange(0, i + 1);
                        assert(now.subrange(0, now.len() - 1) =~= before);
                        if i == 0 {
                            assert(before =~= Seq::<Value>::empty());
                        }
                        assert(out@ =~= start + items_text(now));
                    }
                    i = i + 1;
                }
                assert(items@.subrange(0, items@.len() as int) =~= items@);
                push_char(out, ']');
                assert(out@ =~= old(out)@ + json_text(*self));
            },
            Value::Object(fields) => {
                push_char(out, '{');
                let ghost start = out@;
                let mut i: usize = 0;
                while i < fields.len()
                    invariant
                        i <= fields@.len(),
                        *self == Value::Object(*fields),
                        out@ == start + fields_text(fields@.subrange(0, i as int)),
                    decreases fields@.len() - i,
                {
                    let ghost before = fields@.subrange(0, i as int);
                    if i > 0 {
                        push_char(out, ',');
                    }
                    let (k, v) = &fields[i];
                    write_string(k.as_str(), out);
                    push_char(out, ':');
                    assert(decreases_to!(*self => self->Object_0));
                    assert(decreases_to!(*fields => fields@));
                    assert(decreases_to!(fields@ => fields@[i as int]));
                    assert(decreases_to!(fields@[i as int] => fields@[i as int].1));
                    v.write(out);
                    proof {
                        let now = fields@.subrange(0, i + 1);
                        assert(now.subrange(0, now.len() - 1) =~= before);
                        if i == 0 {
                            assert(before =~= Seq::<(String, Value)>::empty());
                        }
                        assert(out@ =~= start + fields_text(now));
                    }
                    i = i + 1;
                }
                assert(fields@.subrange(0, fields@.len() as int) =~= fields@);
                push_char(out, '}');
                assert(out@ =~= old(out)@ + json_text(*self));
            },
        }
    }

    /// A stable key for sorting/deduping rendered values (used to order rule
    /// output deterministically).
    pub fn sort_key(&self) -> (s: String)
        ensures
            s@ == json_text(*self),
    {
        self.render()
    }
}

/// Appends the JSON escape of one character.
fn write_escaped_char(c: char, out: &mut String)
    ensures
        final(out)@ == old(out)@ + escape_char(c),
{
    if c == '"' {
        push_char(out, '\\');
        push_char(out, '"');
    } else if c == '\\' {
        push_char(out, '\\');
        push_char(out, '\\');
    } else if c == '\n' {
        push_char(out, '\\');
        push_char(out, 'n');
    } else if c == '\r' {
        push_char(out, '\\');
        push_char(out, 'r');
    } else if c == '\t' {
        push_char(out, '\\');
        push_char(out, 't');
    } else if (c as u32) < 0x20 {
        push_char(out, '\\');
        push_char(out, 'u');
        let h = digits_of(c as u32 as u64, 16);
        proof {
            reveal_with_fuel(crate::text::digits, 3);
        }
        let ghost mid = out@;
        let mut k: usize = h.len();
        while k < 4
            invariant
                h.len() <= k <= 4,
                out@ == mid + zeros((k - h.len()) as nat),
            decreases 4 - k,
        {
            push_char(out, '0');
            assert(zeros((k + 1 - h.len()) as nat) =~= zeros((k - h.len()) as nat).push('0'));
            k = k + 1;
        }
        push_chars(out, &h);
    } else {
        push_char(out, c);
    }
    assert(out@ =~= old(out)@ + escape_char(c));
}

fn write_string(s: &str, out: &mut String)
    ensures
        final(out)@ == old(out)@ + quoted(s@),
{
    push_char(out, '"');
    let cs = chars_of(s);
    let ghost start = out@;
    let mut i: usize = 0;
    while i < cs.len()
        invariant
            i <= cs@.len(),
            out@ == start + escaped(cs@.subrange(0, i as int)),
        decreases cs@.len() - i,
    {
        write_escaped_char(cs[i], out);
        assert(cs@.subrange(0, i + 1).drop_last() =~= cs@.subrange(0, i as int));
        i = i + 1;
    }
    assert(cs@.subrange(0, cs@.len() as int) =~= s@);
    push_char(out, '"');
    assert(out@ =~= old(out)@ + quoted(s@));
}

} // verus!
