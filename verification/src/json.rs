//! A JSON document model with a verified renderer and JSON-pointer
//! navigation.  Numbers keep their lexical form, so rendering is exact and
//! needs no floating point.  The renderer follows the usual two formats:
//! a compact one with no whitespace, and a pretty one with two-space
//! indentation; the pointer follows RFC 6901 with stringified integer keys
//! for array indexes.

use vstd::prelude::*;

use crate::text::{
    all_dec_digits, dec_value, is_dec_digit, lemma_dec_value_take_mono, push_char,
};
use vstd::string::StrSliceExecFns;
use vstd::string::StringExecFns;

verus! {

/// A JSON value.  `Num` holds the number's lexical form (for example
/// `-12`, `1.5`); `Str` holds the unescaped text.
#[derive(Debug)]
pub enum JsonValue {
    Null,
    Bool(bool),
    Num(String),
    Str(String),
    Array(Vec<JsonValue>),
    Object(Vec<(String, JsonValue)>),
}

/// The mathematical content of a JSON value.
#[verifier::ext_equal]
pub enum JsonModel {
    Null,
    Bool(bool),
    Num(Seq<char>),
    Str(Seq<char>),
    Array(Seq<JsonModel>),
    Object(Seq<(Seq<char>, JsonModel)>),
}

/// The mathematical content of a JSON value.
pub open spec fn json_view(v: JsonValue) -> JsonModel
    decreases v,
{
    match v {
        JsonValue::Null => JsonModel::Null,
        JsonValue::Bool(b) => JsonModel::Bool(b),
        JsonValue::Num(s) => JsonModel::Num(s@),
        JsonValue::Str(s) => JsonModel::Str(s@),
        JsonValue::Array(a) => JsonModel::Array(json_view_seq(a@)),
        JsonValue::Object(o) => JsonModel::Object(json_view_fields(o@)),
    }
}

/// The element-wise content of an array.
pub open spec fn json_view_seq(s: Seq<JsonValue>) -> Seq<JsonModel>
    decreases s,
{
    if s.len() == 0 {
        Seq::empty()
    } else {
        seq![json_view(s[0])] + json_view_seq(s.drop_first())
    }
}

/// The member-wise content of an object.
pub open spec fn json_view_fields(s: Seq<(String, JsonValue)>) -> Seq<(Seq<char>, JsonModel)>
    decreases s,
{
    if s.len() == 0 {
        Seq::empty()
    } else {
        seq![(s[0].0@, json_view(s[0].1))] + json_view_fields(s.drop_first())
    }
}

impl View for JsonValue {
    type V = JsonModel;

    open spec fn view(&self) -> JsonModel {
        json_view(*self)
    }
}

/// Array contents keep their length and order under `json_view_seq`.
pub proof fn lemma_json_view_seq(s: Seq<JsonValue>)
    ensures
        json_view_seq(s).len() == s.len(),
        forall|i: int| 0 <= i < s.len() ==> #[trigger] json_view_seq(s)[i] == s[i]@,
    decreases s.len(),
{
    if s.len() > 0 {
        lemma_json_view_seq(s.drop_first());
        assert forall|i: int| 0 <= i < s.len() implies #[trigger] json_view_seq(s)[i]
            == s[i]@ by {
            if i > 0 {
                assert(s.drop_first()[i - 1] == s[i]);
            }
        }
    }
}

/// Object contents keep their length and order under `json_view_fields`.
pub proof fn lemma_json_view_fields(s: Seq<(String, JsonValue)>)
    ensures
        json_view_fields(s).len() == s.len(),
        forall|i: int|
            0 <= i < s.len() ==> #[trigger] json_view_fields(s)[i] == (s[i].0@, s[i].1@),
    decreases s.len(),
{
    if s.len() > 0 {
        lemma_json_view_fields(s.drop_first());
        assert forall|i: int| 0 <= i < s.len() implies #[trigger] json_view_fields(s)[i] == (
            s[i].0@,
            s[i].1@,
        ) by {
            if i > 0 {
                assert(s.drop_first()[i - 1] == s[i]);
            }
        }
    }
}

/// The hexadecimal digit for a value below sixteen.
pub open spec fn hex_char(d: nat) -> char {
    if d < 10 {
        crate::text::digit_char(d)
    } else if d == 10 {
        'a'
    } else if d == 11 {
        'b'
    } else if d == 12 {
        'c'
    } else if d == 13 {
        'd'
    } else if d == 14 {
        'e'
    } else {
        'f'
    }
}

fn hex_char_exec(d: u32) -> (c: char)
    requires
        d < 16,
    ensures
        c == hex_char(d as nat),
{
    if d == 0 {
        '0'
    } else if d == 1 {
        '1'
    } else if d == 2 {
        '2'
    } else if d == 3 {
        '3'
    } else if d == 4 {
        '4'
    } else if d == 5 {
        '5'
    } else if d == 6 {
        '6'
    } else if d == 7 {
        '7'
    } else if d == 8 {
        '8'
    } else if d == 9 {
        '9'
    } else if d == 10 {
        'a'
    } else if d == 11 {
        'b'
    } else if d == 12 {
        'c'
    } else if d == 13 {
        'd'
    } else if d == 14 {
        'e'
    } else {
        'f'
    }
}

/// How one character appears inside a JSON string literal.
pub open spec fn escape_char(c: char) -> Seq<char> {
    if c == '"' {
        seq!['\\', '"']
    } else if c == '\\' {
        seq!['\\', '\\']
    } else if c == '\u{8}' {
        seq!['\\', 'b']
    } else if c == '\u{c}' {
        seq!['\\', 'f']
    } else if c == '\n' {
        seq!['\\', 'n']
    } else if c == '\r' {
        seq!['\\', 'r']
    } else if c == '\t' {
        seq!['\\', 't']
    } else if (c as nat) < 32 {
        seq!['\\', 'u', '0', '0', hex_char((c as nat) / 16), hex_char((c as nat) % 16)]
    } else {
        seq![c]
    }
}

/// The escaped body of a JSON string literal.
pub open spec fn escape_str(s: Seq<char>) -> Seq<char>
    decreases s.len(),
{
    if s.len() == 0 {
        Seq::empty()
    } else {
        escape_char(s[0]) + escape_str(s.drop_first())
    }
}

/// A quoted JSON string literal.
pub open spec fn quoted(s: Seq<char>) -> Seq<char> {
    seq!['"'] + escape_str(s) + seq!['"']
}

/// The compact rendering: no whitespace at all.
pub open spec fn compact_chars(v: JsonModel) -> Seq<char>
    decreases v,
{
    match v {
        JsonModel::Null => seq!['n', 'u', 'l', 'l'],
        JsonModel::Bool(b) => if b {
            seq!['t', 'r', 'u', 'e']
        } else {
            seq!['f', 'a', 'l', 's', 'e']
        },
        JsonModel::Num(s) => s,
        JsonModel::Str(s) => quoted(s),
        JsonModel::Array(a) => seq!['['] + compact_elems(a) + seq![']'],
        JsonModel::Object(o) => seq!['{'] + compact_fields(o) + seq!['}'],
    }
}

/// Array elements, comma separated.
pub open spec fn compact_elems(s: Seq<JsonModel>) -> Seq<char>
    decreases s,
{
    if s.len() == 0 {
        Seq::empty()
    } else if s.len() == 1 {
        compact_chars(s[0])
    } else {
        compact_chars(s[0]) + seq![','] + compact_elems(s.drop_first())
    }
}

/// Object members, comma separated.
pub open spec fn compact_fields(s: Seq<(Seq<char>, JsonModel)>) -> Seq<char>
    decreases s,
{
    if s.len() == 0 {
        Seq::empty()
    } else if s.len() == 1 {
        quoted(s[0].0) + seq![':'] + compact_chars(s[0].1)
    } else {
        quoted(s[0].0) + seq![':'] + compact_chars(s[0].1) + seq![','] + compact_fields(
            s.drop_first(),
        )
    }
}

/// The pretty rendering with two-space indentation; `ind` is the
/// indentation of the surrounding value.
pub open spec fn pretty_chars(v: JsonModel, ind: Seq<char>) -> Seq<char>
    decreases v,
{
    match v {
        JsonModel::Null => seq!['n', 'u', 'l', 'l'],
        JsonModel::Bool(b) => if b {
            seq!['t', 'r', 'u', 'e']
        } else {
            seq!['f', 'a', 'l', 's', 'e']
        },
        JsonModel::Num(s) => s,
        JsonModel::Str(s) => quoted(s),
        JsonModel::Array(a) => if a.len() == 0 {
            seq!['[', ']']
        } else {
            seq!['['] + pretty_elems(a, ind + seq![' ', ' ']) + seq!['\n'] + ind + seq![']']
        },
        JsonModel::Object(o) => if o.len() == 0 {
            seq!['{', '}']
        } else {
            seq!['{'] + pretty_fields(o, ind + seq![' ', ' ']) + seq!['\n'] + ind + seq!['}']
        },
    }
}

/// Pretty array elements: each on its own indented line.
pub open spec fn pretty_elems(s: Seq<JsonModel>, ind: Seq<char>) -> Seq<char>
    decreases s,
{
    if s.len() == 0 {
        Seq::empty()
    } else if s.len() == 1 {
        seq!['\n'] + ind + pretty_chars(s[0], ind)
    } else {
        seq!['\n'] + ind + pretty_chars(s[0], ind) + seq![','] + pretty_elems(s.drop_first(), ind)
    }
}

/// Pretty object members: each on its own indented line.
pub open spec fn pretty_fields(s: Seq<(Seq<char>, JsonModel)>, ind: Seq<char>) -> Seq<char>
    decreases s,
{
    if s.len() == 0 {
        Seq::empty()
    } else if s.len() == 1 {
        seq!['\n'] + ind + quoted(s[0].0) + seq![':', ' '] + pretty_chars(s[0].1, ind)
    } else {
        seq!['\n'] + ind + quoted(s[0].0) + seq![':', ' '] + pretty_chars(s[0].1, ind)
            + seq![','] + pretty_fields(s.drop_first(), ind)
    }
}

/// Appends the escaped form of one character.
fn write_escaped_char(c: char, out: &mut String)
    ensures
        final(out)@ == old(out)@ + escape_char(c),
{
    if c == '"' {
        push_char(out, '\\');
        push_char(out, '"');
    } else if c == '\\' {
        push_char(out, '\\');
        push_char(out, '\\');
    } else if c == '\u{8}' {
        push_char(out, '\\');
        push_char(out, 'b');
    } else if c == '\u{c}' {
        push_char(out, '\\');
        push_char(out, 'f');
    } else if c == '\n' {
        push_char(out, '\\');
        push_char(out, 'n');
    } else if c == '\r' {
        push_char(out, '\\');
        push_char(out, 'r');
    } else if c == '\t' {
        push_char(out, '\\');
        push_char(out, 't');
    } else if (c as u32) < 32 {
        push_char(out, '\\');
        push_char(out, 'u');
        push_char(out, '0');
        push_char(out, '0');
        push_char(out, hex_char_exec((c as u32) / 16));
        push_char(out, hex_char_exec((c as u32) % 16));
    } else {
        push_char(out, c);
    }
}

/// Appends a quoted JSON string literal.
fn write_quoted(s: &str, out: &mut String)
    ensures
        final(out)@ == old(out)@ + quoted(s@),
{
    push_char(out, '"');
    let n = s.unicode_len();
    let mut i: usize = 0;
    while i < n
        invariant
            n == s@.len(),
            i <= n,
            out@ == old(out)@ + seq!['"'] + escape_str(s@.take(i as int)),
        decreases n - i,
    {
        proof {
            lemma_escape_str_take(s@, i as int);
        }
        write_escaped_char(s.get_char(i), out);
        i = i + 1;
    }
    push_char(out, '"');
    proof {
        assert(s@.take(n as int) =~= s@);
        assert(out@ =~= old(out)@ + quoted(s@));
    }
}

proof fn lemma_escape_str_take(s: Seq<char>, i: int)
    requires
        0 <= i < s.len(),
    ensures
        escape_str(s.take(i + 1)) == escape_str(s.take(i)) + escape_char(s[i]),
    decreases i,
{
    if i == 0 {
        assert(s.take(1) =~= seq![s[0]]);
        assert(s.take(1).drop_first() =~= Seq::<char>::empty());
        assert(s.take(0) =~= Seq::<char>::empty());
        assert(escape_str(s.take(1)) =~= escape_str(s.take(0)) + escape_char(s[0]));
    } else {
        lemma_escape_str_take(s.drop_first(), i - 1);
        assert(s.take(i + 1).drop_first() =~= s.drop_first().take(i));
        assert(s.take(i).drop_first() =~= s.drop_first().take(i - 1));
        assert(s.take(i + 1)[0] == s[0]);
        assert(s.take(i)[0] == s[0]);
        assert(s.drop_first()[i - 1] == s[i]);
        assert(escape_str(s.take(i + 1)) =~= escape_str(s.take(i)) + escape_char(s[i]));
    }
}

impl JsonValue {
    /// Appends the compact rendering of this value.
    pub fn write_compact(&self, out: &mut String)
        ensures
            final(out)@ == old(out)@ + compact_chars(self@),
        decreases *self, 1int,
    {
        match self {
            JsonValue::Null => {
                out.append("null");
                proof {
                    reveal_strlit("null");
                    assert(out@ =~= old(out)@ + compact_chars(self@));
                }
            },
            JsonValue::Bool(b) => {
                if *b {
                    out.append("true");
                    proof {
                        reveal_strlit("true");
                        assert(out@ =~= old(out)@ + compact_chars(self@));
                    }
                } else {
                    out.append("false");
                    proof {
                        reveal_strlit("false");
                        assert(out@ =~= old(out)@ + compact_chars(self@));
                    }
                }
            },
            JsonValue::Num(s) => {
                out.append(s.as_str());
            },
            JsonValue::Str(s) => {
                write_quoted(s.as_str(), out);
            },
            JsonValue::Array(a) => {
                let ghost m = json_view_seq(a@);
                proof {
                    lemma_json_view_seq(a@);
                }
                push_char(out, '[');
                let mut k: usize = 0;
                while k < a.len()
                    invariant
                        k <= a@.len(),
                        m == json_view_seq(a@),
                        m.len() == a@.len(),
                        forall|i: int| 0 <= i < a@.len() ==> #[trigger] m[i] == a@[i]@,
                        self matches JsonValue::Array(v) && v@ == a@,
                        out@ == old(out)@ + seq!['['] + compact_elems(m.take(k as int)) + (
                        if k > 0 && k < a@.len() {
                            seq![',']
                        } else {
                            Seq::<char>::empty()
                        }),
                    decreases a@.len() - k,
                {
                    self.write_compact_at(a, k, out);
                    k = k + 1;
                    if k < a.len() {
                        push_char(out, ',');
                    }
                    proof {
                        lemma_compact_elems_take(m, k as int);
                    }
                }
                push_char(out, ']');
                proof {
                    assert(m.take(a@.len() as int) =~= m);
                    assert(out@ =~= old(out)@ + compact_chars(self@));
                }
            },
            JsonValue::Object(o) => {
                let ghost m = json_view_fields(o@);
                proof {
                    lemma_json_view_fields(o@);
                }
                push_char(out, '{');
                let mut k: usize = 0;
                while k < o.len()
                    invariant
                        k <= o@.len(),
                        m == json_view_fields(o@),
                        m.len() == o@.len(),
                        forall|i: int|
                            0 <= i < o@.len() ==> #[trigger] m[i] == (o@[i].0@, o@[i].1@),
                        self matches JsonValue::Object(v) && v@ == o@,
                        out@ == old(out)@ + seq!['{'] + compact_fields(m.take(k as int)) + (
                        if k > 0 && k < o@.len() {
                            seq![',']
                        } else {
                            Seq::<char>::empty()
                        }),
                    decreases o@.len() - k,
                {
                    write_quoted(o[k].0.as_str(), out);
                    push_char(out, ':');
                    self.write_compact_field(o, k, out);
                    k = k + 1;
                    if k < o.len() {
                        push_char(out, ',');
                    }
                    proof {
                        lemma_compact_fields_take(m, k as int);
                    }
                }
                push_char(out, '}');
                proof {
                    assert(m.take(o@.len() as int) =~= m);
                    assert(out@ =~= old(out)@ + compact_chars(self@));
                }
            },
        }
    }

    /// Helper for array recursion, so that termination follows the value.
    fn write_compact_at(&self, a: &Vec<JsonValue>, k: usize, out: &mut String)
        requires
            self matches JsonValue::Array(v) && v@ == a@,
            k < a@.len(),
        ensures
            final(out)@ == old(out)@ + compact_chars(a@[k as int]@),
        decreases *self, 0int,
    {
        proof {
            assert(decreases_to!(*self => a@[k as int]));
        }
        a[k].write_compact(out);
    }

    /// Helper for object recursion, so that termination follows the value.
    fn write_compact_field(&self, o: &Vec<(String, JsonValue)>, k: usize, out: &mut String)
        requires
            self matches JsonValue::Object(v) && v@ == o@,
            k < o@.len(),
        ensures
            final(out)@ == old(out)@ + compact_chars(o@[k as int].1@),
        decreases *self, 0int,
    {
        proof {
            assert(decreases_to!(*self => o@[k as int].1));
        }
        o[k].1.write_compact(out);
    }

    /// The compact rendering of this value.
    pub fn to_compact_string(&self) -> (r: String)
        ensures
            r@ == compact_chars(self@),
    {
        let mut out = String::new();
        self.write_compact(&mut out);
        out
    }
}

impl JsonValue {
    /// Appends the pretty rendering of this value, `ind` being the
    /// indentation of the surrounding value.
    #[verifier::rlimit(40)]
    pub fn write_pretty(&self, ind: &str, out: &mut String)
        ensures
            final(out)@ == old(out)@ + pretty_chars(self@, ind@),
        decreases *self, 1int,
    {
        match self {
            JsonValue::Null => {
                out.append("null");
                proof {
                    reveal_strlit("null");
                    assert(out@ =~= old(out)@ + pretty_chars(self@, ind@));
                }
            },
            JsonValue::Bool(b) => {
                if *b {
                    out.append("true");
                    proof {
                        reveal_strlit("true");
                        assert(out@ =~= old(out)@ + pretty_chars(self@, ind@));
                    }
                } else {
                    out.append("false");
                    proof {
                        reveal_strlit("false");
                        assert(out@ =~= old(out)@ + pretty_chars(self@, ind@));
                    }
                }
            },
            JsonValue::Num(s) => {
                out.append(s.as_str());
            },
            JsonValue::Str(s) => {
                write_quoted(s.as_str(), out);
            },
            JsonValue::Array(a) => {
                let ghost m = json_view_seq(a@);
                proof {
                    lemma_json_view_seq(a@);
                }
                if a.len() == 0 {
                    push_char(out, '[');
                    push_char(out, ']');
                    proof {
                        assert(out@ =~= old(out)@ + pretty_chars(self@, ind@));
                    }
                    return ;
                }
                let ind2 = ind.to_owned().concat("  ");
                proof {
                    reveal_strlit("  ");
                    assert(ind2@ =~= ind@ + seq![' ', ' ']);
                }
                push_char(out, '[');
                let mut k: usize = 0;
                while k < a.len()
                    invariant
                        k <= a@.len(),
                        m == json_view_seq(a@),
                        m.len() == a@.len(),
                        forall|i: int| 0 <= i < a@.len() ==> #[trigger] m[i] == a@[i]@,
                        self matches JsonValue::Array(v) && v@ == a@,
                        ind2@ == ind@ + seq![' ', ' '],
                        out@ == old(out)@ + seq!['['] + pretty_elems(m.take(k as int), ind2@) + (
                        if k > 0 && k < a@.len() {
                            seq![',']
                        } else {
                            Seq::<char>::empty()
                        }),
                    decreases a@.len() - k,
                {
                    push_char(out, '\n');
                    out.append(ind2.as_str());
                    self.write_pretty_at(a, k, ind2.as_str(), out);
                    k = k + 1;
                    if k < a.len() {
                        push_char(out, ',');
                    }
                    proof {
                        lemma_pretty_elems_take(m, ind2@, k as int);
                    }
                }
                push_char(out, '\n');
                out.append(ind);
                push_char(out, ']');
                proof {
                    assert(m.take(a@.len() as int) =~= m);
                    assert(out@ =~= old(out)@ + pretty_chars(self@, ind@));
                }
            },
            JsonValue::Object(o) => {
                let ghost m = json_view_fields(o@);
                proof {
                    lemma_json_view_fields(o@);
                }
                if o.len() == 0 {
                    push_char(out, '{');
                    push_char(out, '}');
                    proof {
                        assert(out@ =~= old(out)@ + pretty_chars(self@, ind@));
                    }
                    return ;
                }
                let ind2 = ind.to_owned().concat("  ");
                proof {
                    reveal_strlit("  ");
                    assert(ind2@ =~= ind@ + seq![' ', ' ']);
                }
                push_char(out, '{');
                let mut k: usize = 0;
                while k < o.len()
                    invariant
                        k <= o@.len(),
                        m == json_view_fields(o@),
                        m.len() == o@.len(),
                        forall|i: int|
                            0 <= i < o@.len() ==> #[trigger] m[i] == (o@[i].0@, o@[i].1@),
                        self matches JsonValue::Object(v) && v@ == o@,
                        ind2@ == ind@ + seq![' ', ' '],
                        out@ == old(out)@ + seq!['{'] + pretty_fields(m.take(k as int), ind2@) + (
                        if k > 0 && k < o@.len() {
                            seq![',']
                        } else {
                            Seq::<char>::empty()
                        }),
                    decreases o@.len() - k,
                {
                    push_char(out, '\n');
                    out.append(ind2.as_str());
                    write_quoted(o[k].0.as_str(), out);
                    push_char(out, ':');
                    push_char(out, ' ');
                    self.write_pretty_field(o, k, ind2.as_str(), out);
                    k = k + 1;
                    if k < o.len() {
                        push_char(out, ',');
                    }
                    proof {
                        lemma_pretty_fields_take(m, ind2@, k as int);
                    }
                }
                push_char(out, '\n');
                out.append(ind);
                push_char(out, '}');
                proof {
                    assert(m.take(o@.len() as int) =~= m);
                    assert(out@ =~= old(out)@ + pretty_chars(self@, ind@));
                }
            },
        }
    }

    /// Helper for array recursion, so that termination follows the value.
    fn write_pretty_at(&self, a: &Vec<JsonValue>, k: usize, ind: &str, out: &mut String)
        requires
            self matches JsonValue::Array(v) && v@ == a@,
            k < a@.len(),
        ensures
            final(out)@ == old(out)@ + pretty_chars(a@[k as int]@, ind@),
        decreases *self, 0int,
    {
        proof {
            assert(decreases_to!(*self => a@[k as int]));
        }
        a[k].write_pretty(ind, out);
    }

    /// Helper for object recursion, so that termination follows the value.
    fn write_pretty_field(
        &self,
        o: &Vec<(String, JsonValue)>,
        k: usize,
        ind: &str,
        out: &mut String,
    )
        requires
            self matches JsonValue::Object(v) && v@ == o@,
            k < o@.len(),
        ensures
            final(out)@ == old(out)@ + pretty_chars(o@[k as int].1@, ind@),
        decreases *self, 0int,
    {
        proof {
            assert(decreases_to!(*self => o@[k as int].1));
        }
        o[k].1.write_pretty(ind, out);
    }

    /// The pretty rendering of this value, starting with no indentation.
    pub fn to_pretty_string(&self) -> (r: String)
        ensures
            r@ == pretty_chars(self@, Seq::<char>::empty()),
    {
        let mut out = String::new();
        let empty = "";
        proof {
            reveal_strlit("");
            assert(empty@ =~= Seq::<char>::empty());
        }
        self.write_pretty(empty, &mut out);
        out
    }

    /// A structurally equal copy of this value.
    pub fn deep_clone(&self) -> (r: JsonValue)
        ensures
            r@ == self@,
        decreases *self, 1int,
    {
        match self {
            JsonValue::Null => JsonValue::Null,
            JsonValue::Bool(b) => JsonValue::Bool(*b),
            JsonValue::Num(s) => JsonValue::Num(s.clone()),
            JsonValue::Str(s) => JsonValue::Str(s.clone()),
            JsonValue::Array(a) => {
                let mut v: Vec<JsonValue> = Vec::new();
                let mut k: usize = 0;
                while k < a.len()
                    invariant
                        k <= a@.len(),
                        v@.len() == k,
                        forall|i: int| 0 <= i < k ==> #[trigger] v@[i]@ == a@[i]@,
                        self matches JsonValue::Array(w) && w@ == a@,
                    decreases a@.len() - k,
                {
                    let c = self.deep_clone_at(a, k);
                    v.push(c);
                    k = k + 1;
                }
                proof {
                    lemma_json_view_seq(a@);
                    lemma_json_view_seq(v@);
                    assert(json_view_seq(v@) =~= json_view_seq(a@));
                }
                JsonValue::Array(v)
            },
            JsonValue::Object(o) => {
                let mut v: Vec<(String, JsonValue)> = Vec::new();
                let mut k: usize = 0;
                while k < o.len()
                    invariant
                        k <= o@.len(),
                        v@.len() == k,
                        forall|i: int|
                            0 <= i < k ==> #[trigger] v@[i].0@ == o@[i].0@ && v@[i].1@
                                == o@[i].1@,
                        self matches JsonValue::Object(w) && w@ == o@,
                    decreases o@.len() - k,
                {
                    let key = o[k].0.clone();
                    let c = self.deep_clone_field(o, k);
                    v.push((key, c));
                    k = k + 1;
                }
                proof {
                    lemma_json_view_fields(o@);
                    lemma_json_view_fields(v@);
                    assert(json_view_fields(v@) =~= json_view_fields(o@));
                }
                JsonValue::Object(v)
            },
        }
    }

    /// Helper for array recursion, so that termination follows the value.
    fn deep_clone_at(&self, a: &Vec<JsonValue>, k: usize) -> (r: JsonValue)
        requires
            self matches JsonValue::Array(v) && v@ == a@,
            k < a@.len(),
        ensures
            r@ == a@[k as int]@,
        decreases *self, 0int,
    {
        proof {
            assert(decreases_to!(*self => a@[k as int]));
        }
        a[k].deep_clone()
    }

    /// Helper for object recursion, so that termination follows the value.
    fn deep_clone_field(&self, o: &Vec<(String, JsonValue)>, k: usize) -> (r: JsonValue)
        requires
            self matches JsonValue::Object(v) && v@ == o@,
            k < o@.len(),
        ensures
            r@ == o@[k as int].1@,
        decreases *self, 0int,
    {
        proof {
            assert(decreases_to!(*self => o@[k as int].1));
        }
        o[k].1.deep_clone()
    }
}

proof fn lemma_pretty_elems_take(s: Seq<JsonModel>, ind: Seq<char>, i: int)
    requires
        0 < i <= s.len(),
    ensures
        pretty_elems(s.take(i), ind) == pretty_elems(s.take(i - 1), ind) + (if i == 1 {
            Seq::<char>::empty()
        } else {
            seq![',']
        }) + seq!['\n'] + ind + pretty_chars(s[i - 1], ind),
    decreases i,
{
    if i == 1 {
        assert(s.take(1) =~= seq![s[0]]);
        assert(s.take(0) =~= Seq::<JsonModel>::empty());
        assert(pretty_elems(s.take(1), ind) =~= pretty_elems(s.take(0), ind)
            + Seq::<char>::empty() + seq!['\n'] + ind + pretty_chars(s[0], ind));
    } else {
        lemma_pretty_elems_take(s.drop_first(), ind, i - 1);
        assert(s.take(i).drop_first() =~= s.drop_first().take(i - 1));
        assert(s.take(i - 1).drop_first() =~= s.drop_first().take(i - 2));
        assert(s.take(i)[0] == s[0]);
        assert(s.take(i - 1)[0] == s[0]);
        assert(s.drop_first()[i - 2] == s[i - 1]);
        assert(s.take(i).len() == i);
        assert(s.take(i - 1).len() == i - 1);
        assert(pretty_elems(s.take(i), ind) =~= pretty_elems(s.take(i - 1), ind) + (if i == 1 {
            Seq::<char>::empty()
        } else {
            seq![',']
        }) + seq!['\n'] + ind + pretty_chars(s[i - 1], ind));
    }
}

proof fn lemma_pretty_fields_take(s: Seq<(Seq<char>, JsonModel)>, ind: Seq<char>, i: int)
    requires
        0 < i <= s.len(),
    ensures
        pretty_fields(s.take(i), ind) == pretty_fields(s.take(i - 1), ind) + (if i == 1 {
            Seq::<char>::empty()
        } else {
            seq![',']
        }) + seq!['\n'] + ind + quoted(s[i - 1].0) + seq![':', ' '] + pretty_chars(
            s[i - 1].1,
            ind,
        ),
    decreases i,
{
    if i == 1 {
        assert(s.take(1) =~= seq![s[0]]);
        assert(s.take(0) =~= Seq::<(Seq<char>, JsonModel)>::empty());
        assert(pretty_fields(s.take(1), ind) =~= pretty_fields(s.take(0), ind)
            + Seq::<char>::empty() + seq!['\n'] + ind + quoted(s[0].0) + seq![':', ' ']
            + pretty_chars(s[0].1, ind));
    } else {
        lemma_pretty_fields_take(s.drop_first(), ind, i - 1);
        assert(s.take(i).drop_first() =~= s.drop_first().take(i - 1));
        assert(s.take(i - 1).drop_first() =~= s.drop_first().take(i - 2));
        assert(s.take(i)[0] == s[0]);
        assert(s.take(i - 1)[0] == s[0]);
        assert(s.drop_first()[i - 2] == s[i - 1]);
        assert(s.take(i).len() == i);
        assert(s.take(i - 1).len() == i - 1);
        assert(pretty_fields(s.take(i), ind) =~= pretty_fields(s.take(i - 1), ind) + (if i == 1 {
            Seq::<char>::empty()
        } else {
            seq![',']
        }) + seq!['\n'] + ind + quoted(s[i - 1].0) + seq![':', ' '] + pretty_chars(
            s[i - 1].1,
            ind,
        ));
    }
}

proof fn lemma_compact_elems_take(s: Seq<JsonModel>, i: int)
    requires
        0 < i <= s.len(),
    ensures
        compact_elems(s.take(i)) == compact_elems(s.take(i - 1)) + (if i == 1 {
            Seq::<char>::empty()
        } else {
            seq![',']
        }) + compact_chars(s[i - 1]),
    decreases i,
{
    if i == 1 {
        assert(s.take(1) =~= seq![s[0]]);
        assert(s.take(0) =~= Seq::<JsonModel>::empty());
        assert(compact_elems(s.take(1)) =~= compact_elems(s.take(0)) + Seq::<char>::empty()
            + compact_chars(s[0]));
    } else {
        lemma_compact_elems_take(s.drop_first(), i - 1);
        assert(s.take(i).drop_first() =~= s.drop_first().take(i - 1));
        assert(s.take(i - 1).drop_first() =~= s.drop_first().take(i - 2));
        assert(s.take(i)[0] == s[0]);
        assert(s.take(i - 1)[0] == s[0]);
        assert(s.drop_first()[i - 2] == s[i - 1]);
        assert(s.take(i).len() == i);
        assert(s.take(i - 1).len() == i - 1);
        assert(compact_elems(s.take(i)) =~= compact_elems(s.take(i - 1)) + (if i == 1 {
            Seq::<char>::empty()
        } else {
            seq![',']
        }) + compact_chars(s[i - 1]));
    }
}

proof fn lemma_compact_fields_take(s: Seq<(Seq<char>, JsonModel)>, i: int)
    requires
        0 < i <= s.len(),
    ensures
        compact_fields(s.take(i)) == compact_fields(s.take(i - 1)) + (if i == 1 {
            Seq::<char>::empty()
        } else {
            seq![',']
        }) + quoted(s[i - 1].0) + seq![':'] + compact_chars(s[i - 1].1),
    decreases i,
{
    if i == 1 {
        assert(s.take(1) =~= seq![s[0]]);
        assert(s.take(0) =~= Seq::<(Seq<char>, JsonModel)>::empty());
        assert(compact_fields(s.take(1)) =~= compact_fields(s.take(0)) + Seq::<char>::empty()
            + quoted(s[0].0) + seq![':'] + compact_chars(s[0].1));
    } else {
        lemma_compact_fields_take(s.drop_first(), i - 1);
        assert(s.take(i).drop_first() =~= s.drop_first().take(i - 1));
        assert(s.take(i - 1).drop_first() =~= s.drop_first().take(i - 2));
        assert(s.take(i)[0] == s[0]);
        assert(s.take(i - 1)[0] == s[0]);
        assert(s.drop_first()[i - 2] == s[i - 1]);
        assert(s.take(i).len() == i);
        assert(s.take(i - 1).len() == i - 1);
        assert(compact_fields(s.take(i)) =~= compact_fields(s.take(i - 1)) + (if i == 1 {
            Seq::<char>::empty()
        } else {
            seq![',']
        }) + quoted(s[i - 1].0) + seq![':'] + compact_chars(s[i - 1].1));
    }
}

/// The position of the first slash at or after `i`, or the length when
/// there is none.
pub open spec fn slash_from(p: Seq<char>, i: int) -> int
    decreases p.len() - i,
{
    if i < 0 || i >= p.len() {
        p.len() as int
    } else if p[i] == '/' {
        i
    } else {
        slash_from(p, i + 1)
    }
}

/// The first slash is never before the start of the search.
pub proof fn lemma_slash_from_bounds(p: Seq<char>, i: int)
    requires
        0 <= i <= p.len(),
    ensures
        i <= slash_from(p, i) <= p.len(),
    decreases p.len() - i,
{
    if i < p.len() && p[i] != '/' {
        lemma_slash_from_bounds(p, i + 1);
    }
}

/// A reference token with its escapes undone: `~1` stands for a slash and
/// `~0` for a tilde.
pub open spec fn unescape_token(t: Seq<char>) -> Seq<char>
    decreases t.len(),
{
    if t.len() == 0 {
        Seq::empty()
    } else if t[0] == '~' && t.len() >= 2 && t[1] == '1' {
        seq!['/'] + unescape_token(t.skip(2))
    } else if t[0] == '~' && t.len() >= 2 && t[1] == '0' {
        seq!['~'] + unescape_token(t.skip(2))
    } else {
        seq![t[0]] + unescape_token(t.drop_first())
    }
}

/// The value of the first member with the given name, if any.
pub open spec fn obj_lookup(fields: Seq<(Seq<char>, JsonModel)>, key: Seq<char>) -> Option<
    JsonModel,
>
    decreases fields.len(),
{
    if fields.len() == 0 {
        None
    } else if fields[0].0 == key {
        Some(fields[0].1)
    } else {
        obj_lookup(fields.drop_first(), key)
    }
}

/// Whether a token is a well-formed array index: digits only, with no
/// leading zero.
pub open spec fn is_array_token(t: Seq<char>) -> bool {
    t.len() > 0 && all_dec_digits(t) && (t.len() == 1 || t[0] != '0')
}

/// Navigation from position `i` of the pointer: one reference token per
/// slash-separated segment, member lookup in objects and index lookup in
/// arrays.
pub open spec fn nav_path(v: JsonModel, p: Seq<char>, i: int) -> Option<JsonModel>
    decreases p.len() - i,
    via nav_path_decreases
{
    let s = slash_from(p, i);
    let token = unescape_token(p.subrange(i, s));
    let child = match v {
        JsonModel::Object(o) => obj_lookup(o, token),
        JsonModel::Array(a) => if is_array_token(token) && dec_value(token) < a.len() {
            Some(a[dec_value(token) as int])
        } else {
            None
        },
        _ => None,
    };
    match child {
        None => None,
        Some(c) => if s == p.len() {
            Some(c)
        } else {
            nav_path(c, p, s + 1)
        },
    }
}

#[via_fn]
proof fn nav_path_decreases(v: JsonModel, p: Seq<char>, i: int) {
    if 0 <= i <= p.len() {
        lemma_slash_from_bounds(p, i);
    }
}

/// What a JSON pointer resolves to: the whole document for the empty
/// pointer, nothing for one that does not start with a slash, and token
/// navigation otherwise.
pub open spec fn json_pointer(v: JsonModel, p: Seq<char>) -> Option<JsonModel> {
    if p.len() == 0 {
        Some(v)
    } else if p[0] != '/' {
        None
    } else {
        nav_path(v, p, 1)
    }
}

/// Finds the first slash at or after `from`, or the length.
fn find_slash(p: &str, from: usize) -> (r: usize)
    requires
        from <= p@.len(),
    ensures
        r == slash_from(p@, from as int),
        from <= r <= p@.len(),
{
    let n = p.unicode_len();
    let mut i: usize = from;
    while i < n
        invariant
            n == p@.len(),
            from <= i <= n,
            slash_from(p@, from as int) == slash_from(p@, i as int),
        decreases n - i,
    {
        if p.get_char(i) == '/' {
            return i;
        }
        i = i + 1;
    }
    i
}

/// Reads the reference token between positions `i` and `s`, undoing the
/// `~1` and `~0` escapes.
fn read_token(p: &str, i: usize, s: usize) -> (t: String)
    requires
        i <= s <= p@.len(),
    ensures
        t@ == unescape_token(p@.subrange(i as int, s as int)),
{
    let mut t = String::new();
    let mut j: usize = i;
    while j < s
        invariant
            i <= j <= s <= p@.len(),
            unescape_token(p@.subrange(i as int, s as int)) == t@ + unescape_token(
                p@.subrange(j as int, s as int),
            ),
        decreases s - j,
    {
        let ghost rem = p@.subrange(j as int, s as int);
        let c = p.get_char(j);
        if c == '~' && j + 1 < s {
            let c2 = p.get_char(j + 1);
            if c2 == '1' {
                push_char(&mut t, '/');
                proof {
                    assert(rem.skip(2) =~= p@.subrange(j + 2, s as int));
                    assert(unescape_token(rem) =~= seq!['/'] + unescape_token(rem.skip(2)));
                }
                j = j + 2;
                continue ;
            }
            if c2 == '0' {
                push_char(&mut t, '~');
                proof {
                    assert(rem.skip(2) =~= p@.subrange(j + 2, s as int));
                    assert(unescape_token(rem) =~= seq!['~'] + unescape_token(rem.skip(2)));
                }
                j = j + 2;
                continue ;
            }
        }
        push_char(&mut t, c);
        proof {
            assert(rem.drop_first() =~= p@.subrange(j + 1, s as int));
            assert(unescape_token(rem) =~= seq![rem[0]] + unescape_token(rem.drop_first()));
        }
        j = j + 1;
    }
    proof {
        assert(p@.subrange(s as int, s as int) =~= Seq::<char>::empty());
        assert(t@ =~= unescape_token(p@.subrange(i as int, s as int)));
    }
    t
}

/// Finds the value of the first member with the given name, if any.
pub fn obj_find<'a>(o: &'a Vec<(String, JsonValue)>, key: &str) -> (r: Option<&'a JsonValue>)
    ensures
        match r {
            Some(c) => obj_lookup(json_view_fields(o@), key@) == Some(c@),
            None => obj_lookup(json_view_fields(o@), key@) is None,
        },
{
    let ghost m = json_view_fields(o@);
    proof {
        lemma_json_view_fields(o@);
        assert(m.skip(0) =~= m);
    }
    let mut k: usize = 0;
    while k < o.len()
        invariant
            k <= o@.len(),
            m == json_view_fields(o@),
            m.len() == o@.len(),
            forall|q: int| 0 <= q < o@.len() ==> #[trigger] m[q] == (o@[q].0@, o@[q].1@),
            obj_lookup(m, key@) == obj_lookup(m.skip(k as int), key@),
        decreases o@.len() - k,
    {
        proof {
            assert(m.skip(k as int)[0] == m[k as int]);
            assert(m.skip(k as int).drop_first() =~= m.skip(k + 1));
        }
        if crate::text::str_eq(o[k].0.as_str(), key) {
            return Some(&o[k].1);
        }
        k = k + 1;
    }
    proof {
        assert(m.skip(o@.len() as int) =~= Seq::<(Seq<char>, JsonModel)>::empty());
    }
    None
}

impl JsonValue {
    /// Resolves a JSON pointer against this value, as RFC 6901 describes:
    /// the empty pointer names the whole document, each `/`-separated token
    /// names a member of an object or a decimal index (with no leading
    /// zero) of an array, and `~1`/`~0` stand for `/` and `~`.
    pub fn pointer(&self, path: &str) -> (r: Option<&JsonValue>)
        ensures
            match r {
                Some(c) => json_pointer(self@, path@) == Some(c@),
                None => json_pointer(self@, path@) is None,
            },
    {
        let n = path.unicode_len();
        if n == 0 {
            return Some(self);
        }
        if path.get_char(0) != '/' {
            return None;
        }
        self.nav(path, 1)
    }

    /// Navigates the pointer's tokens from position `i` on.
    fn nav(&self, p: &str, i: usize) -> (r: Option<&JsonValue>)
        requires
            i <= p@.len(),
        ensures
            match r {
                Some(c) => nav_path(self@, p@, i as int) == Some(c@),
                None => nav_path(self@, p@, i as int) is None,
            },
        decreases p@.len() - i,
    {
        let s = find_slash(p, i);
        let token = read_token(p, i, s);
        let ghost tok = unescape_token(p@.subrange(i as int, s as int));
        let ghost schild = (match self@ {
            JsonModel::Object(o) => obj_lookup(o, tok),
            JsonModel::Array(a) => if is_array_token(tok) && dec_value(tok) < a.len() {
                Some(a[dec_value(tok) as int])
            } else {
                None
            },
            _ => None,
        });
        let child: Option<&JsonValue> = match self {
            JsonValue::Object(o) => {
                let r = obj_find(o, token.as_str());
                proof {
                    assert(r matches Some(c) ==> schild == Some(c@));
                    assert(r is None ==> schild is None);
                }
                r
            },
            JsonValue::Array(a) => {
                let ghost m = json_view_seq(a@);
                proof {
                    lemma_json_view_seq(a@);
                }
                let r = match Self::parse_index(token.as_str(), a.len()) {
                    Some(idx) => Some(&a[idx]),
                    None => None,
                };
                proof {
                    assert(r matches Some(c) ==> schild == Some(c@));
                    assert(r is None ==> schild is None);
                }
                r
            },
            _ => None,
        };
        match child {
            None => {
                proof {
                    assert(schild is None);
                    assert(nav_path(self@, p@, i as int) is None);
                }
                None
            },
            Some(c) => {
                proof {
                    assert(schild == Some(c@));
                }
                if s == p.unicode_len() {
                    Some(c)
                } else {
                    c.nav(p, s + 1)
                }
            },
        }
    }

    /// Parses an array-index token: decimal digits with no leading zero,
    /// whose value is below `len`.
    fn parse_index(t: &str, len: usize) -> (r: Option<usize>)
        ensures
            match r {
                Some(idx) => is_array_token(t@) && dec_value(t@) < len && idx as nat == dec_value(
                    t@,
                ),
                None => !(is_array_token(t@) && dec_value(t@) < len),
            },
    {
        let n = t.unicode_len();
        if n == 0 {
            return None;
        }
        if n > 1 && t.get_char(0) == '0' {
            return None;
        }
        if len == 0 {
            return None;
        }
        let mut acc: u128 = 0;
        let mut i: usize = 0;
        while i < n
            invariant
                n == t@.len(),
                0 < n,
                i <= n,
                crate::text::all_dec_digits(t@.take(i as int)),
                acc as nat == dec_value(t@.take(i as int)),
                acc < len,
            decreases n - i,
        {
            let c = t.get_char(i);
            if c < '0' || c > '9' {
                assert(!is_dec_digit(t@[i as int]));
                return None;
            }
            let d: u128 = (c as u128) - 48;
            let next: u128 = acc * 10 + d;
            proof {
                assert(t@.take(i + 1).drop_last() =~= t@.take(i as int));
                assert(t@.take(i + 1).last() == t@[i as int]);
            }
            if next >= len as u128 {
                if i + 1 == n {
                    proof {
                        assert(t@.take(n as int) =~= t@);
                    }
                    return None;
                }
                proof {
                    if len as nat >= 1 {
                        lemma_dec_value_take_mono(t@, i + 1, (len - 1) as nat);
                    }
                }
                return None;
            }
            acc = next;
            i = i + 1;
        }
        proof {
            assert(t@.take(n as int) =~= t@);
        }
        Some(acc as usize)
    }
}

/// With no slash in the range, the search runs to the end.
pub proof fn lemma_slash_from_none(p: Seq<char>, i: int)
    requires
        0 <= i <= p.len(),
        forall|j: int| i <= j < p.len() ==> p[j] != '/',
    ensures
        slash_from(p, i) == p.len(),
    decreases p.len() - i,
{
    if i < p.len() {
        lemma_slash_from_none(p, i + 1);
    }
}

/// A token without a tilde is its own unescaped form.
pub proof fn lemma_unescape_plain(t: Seq<char>)
    requires
        forall|j: int| 0 <= j < t.len() ==> t[j] != '~',
    ensures
        unescape_token(t) == t,
    decreases t.len(),
{
    if t.len() > 0 {
        assert forall|j: int| 0 <= j < t.drop_first().len() implies t.drop_first()[j]
            != '~' by {
            assert(t.drop_first()[j] == t[j + 1]);
        }
        lemma_unescape_plain(t.drop_first());
        assert(unescape_token(t) =~= t);
    }
}

} // verus!
