//! The value that a variable's text stands for, by the variable's type.
//!
//! Integers, booleans and strings are read here. Numbers with a fraction
//! and vectors are handed over as text, to be read as floating-point
//! numbers by the caller; whether a text reads as one is the caller's
//! answer too.

use vstd::prelude::*;
use crate::global::{split_fields, views};
use crate::model::{bool_word, ParsedVariable, VariableType};
use crate::numbers::{eq_ignore_case, eq_ignore_case_chars, parse_i32, parse_i32_chars};
use crate::parser::CastagneParser;
use crate::text::{chars_to_string, str_to_chars, sub_chars, trim, trim_chars, trimmed};

verus! {

/// The value of a variable's text.
#[derive(Debug, Clone, PartialEq, Eq)]
pub enum ParsedValue {
    /// No value: the text does not read as the type asks.
    Nil,
    Int(i32),
    Bool(bool),
    Str(String),
    /// A floating-point number, as text.
    Float(String),
    /// A two-component vector, each component as text.
    Vec2(String, String),
    /// A three-component vector, each component as text.
    Vec3(String, String, String),
}

/// A parsed value, as characters.
pub enum ValueText {
    Nil,
    Int(i32),
    Bool(bool),
    Str(Seq<char>),
    Float(Seq<char>),
    Vec2(Seq<char>, Seq<char>),
    Vec3(Seq<char>, Seq<char>, Seq<char>),
}

impl DeepView for ParsedValue {
    type V = ValueText;

    open spec fn deep_view(&self) -> ValueText {
        match self {
            ParsedValue::Nil => ValueText::Nil,
            ParsedValue::Int(n) => ValueText::Int(*n),
            ParsedValue::Bool(b) => ValueText::Bool(*b),
            ParsedValue::Str(s) => ValueText::Str(s@),
            ParsedValue::Float(s) => ValueText::Float(s@),
            ParsedValue::Vec2(x, y) => ValueText::Vec2(x@, y@),
            ParsedValue::Vec3(x, y, z) => ValueText::Vec3(x@, y@, z@),
        }
    }
}

/// Whether `c` is a parenthesis.
pub open spec fn is_paren(c: char) -> bool {
    c == '(' || c == ')'
}

/// `s` without its leading parentheses.
pub open spec fn trim_start_parens(s: Seq<char>) -> Seq<char>
    decreases s.len(),
{
    if s.len() > 0 && is_paren(s[0]) {
        trim_start_parens(s.drop_first())
    } else {
        s
    }
}

/// `s` without its trailing parentheses.
pub open spec fn trim_end_parens(s: Seq<char>) -> Seq<char>
    decreases s.len(),
{
    if s.len() > 0 && is_paren(s.last()) {
        trim_end_parens(s.drop_last())
    } else {
        s
    }
}

/// The trimmed components of a vector's text: parentheses around it
/// dropped, split at commas.
pub open spec fn vector_parts(s: Seq<char>) -> Seq<Seq<char>> {
    split_fields(trim_end_parens(trim_start_parens(s)), ","@).map_values(|f: Seq<char>| trim(f))
}

/// Whether `t` is quoted: it starts and ends with the same quote mark.
pub open spec fn is_quoted(t: Seq<char>) -> bool {
    t.len() > 0 && ((t[0] == '"' && t.last() == '"') || (t[0] == '\'' && t.last() == '\''))
}

/// The value of the text `s` for a variable of type `t`. `float_ok` says
/// whether the trimmed text reads as a floating-point number.
pub open spec fn value_of(s: Seq<char>, t: VariableType, float_ok: bool) -> ValueText {
    let tr = trim(s);
    match t {
        VariableType::Int => match parse_i32(tr) {
            Some(n) => ValueText::Int(n),
            None => ValueText::Nil,
        },
        VariableType::Bool => ValueText::Bool(bool_word(tr) == Some(true)),
        VariableType::Str => if is_quoted(tr) {
            ValueText::Str(tr.subrange(1, tr.len() - 1))
        } else {
            ValueText::Str(tr)
        },
        VariableType::Vec2 => {
            let p = vector_parts(tr);
            if p.len() == 2 {
                ValueText::Vec2(p[0], p[1])
            } else {
                ValueText::Nil
            }
        },
        VariableType::Vec3 => {
            let p = vector_parts(tr);
            if p.len() == 3 {
                ValueText::Vec3(p[0], p[1], p[2])
            } else {
                ValueText::Nil
            }
        },
        VariableType::Var | VariableType::Box => match parse_i32(tr) {
            Some(n) => ValueText::Int(n),
            None => if float_ok {
                ValueText::Float(tr)
            } else if eq_ignore_case(tr, "true"@) {
                ValueText::Bool(true)
            } else if eq_ignore_case(tr, "false"@) {
                ValueText::Bool(false)
            } else {
                ValueText::Str(tr)
            },
        },
    }
}

/// `c` with an ASCII capital letter turned into its small letter.
pub open spec fn ascii_lower(c: char) -> char {
    if 'A' <= c && c <= 'Z' {
        ((c as int) + 32) as char
    } else {
        c
    }
}

/// `s` with every ASCII capital letter turned into its small letter.
pub open spec fn lowered(s: Seq<char>) -> Seq<char> {
    s.map_values(|c: char| ascii_lower(c))
}

proof fn lemma_ignore_case_is_lowered(s: Seq<char>, w: Seq<char>)
    requires
        forall|i: int| 0 <= i < w.len() ==> 'a' <= #[trigger] w[i] && w[i] <= 'z',
    ensures
        eq_ignore_case(s, w) <==> lowered(s) == w,
{
    if eq_ignore_case(s, w) {
        assert(lowered(s) =~= w);
    }
    if lowered(s) == w {
        assert forall|i: int| 0 <= i < s.len() implies crate::numbers::lowers_to(#[trigger] s[i], w[i]) by {
            assert(lowered(s)[i] == ascii_lower(s[i]));
        }
    }
}

/// For a variable of type Var or Box, a text that reads neither as an
/// integer nor as a floating-point number, and whose trimmed form is
/// `true` or `false` once ASCII capitals are made small, gives the boolean
/// that the small form names: `True`, `FALSE` and `false` all read as
/// booleans.
pub proof fn lemma_inferred_bool(s: Seq<char>, t: VariableType)
    requires
        t is Var || t is Box,
        parse_i32(trim(s)) is None,
    ensures
        lowered(trim(s)) == "true"@ ==> value_of(s, t, false) == ValueText::Bool(true),
        lowered(trim(s)) == "false"@ ==> value_of(s, t, false) == ValueText::Bool(false),
{
    reveal_strlit("true");
    reveal_strlit("false");
    assert forall|i: int| 0 <= i < "true"@.len() implies 'a' <= #[trigger] "true"@[i] && "true"@[i] <= 'z' by {}
    assert forall|i: int| 0 <= i < "false"@.len() implies 'a' <= #[trigger] "false"@[i] && "false"@[i] <= 'z' by {}
    lemma_ignore_case_is_lowered(trim(s), "true"@);
    lemma_ignore_case_is_lowered(trim(s), "false"@);
    if lowered(trim(s)) == "false"@ {
        assert(lowered(trim(s)) != "true"@);
    }
}

/// The components of a vector's text.
fn vector_parts_of(t: &Vec<char>) -> (r: Vec<String>)
    ensures
        r.deep_view() == vector_parts(t@),
{
    // Leading parentheses.
    let mut a: usize = 0;
    assert(t@.skip(0) =~= t@);
    while a < t.len() && (t[a] == '(' || t[a] == ')')
        invariant
            a <= t.len(),
            trim_start_parens(t@) == trim_start_parens(t@.skip(a as int)),
        decreases t.len() - a,
    {
        assert(t@.skip(a as int).drop_first() =~= t@.skip(a as int + 1));
        a = a + 1;
    }
    let mut b: usize = t.len();
    assert(t@.subrange(a as int, t.len() as int) =~= t@.skip(a as int));
    while b > a && (t[b - 1] == '(' || t[b - 1] == ')')
        invariant
            a <= b <= t.len(),
            trim_end_parens(trim_start_parens(t@)) == trim_end_parens(t@.subrange(a as int, b as int)),
        decreases b,
    {
        assert(t@.subrange(a as int, b as int).drop_last() =~= t@.subrange(a as int, b - 1));
        b = b - 1;
    }
    let inner = sub_chars(t, a, b);
    let mut comma: Vec<char> = Vec::new();
    comma.push(',');
    proof {
        reveal_strlit(",");
        assert(comma@ =~= ","@);
    }
    let fields = crate::global::split_fields_exec(&inner, &comma);
    let ghost f = views(fields@);
    let mut r: Vec<String> = Vec::new();
    let mut i: usize = 0;
    while i < fields.len()
        invariant
            i <= fields.len(),
            f == views(fields@),
            f == split_fields(trim_end_parens(trim_start_parens(t@)), ","@),
            r.deep_view() == f.take(i as int).map_values(|x: Seq<char>| trim(x)),
        decreases fields.len() - i,
    {
        let part = trim_chars(&fields[i]);
        let ghost before = r.deep_view();
        r.push(chars_to_string(&part));
        assert(f[i as int] == fields@[i as int]@);
        assert(r.deep_view() =~= before.push(trim(f[i as int])));
        assert(r.deep_view() =~= f.take(i as int + 1).map_values(|x: Seq<char>| trim(x)));
        i = i + 1;
    }
    assert(f.take(f.len() as int) =~= f);
    r
}

impl CastagneParser {
    /// The value of the text `value_str` for a variable of type
    /// `var_type`. `parses_as_float` says whether the trimmed text reads as
    /// a 64-bit floating-point number.
    pub fn parse_value_to_variant(value_str: &str, var_type: &VariableType, parses_as_float: bool) -> (r: ParsedValue)
        requires
            *var_type is Str ==> !(trim(value_str@).len() == 1 && is_quoted(trim(value_str@))),
        ensures
            r.deep_view() == value_of(value_str@, *var_type, parses_as_float),
    {
        let t = trimmed(value_str);
        match var_type {
            VariableType::Int => match parse_i32_chars(&t) {
                Some(n) => ParsedValue::Int(n),
                None => ParsedValue::Nil,
            },
            VariableType::Bool => {
                let yes = eq_ignore_case_chars(&t, &str_to_chars("true")) || eq_ignore_case_chars(
                    &t,
                    &str_to_chars("1"),
                );
                ParsedValue::Bool(yes)
            },
            VariableType::Str => {
                let n = t.len();
                if n > 0 && ((t[0] == '"' && t[n - 1] == '"') || (t[0] == '\'' && t[n - 1] == '\'')) {
                    let inner = sub_chars(&t, 1, n - 1);
                    ParsedValue::Str(chars_to_string(&inner))
                } else {
                    ParsedValue::Str(chars_to_string(&t))
                }
            },
            VariableType::Vec2 => {
                let p = vector_parts_of(&t);
                if p.len() == 2 {
                    ParsedValue::Vec2(p[0].clone(), p[1].clone())
                } else {
                    ParsedValue::Nil
                }
            },
            VariableType::Vec3 => {
                let p = vector_parts_of(&t);
                if p.len() == 3 {
                    ParsedValue::Vec3(p[0].clone(), p[1].clone(), p[2].clone())
                } else {
                    ParsedValue::Nil
                }
            },
            VariableType::Var | VariableType::Box => match parse_i32_chars(&t) {
                Some(n) => ParsedValue::Int(n),
                None => {
                    if parses_as_float {
                        ParsedValue::Float(chars_to_string(&t))
                    } else if eq_ignore_case_chars(&t, &str_to_chars("true")) {
                        ParsedValue::Bool(true)
                    } else if eq_ignore_case_chars(&t, &str_to_chars("false")) {
                        ParsedValue::Bool(false)
                    } else {
                        ParsedValue::Str(chars_to_string(&t))
                    }
                },
            },
        }
    }
}

impl ParsedVariable {
    /// The value of this variable, by its type. `parses_as_float` says
    /// whether its trimmed text reads as a 64-bit floating-point number.
    pub fn to_variant(&self, parses_as_float: bool) -> (r: ParsedValue)
        requires
            self.var_type is Str ==> !(trim(self.value@).len() == 1 && is_quoted(trim(self.value@))),
        ensures
            r.deep_view() == value_of(self.value@, self.var_type, parses_as_float),
    {
        CastagneParser::parse_value_to_variant(self.value.as_str(), &self.var_type, parses_as_float)
    }
}

} // verus!
