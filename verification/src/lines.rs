//! Executable forms of the line-level rules of `model`.

use vstd::prelude::*;
use crate::model::{
    action_line_ok, action_of, block_name, clean_line, def_decl_of, header_inner, is_bare_colon,
    is_content, is_reserved_block, key_value, line_field, state_header_of, state_header_ok,
    state_type_of, var_decl_of, var_decl_ok, variable_line_of, variable_line_ok,
    variable_type_of, ParsedAction, ParsedVariable, StateType, VariableMutability, VariableType,
};
use crate::syntax::{parse_arguments_chars, strip_inline_comment_chars};
use crate::text::{chars_to_string, eq_str, find, is_header, rfind, starts_with_str, sub_chars, trim_chars};

verus! {

/// Strings from character vectors.
pub fn strings_of(v: &Vec<Vec<char>>) -> (r: Vec<String>)
    ensures
        r.deep_view() == v@.map_values(|a: Vec<char>| a@),
{
    let mut r: Vec<String> = Vec::new();
    let mut i: usize = 0;
    while i < v.len()
        invariant
            i <= v.len(),
            r@.len() == i,
            forall|j: int| 0 <= j < i ==> #[trigger] r@[j]@ == v@[j]@,
        decreases v.len() - i,
    {
        r.push(chars_to_string(&v[i]));
        i = i + 1;
    }
    assert(r.deep_view() =~= v@.map_values(|a: Vec<char>| a@));
    r
}

/// A line without its inline comment, trimmed.
pub fn clean_chars(line: &Vec<char>) -> (r: Vec<char>)
    ensures
        r@ == clean_line(line@),
{
    let s = strip_inline_comment_chars(line);
    trim_chars(&s)
}

/// `Key: Value` split at the first colon.
pub fn key_value_chars(s: &Vec<char>) -> (r: Option<(Vec<char>, Vec<char>)>)
    ensures
        r matches Some((k, v)) ==> key_value(s@) == Some((k@, v@)),
        r is None ==> key_value(s@) is None,
{
    match find(s, ':') {
        Some(p) => {
            let k = sub_chars(s, 0, p);
            let v = sub_chars(s, p + 1, s.len());
            Some((trim_chars(&k), trim_chars(&v)))
        },
        None => None,
    }
}

/// Whether the trimmed line is not empty and not a comment line.
pub fn is_content_chars(line: &Vec<char>) -> (r: bool)
    ensures
        r == is_content(line@),
{
    line.len() > 0 && line[0] != '#'
}

/// The key-value pair of a trimmed block line.
pub fn line_field_chars(line: &Vec<char>) -> (r: Option<(Vec<char>, Vec<char>)>)
    ensures
        r matches Some((k, v)) ==> line_field(line@) == Some((k@, v@)),
        r is None ==> line_field(line@) is None,
{
    if is_content_chars(line) {
        let c = clean_chars(line);
        key_value_chars(&c)
    } else {
        None
    }
}

/// The variable type named by `s`.
pub fn variable_type_from(s: &Vec<char>) -> (r: VariableType)
    ensures
        r == variable_type_of(s@),
{
    if eq_str(s, "Int") {
        VariableType::Int
    } else if eq_str(s, "Str") {
        VariableType::Str
    } else if eq_str(s, "Var") {
        VariableType::Var
    } else if eq_str(s, "Vec2") {
        VariableType::Vec2
    } else if eq_str(s, "Vec3") {
        VariableType::Vec3
    } else if eq_str(s, "Box") {
        VariableType::Box
    } else if eq_str(s, "Bool") {
        VariableType::Bool
    } else {
        VariableType::Var
    }
}

/// The state type named by `s`.
pub fn state_type_from(s: &Vec<char>) -> (r: StateType)
    ensures
        r == state_type_of(s@),
{
    if eq_str(s, "Helper") {
        StateType::Helper
    } else if eq_str(s, "BaseState") {
        StateType::BaseState
    } else if eq_str(s, "Special") {
        StateType::Special
    } else if eq_str(s, "Specblock") {
        StateType::Specblock
    } else {
        StateType::Normal
    }
}

/// The variable of a `var` declaration (the text after `var `).
pub fn var_decl_chars(line: &Vec<char>) -> (r: Option<ParsedVariable>)
    requires
        var_decl_ok(line@),
    ensures
        r.deep_view() == var_decl_of(line@),
{
    let c = match find(line, ':') {
        Some(c) => c,
        None => {
            return None;
        },
    };
    let np0 = sub_chars(line, 0, c);
    let np = trim_chars(&np0);
    let v0 = sub_chars(line, c + 1, line.len());
    let value = trim_chars(&v0);
    let op = find(&np, '(');
    let cp = find(&np, ')');
    match (op, cp) {
        (Some(op), Some(cp)) => {
            let n0 = sub_chars(&np, 0, op);
            let name = trim_chars(&n0);
            let t0 = sub_chars(&np, op + 1, cp);
            let ts = trim_chars(&t0);
            match find(&ts, ',') {
                Some(cm) => {
                    let m0 = sub_chars(&ts, 0, cm);
                    let main = trim_chars(&m0);
                    let s0 = sub_chars(&ts, cm + 1, ts.len());
                    let sub = trim_chars(&s0);
                    Some(
                        ParsedVariable {
                            name: chars_to_string(&name),
                            mutability: VariableMutability::Variable,
                            var_type: variable_type_from(&main),
                            subtype: chars_to_string(&sub),
                            value: chars_to_string(&value),
                        },
                    )
                },
                None => {
                    let e: Vec<char> = Vec::new();
                    let r = Some(
                        ParsedVariable {
                            name: chars_to_string(&name),
                            mutability: VariableMutability::Variable,
                            var_type: variable_type_from(&ts),
                            subtype: chars_to_string(&e),
                            value: chars_to_string(&value),
                        },
                    );
                    assert(e@ =~= Seq::<char>::empty());
                    r
                },
            }
        },
        _ => None,
    }
}

/// The constant of a `def` declaration (the text after `def `).
pub fn def_decl_chars(line: &Vec<char>) -> (r: Option<ParsedVariable>)
    ensures
        r.deep_view() == def_decl_of(line@),
{
    match find(line, ':') {
        Some(c) => {
            let n0 = sub_chars(line, 0, c);
            let name = trim_chars(&n0);
            let v0 = sub_chars(line, c + 1, line.len());
            let value = trim_chars(&v0);
            let e: Vec<char> = Vec::new();
            assert(e@ =~= Seq::<char>::empty());
            Some(
                ParsedVariable {
                    name: chars_to_string(&name),
                    mutability: VariableMutability::Define,
                    var_type: VariableType::Var,
                    subtype: chars_to_string(&e),
                    value: chars_to_string(&value),
                },
            )
        },
        None => None,
    }
}

/// Whether a cleaned `:Variables:` line can be parsed without panic.
pub fn variable_line_ok_chars(line: &Vec<char>) -> (r: bool)
    ensures
        r == variable_line_ok(line@),
{
    proof {
        reveal_strlit("var ");
    }
    if starts_with_str(line, "var ") {
        let rest = sub_chars(line, 4, line.len());
        assert(rest@ =~= line@.skip(4));
        match find(&rest, ':') {
            None => true,
            Some(c) => {
                let np0 = sub_chars(&rest, 0, c);
                let np = trim_chars(&np0);
                match (find(&np, '('), find(&np, ')')) {
                    (Some(op), Some(cp)) => op < cp,
                    _ => true,
                }
            },
        }
    } else {
        true
    }
}

/// The variable that a cleaned `:Variables:` line defines.
pub fn variable_line_chars(line: &Vec<char>) -> (r: Option<ParsedVariable>)
    requires
        variable_line_ok(line@),
    ensures
        r.deep_view() == variable_line_of(line@),
{
    proof {
        reveal_strlit("var ");
        reveal_strlit("def ");
    }
    if starts_with_str(line, "var ") {
        let rest = sub_chars(line, 4, line.len());
        assert(rest@ =~= line@.skip(4));
        var_decl_chars(&rest)
    } else if starts_with_str(line, "def ") {
        let rest = sub_chars(line, 4, line.len());
        assert(rest@ =~= line@.skip(4));
        def_decl_chars(&rest)
    } else {
        None
    }
}

/// Whether a state header can be split without panic.
pub fn state_header_ok_chars(h: &Vec<char>) -> (r: bool)
    ensures
        r == state_header_ok(h@),
{
    match (find(h, '('), rfind(h, ')')) {
        (Some(ps), Some(pe)) => ps < pe,
        _ => true,
    }
}

/// Name, type and parent of a state header.
pub fn state_header_chars(h: &Vec<char>) -> (r: (Vec<char>, StateType, Option<Vec<char>>))
    requires
        state_header_ok(h@),
    ensures
        (r.0@, r.1, r.2.deep_view()) == state_header_of(h@),
{
    match (find(h, '('), rfind(h, ')')) {
        (Some(ps), Some(pe)) => {
            let n0 = sub_chars(h, 0, ps);
            let name = trim_chars(&n0);
            let p0 = sub_chars(h, ps + 1, pe);
            let params = trim_chars(&p0);
            match find(&params, ',') {
                Some(cm) => {
                    let t0 = sub_chars(&params, 0, cm);
                    let t = trim_chars(&t0);
                    let q0 = sub_chars(&params, cm + 1, params.len());
                    let parent = trim_chars(&q0);
                    (name, state_type_from(&t), Some(parent))
                },
                None => {
                    let t = state_type_from(&params);
                    if t != StateType::Normal {
                        (name, t, None)
                    } else {
                        (name, StateType::Normal, Some(params))
                    }
                },
            }
        },
        _ => {
            let n = h.len();
            let c = sub_chars(h, 0, n);
            assert(c@ =~= h@);
            (c, StateType::Normal, None)
        },
    }
}

/// The action of a cleaned state line.
pub fn action_chars(line: &Vec<char>, line_number: usize) -> (r: Option<ParsedAction>)
    requires
        action_line_ok(line@),
    ensures
        r.deep_view() == action_of(line@, line_number),
{
    match find(line, '(') {
        None => {
            let args: Vec<String> = Vec::new();
            assert(args.deep_view() =~= Seq::<Seq<char>>::empty());
            Some(ParsedAction { instruction: chars_to_string(line), args, line_number })
        },
        Some(op) => match rfind(line, ')') {
            None => None,
            Some(cp) => {
                let i0 = sub_chars(line, 0, op);
                let instruction = trim_chars(&i0);
                let a0 = sub_chars(line, op + 1, cp);
                let args = parse_arguments_chars(&a0);
                Some(
                    ParsedAction {
                        instruction: chars_to_string(&instruction),
                        args: strings_of(&args),
                        line_number,
                    },
                )
            },
        },
    }
}

/// The text between the colons of a header line.
pub fn header_inner_chars(line: &Vec<char>) -> (r: Vec<char>)
    requires
        is_header(line@),
        !is_bare_colon(line@),
    ensures
        r@ == header_inner(line@),
{
    sub_chars(line, 1, line.len() - 1)
}

/// The name of a header line.
pub fn block_name_chars(line: &Vec<char>) -> (r: Vec<char>)
    requires
        is_header(line@),
        !is_bare_colon(line@),
    ensures
        r@ == block_name(line@),
{
    let full = header_inner_chars(line);
    match find(&full, '(') {
        Some(p) => {
            let n0 = sub_chars(&full, 0, p);
            trim_chars(&n0)
        },
        None => full,
    }
}

/// Whether a name is `Character` or `Variables`.
pub fn is_reserved_block_chars(name: &Vec<char>) -> (r: bool)
    ensures
        r == is_reserved_block(name@),
{
    eq_str(name, "Character") || eq_str(name, "Variables")
}

} // verus!
