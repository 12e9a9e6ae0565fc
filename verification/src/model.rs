//! The data that parsing a `.casp` file produces, and the meaning of each
//! kind of line, stated over character sequences.

use vstd::prelude::*;
use crate::str_map::{DeepClone, StrMap};
use crate::syntax::{split_args, strip_comment};
use crate::numbers::{eq_ignore_case, eq_ignore_case_chars, parse_i32, parse_i32_chars};
use crate::text::{find_char, is_header, rfind_char, starts_with, str_to_chars, trim, trimmed};

verus! {

// ---------------------------------------------------------------------------
// Kinds

/// Variable mutability types.
#[derive(Debug, Clone, Copy, PartialEq, Eq, Structural)]
pub enum VariableMutability {
    Variable,
    Define,
    Internal,
}

/// Variable types.
#[derive(Debug, Clone, Copy, PartialEq, Eq, Structural)]
pub enum VariableType {
    Int,
    Str,
    Var,
    Vec2,
    Vec3,
    Box,
    Bool,
}

/// State types.
#[derive(Debug, Clone, Copy, PartialEq, Eq, Structural)]
pub enum StateType {
    Normal,
    BaseState,
    Helper,
    Special,
    Specblock,
}

impl DeepView for VariableMutability {
    type V = VariableMutability;

    open spec fn deep_view(&self) -> VariableMutability {
        *self
    }
}

impl DeepView for VariableType {
    type V = VariableType;

    open spec fn deep_view(&self) -> VariableType {
        *self
    }
}

impl DeepView for StateType {
    type V = StateType;

    open spec fn deep_view(&self) -> StateType {
        *self
    }
}

// ---------------------------------------------------------------------------
// Parsed data and its models

/// Parsed variable definition.
#[derive(Debug, Clone)]
pub struct ParsedVariable {
    pub name: String,
    pub mutability: VariableMutability,
    pub var_type: VariableType,
    pub subtype: String,
    pub value: String,
}

/// A variable definition, as characters.
pub struct VariableModel {
    pub name: Seq<char>,
    pub mutability: VariableMutability,
    pub var_type: VariableType,
    pub subtype: Seq<char>,
    pub value: Seq<char>,
}

impl DeepView for ParsedVariable {
    type V = VariableModel;

    open spec fn deep_view(&self) -> VariableModel {
        VariableModel {
            name: self.name@,
            mutability: self.mutability,
            var_type: self.var_type,
            subtype: self.subtype@,
            value: self.value@,
        }
    }
}

impl DeepClone for ParsedVariable {
    fn deep_clone(&self) -> (r: ParsedVariable) {
        ParsedVariable {
            name: self.name.clone(),
            mutability: self.mutability,
            var_type: self.var_type,
            subtype: self.subtype.clone(),
            value: self.value.clone(),
        }
    }
}

/// The boolean that a trimmed value spells: `true` or `1` for true, `false`
/// or `0` for false, letters compared without regard to case.
pub open spec fn bool_word(s: Seq<char>) -> Option<bool> {
    if eq_ignore_case(s, "true"@) || eq_ignore_case(s, "1"@) {
        Some(true)
    } else if eq_ignore_case(s, "false"@) || eq_ignore_case(s, "0"@) {
        Some(false)
    } else {
        None
    }
}

impl ParsedVariable {
    /// The value as an integer, if its trimmed text is one.
    pub fn as_int(&self) -> (r: Option<i32>)
        ensures
            r == parse_i32(trim(self.value@)),
    {
        let t = trimmed(self.value.as_str());
        parse_i32_chars(&t)
    }

    /// The value as a boolean, if its trimmed text names one.
    pub fn as_bool(&self) -> (r: Option<bool>)
        ensures
            r == bool_word(trim(self.value@)),
    {
        let t = trimmed(self.value.as_str());
        if eq_ignore_case_chars(&t, &str_to_chars("true")) || eq_ignore_case_chars(
            &t,
            &str_to_chars("1"),
        ) {
            Some(true)
        } else if eq_ignore_case_chars(&t, &str_to_chars("false")) || eq_ignore_case_chars(
            &t,
            &str_to_chars("0"),
        ) {
            Some(false)
        } else {
            None
        }
    }
}

/// A parsed action/instruction.
#[derive(Debug, Clone)]
pub struct ParsedAction {
    pub instruction: String,
    pub args: Vec<String>,
    pub line_number: usize,
}

/// An action, as characters.
pub struct ActionModel {
    pub instruction: Seq<char>,
    pub args: Seq<Seq<char>>,
    pub line_number: usize,
}

impl DeepView for ParsedAction {
    type V = ActionModel;

    open spec fn deep_view(&self) -> ActionModel {
        ActionModel {
            instruction: self.instruction@,
            args: self.args.deep_view(),
            line_number: self.line_number,
        }
    }
}

impl DeepClone for ParsedAction {
    fn deep_clone(&self) -> (r: ParsedAction) {
        ParsedAction {
            instruction: self.instruction.clone(),
            args: self.args.deep_clone(),
            line_number: self.line_number,
        }
    }
}

/// Parsed state information: its actions are grouped by phase.
#[derive(Debug, Clone)]
pub struct ParsedState {
    pub name: String,
    pub state_type: StateType,
    pub parent: Option<String>,
    pub actions: StrMap<Vec<ParsedAction>>,
}

/// A state, as characters.
pub struct StateModel {
    pub name: Seq<char>,
    pub state_type: StateType,
    pub parent: Option<Seq<char>>,
    pub actions: Map<Seq<char>, Seq<ActionModel>>,
}

impl DeepView for ParsedState {
    type V = StateModel;

    open spec fn deep_view(&self) -> StateModel {
        StateModel {
            name: self.name@,
            state_type: self.state_type,
            parent: self.parent.deep_view(),
            actions: self.actions@,
        }
    }
}

impl DeepClone for ParsedState {
    fn deep_clone(&self) -> (r: ParsedState) {
        ParsedState {
            name: self.name.clone(),
            state_type: self.state_type,
            parent: self.parent.deep_clone(),
            actions: self.actions.deep_clone_map(),
        }
    }
}

/// Character metadata.
#[derive(Debug, Clone)]
pub struct CharacterMetadata {
    pub name: String,
    pub author: String,
    pub description: String,
    pub skeleton: Option<String>,
    pub other_fields: StrMap<String>,
}

/// Character metadata, as characters.
pub struct MetadataModel {
    pub name: Seq<char>,
    pub author: Seq<char>,
    pub description: Seq<char>,
    pub skeleton: Option<Seq<char>>,
    pub other_fields: Map<Seq<char>, Seq<char>>,
}

impl DeepView for CharacterMetadata {
    type V = MetadataModel;

    open spec fn deep_view(&self) -> MetadataModel {
        MetadataModel {
            name: self.name@,
            author: self.author@,
            description: self.description@,
            skeleton: self.skeleton.deep_view(),
            other_fields: self.other_fields@,
        }
    }
}

impl DeepClone for CharacterMetadata {
    fn deep_clone(&self) -> (r: CharacterMetadata) {
        CharacterMetadata {
            name: self.name.clone(),
            author: self.author.clone(),
            description: self.description.clone(),
            skeleton: self.skeleton.deep_clone(),
            other_fields: self.other_fields.deep_clone_map(),
        }
    }
}

/// Full parsed character data.
#[derive(Debug, Clone)]
pub struct ParsedCharacter {
    pub metadata: CharacterMetadata,
    pub variables: StrMap<ParsedVariable>,
    pub states: StrMap<ParsedState>,
    pub specblocks: StrMap<StrMap<String>>,
    pub subentities: StrMap<CharacterMetadata>,
    pub transformed_data: StrMap<StrMap<String>>,
}

/// Full character data, as characters.
pub struct CharacterModel {
    pub metadata: MetadataModel,
    pub variables: Map<Seq<char>, VariableModel>,
    pub states: Map<Seq<char>, StateModel>,
    pub specblocks: Map<Seq<char>, Map<Seq<char>, Seq<char>>>,
    pub subentities: Map<Seq<char>, MetadataModel>,
    pub transformed_data: Map<Seq<char>, Map<Seq<char>, Seq<char>>>,
}

impl DeepView for ParsedCharacter {
    type V = CharacterModel;

    open spec fn deep_view(&self) -> CharacterModel {
        CharacterModel {
            metadata: self.metadata.deep_view(),
            variables: self.variables@,
            states: self.states@,
            specblocks: self.specblocks@,
            subentities: self.subentities@,
            transformed_data: self.transformed_data@,
        }
    }
}

impl DeepClone for ParsedCharacter {
    fn deep_clone(&self) -> (r: ParsedCharacter) {
        ParsedCharacter {
            metadata: self.metadata.deep_clone(),
            variables: self.variables.deep_clone_map(),
            states: self.states.deep_clone_map(),
            specblocks: self.specblocks.deep_clone_map(),
            subentities: self.subentities.deep_clone_map(),
            transformed_data: self.transformed_data.deep_clone_map(),
        }
    }
}

/// The lines of a file, as characters.
pub type Lines = Seq<Seq<char>>;

/// Variable maps, state maps and specblock maps, as characters.
pub type VarMap = Map<Seq<char>, VariableModel>;

pub type StateMap = Map<Seq<char>, StateModel>;

pub type BlockMap = Map<Seq<char>, Map<Seq<char>, Seq<char>>>;

pub type FieldMap = Map<Seq<char>, Seq<char>>;

// ---------------------------------------------------------------------------
// Single lines

/// A trimmed line that carries content: not empty and not a comment line.
pub open spec fn is_content(line: Seq<char>) -> bool {
    line.len() > 0 && line[0] != '#'
}

/// A line without its inline comment, trimmed.
pub open spec fn clean_line(line: Seq<char>) -> Seq<char> {
    trim(strip_comment(line))
}

/// `Key: Value` split at the first colon, both sides trimmed.
pub open spec fn key_value(s: Seq<char>) -> Option<(Seq<char>, Seq<char>)> {
    match find_char(s, ':') {
        Some(p) => Some((trim(s.subrange(0, p)), trim(s.subrange(p + 1, s.len() as int)))),
        None => None,
    }
}

/// The key-value pair that a content line of a block holds, if any.
pub open spec fn line_field(line: Seq<char>) -> Option<(Seq<char>, Seq<char>)> {
    if is_content(line) {
        key_value(clean_line(line))
    } else {
        None
    }
}

/// Metadata after setting field `k` to `v`: the four named fields have
/// their own slots; every other key goes to `other_fields`.
pub open spec fn set_metadata_field(md: MetadataModel, k: Seq<char>, v: Seq<char>) -> MetadataModel {
    if k == "Name"@ {
        MetadataModel { name: v, ..md }
    } else if k == "Author"@ {
        MetadataModel { author: v, ..md }
    } else if k == "Description"@ {
        MetadataModel { description: v, ..md }
    } else if k == "Skeleton"@ {
        MetadataModel { skeleton: Some(v), ..md }
    } else {
        MetadataModel { other_fields: md.other_fields.insert(k, v), ..md }
    }
}

/// Metadata after one trimmed line of the `:Character:` block.
pub open spec fn apply_metadata_line(md: MetadataModel, line: Seq<char>) -> MetadataModel {
    match line_field(line) {
        Some((k, v)) => set_metadata_field(md, k, v),
        None => md,
    }
}

/// One line of the `:Character:` block: a content line `Key: Value` (split
/// at its first colon once its comment is stripped, both sides trimmed)
/// sets the name, author, description or skeleton for those four keys, and
/// for every other key adds `Key` with `Value` to the other fields; any
/// other line changes nothing. No `Key: Value` line is lost.
pub proof fn lemma_metadata_line(md: MetadataModel, line: Seq<char>)
    ensures
        ({
            let c = trim(strip_comment(line));
            let r = apply_metadata_line(md, line);
            if line.len() > 0 && line[0] != '#' && find_char(c, ':') is Some {
                let p = find_char(c, ':')->0;
                let k = trim(c.subrange(0, p));
                let v = trim(c.subrange(p + 1, c.len() as int));
                if k == "Name"@ {
                    r == MetadataModel { name: v, ..md }
                } else if k == "Author"@ {
                    r == MetadataModel { author: v, ..md }
                } else if k == "Description"@ {
                    r == MetadataModel { description: v, ..md }
                } else if k == "Skeleton"@ {
                    r == MetadataModel { skeleton: Some(v), ..md }
                } else {
                    &&& r.other_fields == md.other_fields.insert(k, v)
                    &&& r.other_fields[k] == v
                    &&& r.name == md.name
                    &&& r.author == md.author
                    &&& r.description == md.description
                    &&& r.skeleton == md.skeleton
                }
            } else {
                r == md
            }
        }),
{
}

/// A `:Character:` block of one line gives the metadata that the line
/// gives.
pub proof fn lemma_metadata_block_of_one(md: MetadataModel, line: Seq<char>)
    requires
        !is_header(trim(line)),
    ensures
        metadata_after(md, seq![":Character:"@, line]) == apply_metadata_line(md, trim(line)),
{
    let ls = seq![":Character:"@, line];
    reveal_strlit(":Character:");
    let h = ":Character:"@;
    assert(trim(h) == h) by {
        assert(h[0] == ':');
        assert(h.last() == ':');
        assert(crate::text::trim_start(h) == h);
        assert(crate::text::trim_end(h) == h);
    }
    assert(trim(line) != ":Character:"@) by {
        if trim(line) == ":Character:"@ {
            assert(is_header(":Character:"@));
        }
    }
    assert(ls[0] == h);
    assert(ls.drop_first() =~= seq![line]);
    assert(seq![line].drop_first() =~= Seq::<Seq<char>>::empty());
    assert(metadata_scan(ls, md, false) == metadata_scan(seq![line], md, true));
    assert(metadata_scan(seq![line], md, true) == metadata_scan(
        Seq::<Seq<char>>::empty(),
        apply_metadata_line(md, trim(line)),
        true,
    ));
}


pub open spec fn variable_type_of(s: Seq<char>) -> VariableType {
    if s == "Int"@ {
        VariableType::Int
    } else if s == "Str"@ {
        VariableType::Str
    } else if s == "Var"@ {
        VariableType::Var
    } else if s == "Vec2"@ {
        VariableType::Vec2
    } else if s == "Vec3"@ {
        VariableType::Vec3
    } else if s == "Box"@ {
        VariableType::Box
    } else if s == "Bool"@ {
        VariableType::Bool
    } else {
        VariableType::Var
    }
}

/// The state type that a type name denotes; other names give `Normal`.
pub open spec fn state_type_of(s: Seq<char>) -> StateType {
    if s == "Helper"@ {
        StateType::Helper
    } else if s == "BaseState"@ {
        StateType::BaseState
    } else if s == "Special"@ {
        StateType::Special
    } else if s == "Specblock"@ {
        StateType::Specblock
    } else {
        StateType::Normal
    }
}

/// The part of `Name(Type...)` that the parser splits: the text before the
/// colon, trimmed.
pub open spec fn var_name_part(line: Seq<char>) -> Seq<char> {
    trim(line.subrange(0, find_char(line, ':').unwrap()))
}

/// A `var` declaration (the text after `var `) can be split without
/// slicing backwards: if its name part holds both `(` and `)`, the first
/// `)` does not come before the first `(`.
pub open spec fn var_decl_ok(line: Seq<char>) -> bool {
    match find_char(line, ':') {
        None => true,
        Some(c) => {
            let np = trim(line.subrange(0, c));
            match (find_char(np, '('), find_char(np, ')')) {
                (Some(op), Some(cp)) => op < cp,
                _ => true,
            }
        },
    }
}

/// The variable that a `var` declaration `Name(Type[, Subtype]): Value`
/// defines, if it has a colon and both parentheses.
pub open spec fn var_decl_of(line: Seq<char>) -> Option<VariableModel> {
    match find_char(line, ':') {
        None => None,
        Some(c) => {
            let np = trim(line.subrange(0, c));
            let value = trim(line.subrange(c + 1, line.len() as int));
            match (find_char(np, '('), find_char(np, ')')) {
                (Some(op), Some(cp)) => {
                    let name = trim(np.subrange(0, op));
                    let ts = trim(np.subrange(op + 1, cp));
                    match find_char(ts, ',') {
                        Some(cm) => Some(
                            VariableModel {
                                name,
                                mutability: VariableMutability::Variable,
                                var_type: variable_type_of(trim(ts.subrange(0, cm))),
                                subtype: trim(ts.subrange(cm + 1, ts.len() as int)),
                                value,
                            },
                        ),
                        None => Some(
                            VariableModel {
                                name,
                                mutability: VariableMutability::Variable,
                                var_type: variable_type_of(ts),
                                subtype: Seq::empty(),
                                value,
                            },
                        ),
                    }
                },
                _ => None,
            }
        },
    }
}

/// The constant that a `def` declaration `Name: Value` defines.
pub open spec fn def_decl_of(line: Seq<char>) -> Option<VariableModel> {
    match find_char(line, ':') {
        None => None,
        Some(c) => Some(
            VariableModel {
                name: trim(line.subrange(0, c)),
                mutability: VariableMutability::Define,
                var_type: VariableType::Var,
                subtype: Seq::empty(),
                value: trim(line.subrange(c + 1, line.len() as int)),
            },
        ),
    }
}

/// A cleaned line of the `:Variables:` block can be parsed without panic.
pub open spec fn variable_line_ok(line: Seq<char>) -> bool {
    starts_with(line, "var "@) ==> var_decl_ok(line.skip(4))
}

/// The variable that a cleaned line of the `:Variables:` block defines.
pub open spec fn variable_line_of(line: Seq<char>) -> Option<VariableModel> {
    if starts_with(line, "var "@) {
        var_decl_of(line.skip(4))
    } else if starts_with(line, "def "@) {
        def_decl_of(line.skip(4))
    } else {
        None
    }
}

/// Variables after one cleaned line of the `:Variables:` block: a later
/// definition of a name replaces an earlier one.
pub open spec fn apply_variable_line(vars: VarMap, line: Seq<char>) -> VarMap {
    match variable_line_of(line) {
        Some(v) => vars.insert(v.name, v),
        None => vars,
    }
}

/// A state header (the text between the colons) can be split without
/// slicing backwards: the last `)` does not come before the first `(`.
pub open spec fn state_header_ok(h: Seq<char>) -> bool {
    match (find_char(h, '('), rfind_char(h, ')')) {
        (Some(ps), Some(pe)) => ps < pe,
        _ => true,
    }
}

/// Name, type and parent of a state header: `Name`, `Name(Type)`,
/// `Name(Parent)` or `Name(Type, Parent)`. A single parameter that is not
/// a state type names the parent.
pub open spec fn state_header_of(h: Seq<char>) -> (Seq<char>, StateType, Option<Seq<char>>) {
    match (find_char(h, '('), rfind_char(h, ')')) {
        (Some(ps), Some(pe)) => {
            let name = trim(h.subrange(0, ps));
            let params = trim(h.subrange(ps + 1, pe));
            match find_char(params, ',') {
                Some(cm) => (
                    name,
                    state_type_of(trim(params.subrange(0, cm))),
                    Some(trim(params.subrange(cm + 1, params.len() as int))),
                ),
                None => if state_type_of(params) != StateType::Normal {
                    (name, state_type_of(params), None)
                } else {
                    (name, StateType::Normal, Some(params))
                },
            }
        },
        _ => (h, StateType::Normal, None),
    }
}

/// An action line can be split without slicing backwards: when it holds
/// `(` and `)`, the last `)` does not come before the first `(`.
pub open spec fn action_line_ok(line: Seq<char>) -> bool {
    state_header_ok(line)
}

/// The action of a cleaned line `Instruction(args...)` or `Instruction`.
/// A line with `(` but no `)` holds no action.
pub open spec fn action_of(line: Seq<char>, line_number: usize) -> Option<ActionModel> {
    match find_char(line, '(') {
        None => Some(ActionModel { instruction: line, args: Seq::empty(), line_number }),
        Some(op) => match rfind_char(line, ')') {
            None => None,
            Some(cp) => Some(
                ActionModel {
                    instruction: trim(line.subrange(0, op)),
                    args: split_args(line.subrange(op + 1, cp)),
                    line_number,
                },
            ),
        },
    }
}

/// The name of a block header line `:Name:` or `:Name(...):`: the text
/// between the colons, cut before its first `(` and then trimmed.
pub open spec fn header_inner(line: Seq<char>) -> Seq<char> {
    line.subrange(1, line.len() - 1)
}

pub open spec fn block_name(line: Seq<char>) -> Seq<char> {
    let full = header_inner(line);
    match find_char(full, '(') {
        Some(p) => trim(full.subrange(0, p)),
        None => full,
    }
}

/// A trimmed line that is exactly `:`. Block scanning slices such a header
/// backwards, which panics.
pub open spec fn is_bare_colon(line: Seq<char>) -> bool {
    line.len() == 1 && line[0] == ':'
}

/// No line of `lines` is a bare `:` once trimmed.
pub open spec fn no_bare_colon(lines: Lines) -> bool {
    forall|i: int| 0 <= i < lines.len() ==> !is_bare_colon(#[trigger] trim(lines[i]))
}

// ---------------------------------------------------------------------------
// Blocks

/// The `:Character:` block: metadata after scanning `lines`, where
/// `in_block` tells whether the scan is inside the block. The block starts
/// after a `:Character:` line and ends at the next other header.
pub open spec fn metadata_scan(lines: Lines, md: MetadataModel, in_block: bool) -> MetadataModel
    decreases lines.len(),
{
    if lines.len() == 0 {
        md
    } else {
        let line = trim(lines[0]);
        if line == ":Character:"@ {
            metadata_scan(lines.drop_first(), md, true)
        } else if in_block && is_header(line) {
            md
        } else if in_block {
            metadata_scan(lines.drop_first(), apply_metadata_line(md, line), true)
        } else {
            metadata_scan(lines.drop_first(), md, false)
        }
    }
}

/// Metadata after parsing the `:Character:` block of `lines`.
pub open spec fn metadata_after(md: MetadataModel, lines: Lines) -> MetadataModel {
    metadata_scan(lines, md, false)
}

/// The `:Variables:` block: variables after scanning `lines`, or `None`
/// when a declaration in the block makes the parser panic.
pub open spec fn variables_scan(lines: Lines, vars: VarMap, in_block: bool) -> Option<VarMap>
    decreases lines.len(),
{
    if lines.len() == 0 {
        Some(vars)
    } else {
        let line = trim(lines[0]);
        if line == ":Variables:"@ {
            variables_scan(lines.drop_first(), vars, true)
        } else if in_block && is_header(line) {
            Some(vars)
        } else if in_block && is_content(line) {
            if variable_line_ok(clean_line(line)) {
                variables_scan(
                    lines.drop_first(),
                    apply_variable_line(vars, clean_line(line)),
                    true,
                )
            } else {
                None
            }
        } else {
            variables_scan(lines.drop_first(), vars, in_block)
        }
    }
}

/// Whether the block starting at line `start` looks like a specblock: among
/// its first content lines (up to five holding `:`) there is a key-value
/// line before any phase marker or bare call.
pub open spec fn specblock_probe(lines: Lines, idx: int, count: int) -> bool
    decreases lines.len() - idx,
{
    if idx < 0 || idx >= lines.len() || count >= 5 {
        count > 0
    } else {
        let line = trim(lines[idx]);
        if is_header(line) {
            count > 0
        } else if !is_content(line) {
            specblock_probe(lines, idx + 1, count)
        } else if starts_with(line, "---"@) {
            false
        } else if line.contains('(') && line.contains(')') && !line.contains(':') {
            false
        } else if line.contains(':') {
            specblock_probe(lines, idx + 1, count + 1)
        } else {
            specblock_probe(lines, idx + 1, count)
        }
    }
}

pub open spec fn is_specblock_at(lines: Lines, start: int) -> bool {
    specblock_probe(lines, start, 0)
}

/// A block name that is handled apart from specblocks and states.
pub open spec fn is_reserved_block(name: Seq<char>) -> bool {
    name == "Character"@ || name == "Variables"@
}

/// Specblocks after a block's fields are merged in: an empty block adds
/// nothing; otherwise its fields override those already stored.
pub open spec fn merge_block(blocks: BlockMap, name: Seq<char>, data: FieldMap) -> BlockMap {
    if data == Map::<Seq<char>, Seq<char>>::empty() {
        blocks
    } else if blocks.contains_key(name) {
        blocks.insert(name, blocks[name].union_prefer_right(data))
    } else {
        blocks.insert(name, data)
    }
}

/// Fields after one trimmed line of a specblock.
pub open spec fn apply_field_line(data: FieldMap, line: Seq<char>) -> FieldMap {
    match line_field(line) {
        Some((k, v)) => data.insert(k, v),
        None => data,
    }
}

/// Specblocks after scanning lines `i..`, where `cur` holds the name and
/// fields of the specblock being read, if any.
pub open spec fn specblocks_scan(
    lines: Lines,
    i: int,
    cur: Option<(Seq<char>, FieldMap)>,
    blocks: BlockMap,
) -> BlockMap
    decreases lines.len() - i,
{
    let committed = match cur {
        Some((n, d)) => merge_block(blocks, n, d),
        None => blocks,
    };
    if i < 0 || i >= lines.len() {
        committed
    } else {
        let line = trim(lines[i]);
        if is_header(line) {
            let name = block_name(line);
            if !is_reserved_block(name) && is_specblock_at(lines, i + 1) {
                specblocks_scan(lines, i + 1, Some((name, Map::empty())), committed)
            } else {
                specblocks_scan(lines, i + 1, None, committed)
            }
        } else {
            match cur {
                Some((n, d)) => specblocks_scan(
                    lines,
                    i + 1,
                    Some((n, apply_field_line(d, line))),
                    blocks,
                ),
                None => specblocks_scan(lines, i + 1, None, blocks),
            }
        }
    }
}

/// A state being read: its name, its data, and the current phase.
pub type StateCursor = (Seq<char>, StateModel, Option<Seq<char>>);

/// The actions of a phase, or none if the phase is absent.
pub open spec fn phase_actions(actions: Map<Seq<char>, Seq<ActionModel>>, ph: Seq<char>) -> Seq<
    ActionModel,
> {
    if actions.contains_key(ph) {
        actions[ph]
    } else {
        Seq::empty()
    }
}

/// A trimmed state body line can be processed without panic.
pub open spec fn state_line_ok(cur: StateCursor, line: Seq<char>) -> bool {
    !starts_with(line, "---"@) && is_content(line) && clean_line(line).len() > 0
        && cur.2 is Some ==> action_line_ok(clean_line(line))
}

/// A state after one trimmed line of its body: `---Phase:` opens a phase;
/// a content line adds its action to the current phase.
pub open spec fn apply_state_line(cur: StateCursor, line: Seq<char>, idx: usize) -> StateCursor {
    let (name, st, phase) = cur;
    if starts_with(line, "---"@) {
        match find_char(line, ':') {
            Some(c) => {
                let ph = trim(line.subrange(3, c));
                let actions = if st.actions.contains_key(ph) {
                    st.actions
                } else {
                    st.actions.insert(ph, Seq::empty())
                };
                (name, StateModel { actions, ..st }, Some(ph))
            },
            None => cur,
        }
    } else if is_content(line) && clean_line(line).len() > 0 && phase is Some {
        match action_of(clean_line(line), idx) {
            Some(a) => {
                let ph = phase.unwrap();
                (
                    name,
                    StateModel {
                        actions: st.actions.insert(ph, phase_actions(st.actions, ph).push(a)),
                        ..st
                    },
                    phase,
                )
            },
            None => cur,
        }
    } else {
        cur
    }
}

/// States after a finished state is stored under its name.
pub open spec fn commit_state(states: StateMap, cur: Option<StateCursor>) -> StateMap {
    match cur {
        Some((n, st, _)) => states.insert(n, st),
        None => states,
    }
}

/// A new state cursor for a header.
pub open spec fn open_state(h: Seq<char>) -> StateCursor {
    let (n, t, p) = state_header_of(h);
    (n, StateModel { name: n, state_type: t, parent: p, actions: Map::empty() }, None)
}

/// States after scanning lines `i..`, where `cur` is the state being read,
/// or `None` when a line makes the parser panic. Blocks named in
/// `specblocks` and the reserved blocks are not states.
pub open spec fn states_scan(
    lines: Lines,
    i: int,
    specblocks: Set<Seq<char>>,
    cur: Option<StateCursor>,
    states: StateMap,
) -> Option<StateMap>
    decreases lines.len() - i,
{
    if i < 0 || i >= lines.len() {
        Some(commit_state(states, cur))
    } else {
        let line = trim(lines[i]);
        if is_header(line) {
            let committed = commit_state(states, cur);
            let name = block_name(line);
            if !is_reserved_block(name) && !specblocks.contains(name) {
                if state_header_ok(header_inner(line)) {
                    states_scan(
                        lines,
                        i + 1,
                        specblocks,
                        Some(open_state(header_inner(line))),
                        committed,
                    )
                } else {
                    None
                }
            } else {
                states_scan(lines, i + 1, specblocks, None, committed)
            }
        } else {
            match cur {
                Some(c) => if state_line_ok(c, line) {
                    states_scan(
                        lines,
                        i + 1,
                        specblocks,
                        Some(apply_state_line(c, line, i as usize)),
                        states,
                    )
                } else {
                    None
                },
                None => states_scan(lines, i + 1, specblocks, None, states),
            }
        }
    }
}

} // verus!
