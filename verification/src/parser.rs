//! CastagneParser - parses `.casp` character files.
//!
//! A file is a sequence of blocks, each opened by a header line `:Name:`.
//! `:Character:` holds metadata fields, `:Variables:` holds `var` and `def`
//! declarations, specblocks hold `Key: Value` fields, and every other block
//! is a state whose body is split into phases by `---Phase:` markers.

use vstd::prelude::*;
use crate::lines::{
    action_chars, block_name_chars, clean_chars, header_inner_chars, is_content_chars,
    is_reserved_block_chars, line_field_chars, state_header_chars, state_header_ok_chars,
    state_type_from, strings_of, variable_line_chars, variable_line_ok_chars,
    variable_type_from,
};
use crate::model::{
    action_line_ok, action_of, is_bare_colon, apply_field_line, apply_metadata_line, apply_state_line,
    apply_variable_line, block_name, clean_line, commit_state, header_inner, is_content,
    is_reserved_block, is_specblock_at, merge_block, metadata_after, metadata_scan,
    no_bare_colon, open_state, phase_actions, specblock_probe, specblocks_scan,
    state_header_of, state_header_ok, state_line_ok, state_type_of, states_scan,
    variable_line_ok, variable_type_of, variables_scan, ActionModel, BlockMap, CharacterModel,
    FieldMap, Lines, MetadataModel, StateCursor, StateModel, VarMap,
};
pub use crate::model::{
    CharacterMetadata, ParsedAction, ParsedCharacter, ParsedState, ParsedVariable, StateType,
    VariableMutability, VariableType,
};
use crate::str_map::DeepClone;
pub use crate::str_map::StrMap;
use crate::syntax::{parse_arguments_chars, split_args, strip_comment, strip_inline_comment_chars};
use crate::numbers::{decimal, decimal_chars};
use crate::text::{
    split_lines, text_lines, chars_to_string, contains, copy_str, eq_str, find, find_char, header_line, is_header,
    lemma_find_char, starts_with, starts_with_str, str_to_chars, sub_chars, trim, trim_chars,
    trimmed,
};

verus! {

/// The text that reading a file gave: all its lines, an error from opening
/// it, or the lines read before a read error and that error.
pub enum FileSource {
    Lines(Vec<String>),
    Unopenable(String),
    Unreadable(Vec<String>, String),
}

/// What `parse_full_file` leaves to do. When the metadata names a skeleton
/// file, the caller parses that file into a character and hands it to
/// `load_skeleton`, then calls `finish_full_file`.
pub enum ParseProgress {
    Finished,
    SkeletonNeeded(String),
}

/// CastagneParser - Main parser struct.
pub struct CastagneParser {
    pub logs_active: bool,
    pub errors: Vec<String>,
    // Parsing state
    pub current_lines: Vec<String>,
    pub line_ids: Vec<usize>,
    pub file_paths: Vec<String>,
    pub current_file: usize,
    // Parsed data
    pub metadata: CharacterMetadata,
    pub variables: StrMap<ParsedVariable>,
    pub states: StrMap<ParsedState>,
    pub specblocks: StrMap<StrMap<String>>,
    pub specblock_defines: StrMap<ParsedVariable>,
    // Flags
    pub aborting: bool,
    pub invalid_file: bool,
}

/// Empty metadata.
pub open spec fn empty_metadata() -> MetadataModel {
    MetadataModel {
        name: Seq::empty(),
        author: Seq::empty(),
        description: Seq::empty(),
        skeleton: None,
        other_fields: Map::empty(),
    }
}

/// Specblocks after the specblock pass over `lines`.
pub open spec fn specblocks_after(blocks: BlockMap, lines: Lines) -> BlockMap {
    specblocks_scan(lines, 0, None, blocks)
}

/// Variables after the `:Variables:` pass, or `None` when it panics.
pub open spec fn variables_after(vars: VarMap, lines: Lines) -> Option<VarMap> {
    variables_scan(lines, vars, false)
}

/// States after the state pass, or `None` when it panics.
pub open spec fn states_after(
    specblocks: Set<Seq<char>>,
    states: Map<Seq<char>, StateModel>,
    lines: Lines,
) -> Option<Map<Seq<char>, StateModel>> {
    states_scan(lines, 0, specblocks, None, states)
}

/// Specblocks of a child merged with those of its skeleton: for a block
/// both have, the child's fields override the skeleton's.
pub open spec fn inherit_blocks(child: BlockMap, parent: BlockMap) -> BlockMap {
    Map::new(
        |k: Seq<char>| child.contains_key(k) || parent.contains_key(k),
        |k: Seq<char>|
            if parent.contains_key(k) {
                if child.contains_key(k) {
                    parent[k].union_prefer_right(child[k])
                } else {
                    parent[k]
                }
            } else {
                child[k]
            },
    )
}

/// Line numbers `1..=n`.
pub open spec fn numbered(n: nat) -> Seq<usize> {
    Seq::new(n, |k: int| (k + 1) as usize)
}

/// The parser state after opening the file at `path` with `source`, given
/// the errors and lines before: the lines read are appended, and an
/// unreadable file adds one error saying why and marks the parse as aborted.
pub open spec fn opened(
    path: Seq<char>,
    source: FileSource,
    errors_before: Seq<String>,
    lines_before: Seq<String>,
    p: CastagneParser,
) -> bool {
    match source {
        FileSource::Lines(ls) => {
            &&& p.current_lines@ == lines_before + ls@
            &&& p.errors@ == errors_before
        },
        FileSource::Unopenable(e) => {
            &&& p.current_lines@ == lines_before
            &&& p.errors@.len() == errors_before.len() + 1
            &&& p.errors@.drop_last() == errors_before
            &&& p.errors@.last()@ == "File "@ + path + " does not exist or cannot be opened: "@
                + e@
            &&& p.aborting
            &&& p.invalid_file
        },
        FileSource::Unreadable(ls, e) => {
            &&& p.current_lines@ == lines_before + ls@
            &&& p.errors@.len() == errors_before.len() + 1
            &&& p.errors@.drop_last() == errors_before
            &&& p.errors@.last()@ == "Error reading line "@ + decimal(ls@.len()) + " from "@ + path
                + ": "@ + e@
            &&& p.aborting
            &&& p.invalid_file
        },
    }
}

/// The data of `after` is what the specblock, variable and state passes
/// make of the lines and data of `before`.
pub open spec fn passes_done(before: &CastagneParser, after: &CastagneParser) -> bool {
    let lines = before.lines();
    let blocks = specblocks_after(before.specblocks@, lines);
    &&& after.specblocks@ == blocks
    &&& after.variables@ == variables_after(before.variables@, lines).unwrap()
    &&& after.states@ == states_after(blocks.dom(), before.states@, lines).unwrap()
}

/// The character that `end_parsing` returns for the parser state `p`.
pub open spec fn character_of(p: &CastagneParser) -> CharacterModel {
    CharacterModel {
        metadata: p.metadata.deep_view(),
        variables: p.variables@,
        states: p.states@,
        specblocks: p.specblocks@,
        subentities: Map::empty(),
        transformed_data: Map::empty(),
    }
}

/// The passes over the lines of a file parsed from scratch run without
/// panic.
pub open spec fn source_passes_ok(lines: Lines) -> bool {
    &&& no_bare_colon(lines)
    &&& variables_after(Map::empty(), lines) is Some
    &&& states_after(specblocks_after(Map::empty(), lines).dom(), Map::empty(), lines) is Some
}

/// The character parsed from the lines of one file, starting from the
/// metadata `md`: none when the metadata names a skeleton, since no other
/// file is available.
pub open spec fn character_from_source(md: MetadataModel, lines: Lines) -> Option<CharacterModel> {
    let meta = metadata_after(md, lines);
    if meta.skeleton is Some {
        None
    } else {
        let blocks = specblocks_after(Map::empty(), lines);
        Some(
            CharacterModel {
                metadata: meta,
                variables: variables_after(Map::empty(), lines).unwrap(),
                states: states_after(blocks.dom(), Map::empty(), lines).unwrap(),
                specblocks: blocks,
                subentities: Map::empty(),
                transformed_data: Map::empty(),
            },
        )
    }
}

/// At a header line or the end of the file, the specblock being read is
/// stored before scanning goes on.
pub proof fn lemma_specblocks_commit(
    lines: Lines,
    j: int,
    cur: Option<(Seq<char>, FieldMap)>,
    blocks: BlockMap,
)
    requires
        0 <= j,
        j >= lines.len() || is_header(trim(lines[j])),
    ensures
        specblocks_scan(lines, j, cur, blocks) == specblocks_scan(
            lines,
            j,
            None,
            match cur {
                Some((n, d)) => merge_block(blocks, n, d),
                None => blocks,
            },
        ),
{
}

/// At a header line or the end of the file, the state being read is stored
/// before scanning goes on.
pub proof fn lemma_states_commit(
    lines: Lines,
    j: int,
    specblocks: Set<Seq<char>>,
    cur: Option<StateCursor>,
    states: Map<Seq<char>, StateModel>,
)
    requires
        0 <= j,
        j >= lines.len() || is_header(trim(lines[j])),
    ensures
        states_scan(lines, j, specblocks, cur, states) == states_scan(
            lines,
            j,
            specblocks,
            None,
            commit_state(states, cur),
        ),
{
}

/// Whether line `j` of `lines` is the header of a state: a header whose
/// block is neither reserved nor a specblock.
pub open spec fn is_state_header(lines: Lines, j: int, specblocks: Set<Seq<char>>) -> bool {
    let line = trim(lines[j]);
    &&& is_header(line)
    &&& !is_reserved_block(block_name(line))
    &&& !specblocks.contains(block_name(line))
}

/// The names of the states whose headers stand at line `i` or later.
pub open spec fn state_names(lines: Lines, i: int, specblocks: Set<Seq<char>>) -> Set<Seq<char>> {
    Set::new(
        |n: Seq<char>|
            exists|j: int|
                i <= j < lines.len() && #[trigger] is_state_header(lines, j, specblocks)
                    && state_header_of(header_inner(trim(lines[j]))).0 == n,
    )
}

/// The name of the state being read, if any.
pub open spec fn cursor_names(cur: Option<StateCursor>) -> Set<Seq<char>> {
    match cur {
        Some(c) => set![c.0],
        None => Set::empty(),
    }
}

proof fn lemma_state_names_step(lines: Lines, i: int, specblocks: Set<Seq<char>>)
    requires
        0 <= i < lines.len(),
    ensures
        state_names(lines, i, specblocks) == state_names(lines, i + 1, specblocks).union(
            if is_state_header(lines, i, specblocks) {
                set![state_header_of(header_inner(trim(lines[i]))).0]
            } else {
                Set::empty()
            },
        ),
{
    let a = state_names(lines, i, specblocks);
    let b = state_names(lines, i + 1, specblocks).union(
        if is_state_header(lines, i, specblocks) {
            set![state_header_of(header_inner(trim(lines[i]))).0]
        } else {
            Set::empty()
        },
    );
    assert forall|n: Seq<char>| a.contains(n) <==> b.contains(n) by {
        if a.contains(n) {
            let j = choose|j: int|
                i <= j < lines.len() && #[trigger] is_state_header(lines, j, specblocks)
                    && state_header_of(header_inner(trim(lines[j]))).0 == n;
            if j > i {
                assert(state_names(lines, i + 1, specblocks).contains(n));
            }
        }
        if state_names(lines, i + 1, specblocks).contains(n) {
            let j = choose|j: int|
                i + 1 <= j < lines.len() && #[trigger] is_state_header(lines, j, specblocks)
                    && state_header_of(header_inner(trim(lines[j]))).0 == n;
            assert(i <= j < lines.len());
        }
        if is_state_header(lines, i, specblocks) && n == state_header_of(header_inner(trim(lines[i]))).0 {
            assert(is_state_header(lines, i, specblocks));
        }
    }
    assert(a =~= b);
}

proof fn lemma_states_scan_names(
    lines: Lines,
    i: int,
    specblocks: Set<Seq<char>>,
    cur: Option<StateCursor>,
    states: Map<Seq<char>, StateModel>,
)
    requires
        0 <= i,
        states_scan(lines, i, specblocks, cur, states) is Some,
    ensures
        states_scan(lines, i, specblocks, cur, states).unwrap().dom() == states.dom().union(
            cursor_names(cur),
        ).union(state_names(lines, i, specblocks)),
    decreases lines.len() - i,
{
    let r = states_scan(lines, i, specblocks, cur, states).unwrap();
    if i >= lines.len() {
        assert(state_names(lines, i, specblocks) =~= Set::empty());
        assert(r.dom() =~= states.dom().union(cursor_names(cur)).union(state_names(lines, i, specblocks)));
    } else {
        lemma_state_names_step(lines, i, specblocks);
        let line = trim(lines[i]);
        let committed = commit_state(states, cur);
        assert(committed.dom() =~= states.dom().union(cursor_names(cur)));
        if is_header(line) {
            if !is_reserved_block(block_name(line)) && !specblocks.contains(block_name(line)) {
                let c = open_state(header_inner(line));
                lemma_states_scan_names(lines, i + 1, specblocks, Some(c), committed);
                assert(cursor_names(Some(c)) =~= set![state_header_of(header_inner(line)).0]);
            } else {
                lemma_states_scan_names(lines, i + 1, specblocks, None, committed);
            }
            assert(r.dom() =~= states.dom().union(cursor_names(cur)).union(
                state_names(lines, i, specblocks),
            ));
        } else {
            match cur {
                Some(c) => {
                    let c2 = apply_state_line(c, line, i as usize);
                    lemma_states_scan_names(lines, i + 1, specblocks, Some(c2), states);
                    assert(c2.0 == c.0);
                    assert(cursor_names(Some(c2)) =~= cursor_names(cur));
                },
                None => {
                    lemma_states_scan_names(lines, i + 1, specblocks, None, states);
                },
            }
            assert(r.dom() =~= states.dom().union(cursor_names(cur)).union(
                state_names(lines, i, specblocks),
            ));
        }
    }
}

/// The state pass adds exactly one state for each state header: the states
/// afterwards are those before and those that the headers of states name.
pub proof fn lemma_states_after_names(
    specblocks: Set<Seq<char>>,
    states: Map<Seq<char>, StateModel>,
    lines: Lines,
)
    requires
        states_after(specblocks, states, lines) is Some,
    ensures
        states_after(specblocks, states, lines).unwrap().dom() == states.dom().union(
            state_names(lines, 0, specblocks),
        ),
{
    lemma_states_scan_names(lines, 0, specblocks, None, states);
    assert(states.dom().union(cursor_names(None)) =~= states.dom());
}

/// The phase that a trimmed line opens: `---P:` opens `P`, trimmed.
pub open spec fn marker_phase(line: Seq<char>) -> Option<Seq<char>> {
    if starts_with(line, "---"@) {
        match find_char(line, ':') {
            Some(c) => Some(trim(line.subrange(3, c))),
            None => None,
        }
    } else {
        None
    }
}

/// The phase open before line `j` in the body of the state whose header is
/// line `h`: the one the last marker before `j` opened.
pub open spec fn phase_before(lines: Lines, h: int, j: int) -> Option<Seq<char>>
    decreases j - h,
{
    if j <= h + 1 {
        None
    } else {
        match marker_phase(trim(lines[j - 1])) {
            Some(p) => Some(p),
            None => phase_before(lines, h, j - 1),
        }
    }
}

/// The phases that markers open before line `j` of the body.
pub open spec fn phases_seen(lines: Lines, h: int, j: int) -> Set<Seq<char>>
    decreases j - h,
{
    if j <= h + 1 {
        Set::empty()
    } else {
        match marker_phase(trim(lines[j - 1])) {
            Some(p) => phases_seen(lines, h, j - 1).insert(p),
            None => phases_seen(lines, h, j - 1),
        }
    }
}

/// The action that body line `j` adds, with its phase: a content line that
/// is no marker, under an open phase.
pub open spec fn line_action(lines: Lines, h: int, j: int) -> Option<(Seq<char>, ActionModel)> {
    let line = trim(lines[j]);
    if !starts_with(line, "---"@) && is_content(line) && clean_line(line).len() > 0 && phase_before(
        lines,
        h,
        j,
    ) is Some {
        match action_of(clean_line(line), j as usize) {
            Some(a) => Some((phase_before(lines, h, j)->0, a)),
            None => None,
        }
    } else {
        None
    }
}

/// The actions of phase `p` from the body lines before `j`, in file order.
pub open spec fn phase_list(lines: Lines, h: int, j: int, p: Seq<char>) -> Seq<ActionModel>
    decreases j - h,
{
    if j <= h + 1 {
        Seq::empty()
    } else {
        match line_action(lines, h, j - 1) {
            Some((q, a)) => if q == p {
                phase_list(lines, h, j - 1, p).push(a)
            } else {
                phase_list(lines, h, j - 1, p)
            },
            None => phase_list(lines, h, j - 1, p),
        }
    }
}

/// The state that the header text `header` at line `h` and the body lines
/// before `j` make: one action list per phase that a marker opens, holding
/// the actions under that phase in file order.
pub open spec fn state_at(lines: Lines, h: int, header: Seq<char>, j: int) -> StateModel {
    let (n, t, p) = state_header_of(header);
    StateModel {
        name: n,
        state_type: t,
        parent: p,
        actions: Map::new(
            |ph: Seq<char>| phases_seen(lines, h, j).contains(ph),
            |ph: Seq<char>| phase_list(lines, h, j, ph),
        ),
    }
}

proof fn lemma_phase_lists_seen(lines: Lines, h: int, j: int)
    ensures
        phase_before(lines, h, j) matches Some(p) ==> phases_seen(lines, h, j).contains(p),
        forall|p: Seq<char>|
            !phases_seen(lines, h, j).contains(p) ==> #[trigger] phase_list(lines, h, j, p)
                == Seq::<ActionModel>::empty(),
    decreases j - h,
{
    if j > h + 1 {
        lemma_phase_lists_seen(lines, h, j - 1);
        assert forall|p: Seq<char>| !phases_seen(lines, h, j).contains(p) implies #[trigger] phase_list(
            lines,
            h,
            j,
            p,
        ) == Seq::<ActionModel>::empty() by {
            assert(!phases_seen(lines, h, j - 1).contains(p));
            assert(phase_list(lines, h, j - 1, p) == Seq::<ActionModel>::empty());
            match line_action(lines, h, j - 1) {
                Some((q, a)) => {
                    assert(phase_before(lines, h, j - 1) == Some(q));
                    assert(phases_seen(lines, h, j - 1).contains(q));
                    assert(q != p);
                },
                None => {},
            }
        }
    }
}

proof fn lemma_state_line_step(lines: Lines, h: int, header: Seq<char>, j: int)
    requires
        h + 1 <= j < lines.len(),
        0 <= j,
    ensures
        apply_state_line(
            (state_header_of(header).0, state_at(lines, h, header, j), phase_before(lines, h, j)),
            trim(lines[j]),
            j as usize,
        ) == (state_header_of(header).0, state_at(lines, h, header, j + 1), phase_before(
            lines,
            h,
            j + 1,
        )),
{
    let line = trim(lines[j]);
    let st = state_at(lines, h, header, j);
    let st2 = state_at(lines, h, header, j + 1);
    lemma_phase_lists_seen(lines, h, j);
    reveal_strlit("---");
    if starts_with(line, "---"@) {
        assert(line_action(lines, h, j) is None);
        assert forall|p: Seq<char>| #[trigger] phase_list(lines, h, j + 1, p) == phase_list(lines, h, j, p) by {}
        match find_char(line, ':') {
            Some(c) => {
                let ph = trim(line.subrange(3, c));
                let actions = if st.actions.contains_key(ph) {
                    st.actions
                } else {
                    st.actions.insert(ph, Seq::empty())
                };
                assert(actions =~= st2.actions);
            },
            None => {
                assert(st.actions =~= st2.actions);
            },
        }
    } else {
        assert(marker_phase(line) is None);
        if is_content(line) && clean_line(line).len() > 0 && phase_before(lines, h, j) is Some {
            match action_of(clean_line(line), j as usize) {
                Some(a) => {
                    let ph = phase_before(lines, h, j)->0;
                    assert(phase_actions(st.actions, ph) == phase_list(lines, h, j, ph));
                    assert(st.actions.insert(ph, phase_actions(st.actions, ph).push(a)) =~= st2.actions);
                },
                None => {
                    assert(st.actions =~= st2.actions);
                },
            }
        } else {
            assert(line_action(lines, h, j) is None);
            assert(st.actions =~= st2.actions);
        }
    }
}

proof fn lemma_state_body_from(
    lines: Lines,
    h: int,
    header: Seq<char>,
    j: int,
    e: int,
    specblocks: Set<Seq<char>>,
    states: Map<Seq<char>, StateModel>,
)
    requires
        0 <= h + 1 <= j <= e <= lines.len(),
        forall|k: int| j <= k < e ==> !is_header(#[trigger] trim(lines[k])),
        states_scan(
            lines,
            j,
            specblocks,
            Some((state_header_of(header).0, state_at(lines, h, header, j), phase_before(lines, h, j))),
            states,
        ) is Some,
    ensures
        states_scan(
            lines,
            j,
            specblocks,
            Some((state_header_of(header).0, state_at(lines, h, header, j), phase_before(lines, h, j))),
            states,
        ) == states_scan(
            lines,
            e,
            specblocks,
            Some((state_header_of(header).0, state_at(lines, h, header, e), phase_before(lines, h, e))),
            states,
        ),
    decreases e - j,
{
    if j < e {
        lemma_state_line_step(lines, h, header, j);
        assert(!is_header(trim(lines[j])));
        lemma_state_body_from(lines, h, header, j + 1, e, specblocks, states);
    }
}

/// What reading a state's body gives: the header at line `h` with text
/// `header` and the body up to the next header (or the end) at line `e`
/// make the state `state_at`, with one action list per phase that a
/// `---P:` marker opens, holding the actions under that phase in file
/// order; it is stored under its name before scanning goes on.
pub proof fn lemma_state_body(
    lines: Lines,
    h: int,
    header: Seq<char>,
    e: int,
    specblocks: Set<Seq<char>>,
    states: Map<Seq<char>, StateModel>,
)
    requires
        0 <= h < e <= lines.len(),
        forall|k: int| h < k < e ==> !is_header(#[trigger] trim(lines[k])),
        e == lines.len() || is_header(trim(lines[e])),
        states_scan(lines, h + 1, specblocks, Some(open_state(header)), states) is Some,
    ensures
        states_scan(lines, h + 1, specblocks, Some(open_state(header)), states) == states_scan(
            lines,
            e,
            specblocks,
            None,
            states.insert(state_header_of(header).0, state_at(lines, h, header, e)),
        ),
{
    let n = state_header_of(header).0;
    assert(state_at(lines, h, header, h + 1).actions =~= Map::<Seq<char>, Seq<ActionModel>>::empty());
    assert(open_state(header) == (n, state_at(lines, h, header, h + 1), phase_before(lines, h, h + 1)));
    lemma_state_body_from(lines, h, header, h + 1, e, specblocks, states);
    lemma_states_commit(
        lines,
        e,
        specblocks,
        Some((n, state_at(lines, h, header, e), phase_before(lines, h, e))),
        states,
    );
}

/// Whether no line of `lines` is a bare `:` once trimmed, a line that the
/// block passes cannot take apart.
pub fn no_bare_colon_check(lines: &Vec<String>) -> (r: bool)
    ensures
        r == no_bare_colon(lines.deep_view()),
{
    let ghost ls = lines.deep_view();
    let mut i: usize = 0;
    while i < lines.len()
        invariant
            i <= ls.len(),
            ls == lines.deep_view(),
            forall|j: int| 0 <= j < i ==> !is_bare_colon(#[trigger] trim(ls[j])),
        decreases ls.len() - i,
    {
        let line = trimmed(lines[i].as_str());
        assert(line@ == trim(ls[i as int]));
        if line.len() == 1 && line[0] == ':' {
            assert(is_bare_colon(trim(ls[i as int])));
            return false;
        }
        i = i + 1;
    }
    true
}

impl CastagneParser {
    /// The loaded lines, as characters.
    pub open spec fn lines(&self) -> Lines {
        self.current_lines.deep_view()
    }

    /// The specblock, variable and state passes over the loaded lines run
    /// without panic: no line is a bare `:`, and no declaration, state
    /// header or action line is sliced backwards.
    pub open spec fn passes_ok(&self) -> bool {
        &&& no_bare_colon(self.lines())
        &&& variables_after(self.variables@, self.lines()) is Some
        &&& states_after(
            specblocks_after(self.specblocks@, self.lines()).dom(),
            self.states@,
            self.lines(),
        ) is Some
    }

    /// `self` and `other` hold the same input and flags.
    pub open spec fn same_input(&self, other: &Self) -> bool {
        &&& self.logs_active == other.logs_active
        &&& self.errors@ == other.errors@
        &&& self.current_lines@ == other.current_lines@
        &&& self.line_ids@ == other.line_ids@
        &&& self.file_paths@ == other.file_paths@
        &&& self.current_file == other.current_file
        &&& self.aborting == other.aborting
        &&& self.invalid_file == other.invalid_file
    }

    /// `self` and `other` hold the same parsed data.
    pub open spec fn same_data(&self, other: &Self) -> bool {
        &&& self.metadata.deep_view() == other.metadata.deep_view()
        &&& self.variables@ == other.variables@
        &&& self.states@ == other.states@
        &&& self.specblocks@ == other.specblocks@
        &&& self.specblock_defines@ == other.specblock_defines@
    }

    /// Create a new parser instance.
    pub fn new() -> (r: Self)
        ensures
            !r.logs_active,
            r.errors@.len() == 0,
            r.current_lines@.len() == 0,
            r.line_ids@.len() == 0,
            r.file_paths@.len() == 0,
            r.current_file == 0,
            r.metadata.deep_view() == empty_metadata(),
            r.variables@ == Map::<Seq<char>, crate::model::VariableModel>::empty(),
            r.states@ == Map::<Seq<char>, StateModel>::empty(),
            r.specblocks@ == Map::<Seq<char>, Map<Seq<char>, Seq<char>>>::empty(),
            r.specblock_defines@ == Map::<Seq<char>, crate::model::VariableModel>::empty(),
            !r.aborting,
            !r.invalid_file,
    {
        CastagneParser {
            logs_active: false,
            errors: Vec::new(),
            current_lines: Vec::new(),
            line_ids: Vec::new(),
            file_paths: Vec::new(),
            current_file: 0,
            metadata: CharacterMetadata {
                name: String::new(),
                author: String::new(),
                description: String::new(),
                skeleton: None,
                other_fields: StrMap::new(),
            },
            variables: StrMap::new(),
            states: StrMap::new(),
            specblocks: StrMap::new(),
            specblock_defines: StrMap::new(),
            aborting: false,
            invalid_file: false,
        }
    }

    /// Strip inline comments from a line (everything from a `#` that is not
    /// in a string).
    pub fn strip_inline_comment(&self, line: &str) -> (r: String)
        ensures
            r@ == strip_comment(line@),
    {
        let c = str_to_chars(line);
        let s = strip_inline_comment_chars(&c);
        chars_to_string(&s)
    }

    /// Reset error list.
    pub fn reset_errors(&mut self)
        ensures
            final(self).errors@.len() == 0,
            final(self).logs_active == old(self).logs_active,
            final(self).current_lines@ == old(self).current_lines@,
            final(self).line_ids@ == old(self).line_ids@,
            final(self).file_paths@ == old(self).file_paths@,
            final(self).current_file == old(self).current_file,
            final(self).aborting == old(self).aborting,
            final(self).invalid_file == old(self).invalid_file,
            final(self).same_data(old(self)),
    {
        self.errors.clear();
    }

    /// Get all errors from last parse.
    pub fn get_errors(&self) -> (r: &[String])
        ensures
            r@ == self.errors@,
    {
        self.errors.as_slice()
    }

    /// Records a fatal error: parsing stops and the file is invalid.
    fn fatal_error(&mut self, message: String)
        ensures
            final(self).errors@ == old(self).errors@.push(message),
            final(self).aborting,
            final(self).invalid_file,
            final(self).logs_active == old(self).logs_active,
            final(self).current_lines@ == old(self).current_lines@,
            final(self).line_ids@ == old(self).line_ids@,
            final(self).file_paths@ == old(self).file_paths@,
            final(self).current_file == old(self).current_file,
            final(self).same_data(old(self)),
    {
        self.errors.push(message);
        self.aborting = true;
        self.invalid_file = true;
    }

    /// Records a non-fatal error.
    pub fn error(&mut self, message: String)
        ensures
            final(self).errors@ == old(self).errors@.push(message),
            final(self).aborting == old(self).aborting,
            final(self).invalid_file == old(self).invalid_file,
            final(self).current_lines@ == old(self).current_lines@,
            final(self).same_data(old(self)),
    {
        self.errors.push(message);
    }

    // -------------------------------------------------------------------------
    // Metadata

    /// Applies one trimmed line of the `:Character:` block.
    fn apply_metadata_line(&mut self, line: &Vec<char>)
        ensures
            final(self).metadata.deep_view() == apply_metadata_line(
                old(self).metadata.deep_view(),
                line@,
            ),
            final(self).same_input(old(self)),
            final(self).variables@ == old(self).variables@,
            final(self).states@ == old(self).states@,
            final(self).specblocks@ == old(self).specblocks@,
            final(self).specblock_defines@ == old(self).specblock_defines@,
    {
        match line_field_chars(line) {
            Some((k, v)) => {
                if eq_str(&k, "Name") {
                    self.metadata.name = chars_to_string(&v);
                } else if eq_str(&k, "Author") {
                    self.metadata.author = chars_to_string(&v);
                } else if eq_str(&k, "Description") {
                    self.metadata.description = chars_to_string(&v);
                } else if eq_str(&k, "Skeleton") {
                    self.metadata.skeleton = Some(chars_to_string(&v));
                } else {
                    self.metadata.other_fields.insert(chars_to_string(&k), chars_to_string(&v));
                }
            },
            None => {},
        }
    }

    /// Parses the `:Character:` block into the metadata.
    pub fn parse_metadata(&mut self, _file_id: usize)
        ensures
            final(self).metadata.deep_view() == metadata_after(
                old(self).metadata.deep_view(),
                old(self).lines(),
            ),
            final(self).same_input(old(self)),
            final(self).variables@ == old(self).variables@,
            final(self).states@ == old(self).states@,
            final(self).specblocks@ == old(self).specblocks@,
            final(self).specblock_defines@ == old(self).specblock_defines@,
    {
        let ghost lines = self.lines();
        let ghost m0 = self.metadata.deep_view();
        let mut in_block = false;
        let mut stopped = false;
        let mut i: usize = 0;
        assert(lines.skip(0) =~= lines);
        while i < self.current_lines.len() && !stopped
            invariant
                i <= lines.len(),
                lines == self.lines(),
                self.same_input(old(self)),
                self.variables@ == old(self).variables@,
                self.states@ == old(self).states@,
                self.specblocks@ == old(self).specblocks@,
                self.specblock_defines@ == old(self).specblock_defines@,
                stopped ==> metadata_after(m0, lines) == self.metadata.deep_view(),
                !stopped ==> metadata_after(m0, lines) == metadata_scan(
                    lines.skip(i as int),
                    self.metadata.deep_view(),
                    in_block,
                ),
            decreases lines.len() - i + if stopped { 0int } else { 1int },
        {
            let line = trimmed(self.current_lines[i].as_str());
            assert(lines.skip(i as int)[0] == lines[i as int]);
            assert(lines.skip(i as int).drop_first() =~= lines.skip(i + 1));
            if eq_str(&line, ":Character:") {
                in_block = true;
                i = i + 1;
            } else if in_block && header_line(&line) {
                stopped = true;
            } else {
                if in_block {
                    self.apply_metadata_line(&line);
                }
                i = i + 1;
            }
        }
        if !stopped {
            assert(lines.skip(i as int) =~= Seq::<Seq<char>>::empty());
        }
    }

    // -------------------------------------------------------------------------
    // Variables

    /// The variable type named by `type_str`; unknown names give `Var`.
    pub fn parse_variable_type(&self, type_str: &str) -> (r: VariableType)
        ensures
            r == variable_type_of(type_str@),
    {
        let c = str_to_chars(type_str);
        variable_type_from(&c)
    }

    /// The state type named by `type_str`; other names give `Normal`.
    pub fn parse_state_type(&self, type_str: &str) -> (r: StateType)
        ensures
            r == state_type_of(type_str@),
    {
        let c = str_to_chars(type_str);
        state_type_from(&c)
    }

    /// Applies one cleaned line of the `:Variables:` block.
    fn parse_variable_line(&mut self, line: &Vec<char>)
        requires
            variable_line_ok(line@),
        ensures
            final(self).variables@ == apply_variable_line(old(self).variables@, line@),
            final(self).same_input(old(self)),
            final(self).metadata.deep_view() == old(self).metadata.deep_view(),
            final(self).states@ == old(self).states@,
            final(self).specblocks@ == old(self).specblocks@,
            final(self).specblock_defines@ == old(self).specblock_defines@,
    {
        match variable_line_chars(line) {
            Some(v) => {
                let name = v.name.clone();
                self.variables.insert(name, v);
            },
            None => {},
        }
    }

    /// Parses the `:Variables:` block: `var Name(Type[, Subtype]): Value`
    /// and `def Name: Value` lines.
    pub fn parse_variables(&mut self, _file_id: usize)
        requires
            variables_after(old(self).variables@, old(self).lines()) is Some,
        ensures
            final(self).variables@ == variables_after(
                old(self).variables@,
                old(self).lines(),
            ).unwrap(),
            final(self).same_input(old(self)),
            final(self).metadata.deep_view() == old(self).metadata.deep_view(),
            final(self).states@ == old(self).states@,
            final(self).specblocks@ == old(self).specblocks@,
            final(self).specblock_defines@ == old(self).specblock_defines@,
    {
        let ghost lines = self.lines();
        let ghost v0 = self.variables@;
        let mut in_block = false;
        let mut stopped = false;
        let mut i: usize = 0;
        assert(lines.skip(0) =~= lines);
        while i < self.current_lines.len() && !stopped
            invariant
                i <= lines.len(),
                lines == self.lines(),
                self.same_input(old(self)),
                self.metadata.deep_view() == old(self).metadata.deep_view(),
                self.states@ == old(self).states@,
                self.specblocks@ == old(self).specblocks@,
                self.specblock_defines@ == old(self).specblock_defines@,
                variables_after(v0, lines) is Some,
                stopped ==> variables_after(v0, lines) == Some(self.variables@),
                !stopped ==> variables_after(v0, lines) == variables_scan(
                    lines.skip(i as int),
                    self.variables@,
                    in_block,
                ),
            decreases lines.len() - i + if stopped { 0int } else { 1int },
        {
            let line = trimmed(self.current_lines[i].as_str());
            assert(lines.skip(i as int)[0] == lines[i as int]);
            assert(lines.skip(i as int).drop_first() =~= lines.skip(i + 1));
            if eq_str(&line, ":Variables:") {
                in_block = true;
                i = i + 1;
            } else if in_block && header_line(&line) {
                stopped = true;
            } else {
                if in_block && is_content_chars(&line) {
                    let cleaned = clean_chars(&line);
                    if cleaned.len() > 0 {
                        self.parse_variable_line(&cleaned);
                    } else {
                        proof {
                            reveal_strlit("var ");
                            reveal_strlit("def ");
                        }
                        assert(apply_variable_line(self.variables@, cleaned@) == self.variables@);
                    }
                }
                i = i + 1;
            }
        }
        if !stopped {
            assert(lines.skip(i as int) =~= Seq::<Seq<char>>::empty());
        }
    }

    // -------------------------------------------------------------------------
    // Specblocks

    /// Whether the block whose body starts at line `start_idx` is a
    /// specblock: its first content lines hold `Key: Value` pairs rather
    /// than phase markers or actions.
    pub fn is_specblock(&self, _block_name: &str, start_idx: usize) -> (r: bool)
        ensures
            r == is_specblock_at(self.lines(), start_idx as int),
    {
        let ghost lines = self.lines();
        let mut idx = start_idx;
        let mut count: usize = 0;
        proof {
            reveal_strlit("---");
        }
        while idx < self.current_lines.len() && count < 5
            invariant
                lines == self.lines(),
                count <= 5,
                is_specblock_at(lines, start_idx as int) == specblock_probe(
                    lines,
                    idx as int,
                    count as int,
                ),
            decreases lines.len() - idx,
        {
            let line = trimmed(self.current_lines[idx].as_str());
            if header_line(&line) {
                return count > 0;
            }
            if !is_content_chars(&line) {
                idx = idx + 1;
            } else if starts_with_str(&line, "---") {
                return false;
            } else if contains(&line, '(') && contains(&line, ')') && !contains(&line, ':') {
                return false;
            } else if contains(&line, ':') {
                count = count + 1;
                idx = idx + 1;
            } else {
                idx = idx + 1;
            }
        }
        count > 0
    }

    /// Reads the body of specblock `block_name`, whose header is at line
    /// `*i`, and merges its fields into the stored specblock of that name.
    /// Leaves `*i` on the last line of the body.
    fn parse_specblock(&mut self, block_name: String, i: &mut usize)
        requires
            *old(i) < old(self).lines().len(),
        ensures
            *old(i) <= *final(i) < old(self).lines().len(),
            *final(i) + 1 == old(self).lines().len() || is_header(
                trim(old(self).lines()[*final(i) + 1]),
            ),
            specblocks_scan(
                old(self).lines(),
                *old(i) + 1,
                Some((block_name@, Map::empty())),
                old(self).specblocks@,
            ) == specblocks_scan(old(self).lines(), *final(i) + 1, None, final(self).specblocks@),
            final(self).same_input(old(self)),
            final(self).metadata.deep_view() == old(self).metadata.deep_view(),
            final(self).variables@ == old(self).variables@,
            final(self).states@ == old(self).states@,
            final(self).specblock_defines@ == old(self).specblock_defines@,
    {
        let ghost lines = self.lines();
        let ghost b0 = self.specblocks@;
        let ghost start = *i + 1;
        let mut data: StrMap<String> = StrMap::new();
        let n = self.current_lines.len();
        assert(lines.len() == n);
        let mut k = *i + 1;
        let mut stopped = false;
        while k < self.current_lines.len() && !stopped
            invariant
                start <= k <= lines.len(),
                lines == self.lines(),
                self.specblocks@ == b0,
                self.same_input(old(self)),
                self.metadata.deep_view() == old(self).metadata.deep_view(),
                self.variables@ == old(self).variables@,
                self.states@ == old(self).states@,
                self.specblock_defines@ == old(self).specblock_defines@,
                stopped ==> k < lines.len() && is_header(trim(lines[k as int])),
                specblocks_scan(lines, start, Some((block_name@, Map::empty())), b0)
                    == specblocks_scan(lines, k as int, Some((block_name@, data@)), b0),
            decreases lines.len() - k + if stopped { 0int } else { 1int },
        {
            let line = trimmed(self.current_lines[k].as_str());
            if header_line(&line) {
                stopped = true;
            } else {
                match line_field_chars(&line) {
                    Some((key, value)) => {
                        data.insert(chars_to_string(&key), chars_to_string(&value));
                    },
                    None => {},
                }
                k = k + 1;
            }
        }
        if !data.is_empty() {
            let mut merged = match self.specblocks.get(block_name.as_str()) {
                Some(existing) => existing.deep_clone_map(),
                None => StrMap::new(),
            };
            let ghost before = merged@;
            merged.extend_from(&data);
            proof {
                if !b0.contains_key(block_name@) {
                    assert(before.union_prefer_right(data@) =~= data@);
                }
            }
            self.specblocks.insert(block_name, merged);
        }
        assert(self.specblocks@ == merge_block(b0, block_name@, data@));
        *i = k - 1;
    }

    /// Parses every specblock of the file.
    pub fn parse_specblocks(&mut self, _file_id: usize) -> (r: StrMap<String>)
        requires
            no_bare_colon(old(self).lines()),
        ensures
            final(self).specblocks@ == specblocks_after(old(self).specblocks@, old(self).lines()),
            final(self).same_input(old(self)),
            final(self).metadata.deep_view() == old(self).metadata.deep_view(),
            final(self).variables@ == old(self).variables@,
            final(self).states@ == old(self).states@,
            final(self).specblock_defines@ == old(self).specblock_defines@,
            r@ == Map::<Seq<char>, Seq<char>>::empty(),
    {
        let ghost lines = self.lines();
        let ghost b0 = self.specblocks@;
        let mut i: usize = 0;
        while i < self.current_lines.len()
            invariant
                i <= lines.len(),
                lines == self.lines(),
                no_bare_colon(lines),
                self.same_input(old(self)),
                self.metadata.deep_view() == old(self).metadata.deep_view(),
                self.variables@ == old(self).variables@,
                self.states@ == old(self).states@,
                self.specblock_defines@ == old(self).specblock_defines@,
                specblocks_after(b0, lines) == specblocks_scan(
                    lines,
                    i as int,
                    None,
                    self.specblocks@,
                ),
            decreases lines.len() - i,
        {
            let line = trimmed(self.current_lines[i].as_str());
            if header_line(&line) {
                let name = block_name_chars(&line);
                if !is_reserved_block_chars(&name) {
                    let name_str = chars_to_string(&name);
                    if self.is_specblock(name_str.as_str(), i + 1) {
                        let ghost before = self.specblocks@;
                        self.parse_specblock(name_str, &mut i);
                        proof {
                            lemma_specblocks_commit(
                                lines,
                                i + 1,
                                Some((name@, Map::empty())),
                                before,
                            );
                        }
                    }
                }
            }
            i = i + 1;
        }
        StrMap::new()
    }

    // -------------------------------------------------------------------------
    // States

    /// Splits an argument list at top-level commas, respecting nested
    /// parentheses and string literals; arguments are trimmed and empty
    /// ones dropped.
    pub fn parse_arguments(&self, args_str: &str) -> (r: Vec<String>)
        ensures
            r.deep_view() == split_args(args_str@),
    {
        let c = str_to_chars(args_str);
        let a = parse_arguments_chars(&c);
        strings_of(&a)
    }

    /// Parses a function call `Instruction(Arg1, Arg2, ...)` or a bare
    /// instruction `Instruction`.
    pub fn parse_action_line(&self, line: &str, line_number: usize) -> (r: Option<ParsedAction>)
        requires
            action_line_ok(line@),
        ensures
            r.deep_view() == action_of(line@, line_number),
    {
        let c = str_to_chars(line);
        action_chars(&c, line_number)
    }

    /// Parses a state header: `Name`, `Name(Type)`, `Name(Parent)` or
    /// `Name(Type, Parent)`.
    pub fn parse_state_header(&self, state_header: &str) -> (r: (String, StateType, Option<String>))
        requires
            state_header_ok(state_header@),
        ensures
            (r.0@, r.1, r.2.deep_view()) == state_header_of(state_header@),
    {
        let c = str_to_chars(state_header);
        let (name, t, parent) = state_header_chars(&c);
        let parent_str = match parent {
            Some(p) => Some(chars_to_string(&p)),
            None => None,
        };
        (chars_to_string(&name), t, parent_str)
    }

    /// Reads the body of the state whose header text is `state_name` and
    /// whose header line is `*i`, then stores the state under its name.
    /// Leaves `*i` on the last line of the body.
    fn parse_state(&mut self, state_name: String, i: &mut usize)
        requires
            *old(i) < old(self).lines().len(),
            state_header_ok(state_name@),
            states_scan(
                old(self).lines(),
                *old(i) + 1,
                old(self).specblocks@.dom(),
                Some(open_state(state_name@)),
                old(self).states@,
            ) is Some,
        ensures
            *old(i) <= *final(i) < old(self).lines().len(),
            forall|j: int| *old(i) < j <= *final(i) ==> !is_header(#[trigger] trim(old(self).lines()[j])),
            final(self).states@ == old(self).states@.insert(
                state_header_of(state_name@).0,
                state_at(old(self).lines(), *old(i) as int, state_name@, *final(i) + 1),
            ),
            *final(i) + 1 == old(self).lines().len() || is_header(
                trim(old(self).lines()[*final(i) + 1]),
            ),
            states_scan(
                old(self).lines(),
                *old(i) + 1,
                old(self).specblocks@.dom(),
                Some(open_state(state_name@)),
                old(self).states@,
            ) == states_scan(
                old(self).lines(),
                *final(i) + 1,
                old(self).specblocks@.dom(),
                None,
                final(self).states@,
            ),
            final(self).same_input(old(self)),
            final(self).metadata.deep_view() == old(self).metadata.deep_view(),
            final(self).variables@ == old(self).variables@,
            final(self).specblocks@ == old(self).specblocks@,
            final(self).specblock_defines@ == old(self).specblock_defines@,
    {
        let ghost lines = self.lines();
        let ghost t0 = self.states@;
        let ghost sb = self.specblocks@.dom();
        let n = self.current_lines.len();
        assert(lines.len() == n);
        let ghost start = *i + 1;
        let ghost h = *i as int;
        let (actual_name, state_type, parent) = self.parse_state_header(state_name.as_str());
        let mut state = ParsedState {
            name: actual_name.clone(),
            state_type,
            parent,
            actions: StrMap::new(),
        };
        let mut current_phase: Option<String> = None;
        assert((actual_name@, state.deep_view(), current_phase.deep_view()) == open_state(
            state_name@,
        ));
        assert(state_at(lines, h, state_name@, h + 1).actions =~= Map::<Seq<char>, Seq<ActionModel>>::empty());
        assert(open_state(state_name@) == (
            state_header_of(state_name@).0,
            state_at(lines, h, state_name@, h + 1),
            phase_before(lines, h, h + 1),
        ));
        let mut k = *i + 1;
        let mut stopped = false;
        proof {
            reveal_strlit("---");
        }
        while k < n && !stopped
            invariant
                start <= k <= lines.len() == n,
                lines == self.lines(),
                self.states@ == t0,
                self.specblocks@.dom() == sb,
                self.same_input(old(self)),
                self.metadata.deep_view() == old(self).metadata.deep_view(),
                self.variables@ == old(self).variables@,
                self.specblocks@ == old(self).specblocks@,
                self.specblock_defines@ == old(self).specblock_defines@,
                "---"@.len() == 3,
                stopped ==> k < lines.len() && is_header(trim(lines[k as int])),
                h + 1 == start,
                forall|j: int| h < j < k ==> !is_header(#[trigger] trim(lines[j])),
                (actual_name@, state.deep_view(), current_phase.deep_view()) == (
                    state_header_of(state_name@).0,
                    state_at(lines, h, state_name@, k as int),
                    phase_before(lines, h, k as int),
                ),
                states_scan(lines, start, sb, Some(open_state(state_name@)), t0) is Some,
                states_scan(lines, start, sb, Some(open_state(state_name@)), t0) == states_scan(
                    lines,
                    k as int,
                    sb,
                    Some((actual_name@, state.deep_view(), current_phase.deep_view())),
                    t0,
                ),
            decreases lines.len() - k + if stopped { 0int } else { 1int },
        {
            let line = trimmed(self.current_lines[k].as_str());
            let ghost cur: StateCursor = (actual_name@, state.deep_view(), current_phase.deep_view());
            if header_line(&line) {
                stopped = true;
            } else {
                assert(state_line_ok(cur, line@));
                if starts_with_str(&line, "---") {
                    match find(&line, ':') {
                        Some(colon) => {
                            proof {
                                reveal_strlit("---");
                                lemma_find_char(line@, ':');
                                assert(line@.subrange(0, 3) == "---"@);
                                assert(line@[0] == line@.subrange(0, 3)[0]);
                                assert(line@[1] == line@.subrange(0, 3)[1]);
                                assert(line@[2] == line@.subrange(0, 3)[2]);
                                if colon < 3 {
                                    assert(line@[colon as int] == "---"@[colon as int]);
                                }
                            }
                            let p0 = sub_chars(&line, 3, colon);
                            let ph = trim_chars(&p0);
                            let ph_str = chars_to_string(&ph);
                            if !state.actions.contains_key(ph_str.as_str()) {
                                let empty: Vec<ParsedAction> = Vec::new();
                                proof {
                                    let e: Seq<ActionModel> = Seq::empty();
                                    assert(empty.deep_view() =~= e);
                                }
                                state.actions.insert(ph_str.clone(), empty);
                            }
                            current_phase = Some(ph_str);
                        },
                        None => {},
                    }
                } else if is_content_chars(&line) {
                    let cleaned = clean_chars(&line);
                    if cleaned.len() > 0 {
                        match &current_phase {
                            Some(ph) => {
                                match action_chars(&cleaned, k) {
                                    Some(a) => {
                                        let ghost am = a.deep_view();
                                        let ghost before = state.actions@;
                                        let mut acts: Vec<ParsedAction> = match state.actions.get(
                                            ph.as_str(),
                                        ) {
                                            Some(v) => v.deep_clone(),
                                            None => Vec::new(),
                                        };
                                        assert(acts.deep_view() =~= phase_actions(before, ph@));
                                        acts.push(a);
                                        assert(acts.deep_view() =~= phase_actions(before, ph@).push(
                                            am,
                                        ));
                                        state.actions.insert(ph.clone(), acts);
                                    },
                                    None => {},
                                }
                            },
                            None => {},
                        }
                    }
                }
                assert((actual_name@, state.deep_view(), current_phase.deep_view())
                    == apply_state_line(cur, line@, k));
                proof {
                    lemma_state_line_step(lines, h, state_name@, k as int);
                }
                k = k + 1;
            }
        }
        let ghost cur: StateCursor = (actual_name@, state.deep_view(), current_phase.deep_view());
        proof {
            lemma_states_commit(lines, k as int, sb, Some(cur), t0);
        }
        self.states.insert(actual_name, state);
        *i = k - 1;
    }

    /// Parses every state of the file.
    pub fn parse_states(&mut self, _file_id: usize)
        requires
            no_bare_colon(old(self).lines()),
            states_after(old(self).specblocks@.dom(), old(self).states@, old(self).lines()) is Some,
        ensures
            final(self).states@ == states_after(
                old(self).specblocks@.dom(),
                old(self).states@,
                old(self).lines(),
            ).unwrap(),
            final(self).same_input(old(self)),
            final(self).metadata.deep_view() == old(self).metadata.deep_view(),
            final(self).variables@ == old(self).variables@,
            final(self).specblocks@ == old(self).specblocks@,
            final(self).specblock_defines@ == old(self).specblock_defines@,
    {
        let ghost lines = self.lines();
        let ghost t0 = self.states@;
        let ghost sb = self.specblocks@.dom();
        let mut i: usize = 0;
        while i < self.current_lines.len()
            invariant
                i <= lines.len(),
                lines == self.lines(),
                no_bare_colon(lines),
                self.specblocks@.dom() == sb,
                self.same_input(old(self)),
                self.metadata.deep_view() == old(self).metadata.deep_view(),
                self.variables@ == old(self).variables@,
                self.specblocks@ == old(self).specblocks@,
                self.specblock_defines@ == old(self).specblock_defines@,
                states_after(sb, t0, lines) is Some,
                states_after(sb, t0, lines) == states_scan(lines, i as int, sb, None, self.states@),
            decreases lines.len() - i,
        {
            let line = trimmed(self.current_lines[i].as_str());
            if header_line(&line) {
                let name = block_name_chars(&line);
                let name_str = chars_to_string(&name);
                if !is_reserved_block_chars(&name) && !self.specblocks.contains_key(
                    name_str.as_str(),
                ) {
                    let full = header_inner_chars(&line);
                    self.parse_state(chars_to_string(&full), &mut i);
                }
            }
            i = i + 1;
        }
    }

    // -------------------------------------------------------------------------
    // Files

    /// Clears everything a parse builds except the metadata, then opens
    /// `file_path` with the text that reading it gave.
    pub fn start_parsing(&mut self, file_path: &str, source: FileSource)
        ensures
            final(self).logs_active == old(self).logs_active,
            final(self).current_file == 0,
            final(self).metadata.deep_view() == old(self).metadata.deep_view(),
            final(self).variables@ == Map::<Seq<char>, crate::model::VariableModel>::empty(),
            final(self).states@ == Map::<Seq<char>, StateModel>::empty(),
            final(self).specblocks@ == Map::<Seq<char>, Map<Seq<char>, Seq<char>>>::empty(),
            final(self).specblock_defines@ == Map::<
                Seq<char>,
                crate::model::VariableModel,
            >::empty(),
            final(self).file_paths@.len() == 1,
            final(self).file_paths@[0]@ == file_path@,
            opened(file_path@, source, Seq::empty(), Seq::empty(), *final(self)),
            final(self).line_ids@ == numbered(final(self).current_lines@.len()),
            source is Lines ==> !final(self).aborting && !final(self).invalid_file,
            !(source is Lines) ==> final(self).aborting && final(self).invalid_file,
    {
        self.reset_errors();
        self.current_lines.clear();
        self.line_ids.clear();
        self.file_paths.clear();
        self.current_file = 0;
        self.variables = StrMap::new();
        self.states = StrMap::new();
        self.specblocks = StrMap::new();
        self.specblock_defines = StrMap::new();
        self.aborting = false;
        self.invalid_file = false;
        assert(self.errors@ =~= Seq::<String>::empty());
        assert(self.current_lines@ =~= Seq::<String>::empty());
        assert(self.line_ids@ =~= Seq::<usize>::empty());
        self.open_file(file_path, source);
        assert(self.line_ids@ =~= numbered(self.current_lines@.len()));
    }

    /// Appends the lines of an opened file, or records why it could not be
    /// read.
    pub fn open_file(&mut self, file_path: &str, source: FileSource)
        ensures
            final(self).logs_active == old(self).logs_active,
            final(self).current_file == old(self).current_file,
            final(self).file_paths@.len() == old(self).file_paths@.len() + 1,
            forall|k: int|
                0 <= k < old(self).file_paths@.len() ==> #[trigger] final(self).file_paths@[k]
                    == old(self).file_paths@[k],
            final(self).file_paths@.last()@ == file_path@,
            final(self).same_data(old(self)),
            opened(file_path@, source, old(self).errors@, old(self).current_lines@, *final(self)),
            final(self).line_ids@ == old(self).line_ids@ + numbered(
                (final(self).current_lines@.len() - old(self).current_lines@.len()) as nat,
            ),
            source is Lines ==> final(self).aborting == old(self).aborting
                && final(self).invalid_file == old(self).invalid_file,
            !(source is Lines) ==> final(self).aborting && final(self).invalid_file,
    {
        self.file_paths.push(copy_str(file_path));
        match source {
            FileSource::Lines(lines) => {
                self.push_lines(lines);
            },
            FileSource::Unopenable(error) => {
                let mut message = copy_str("File ");
                message.append(file_path);
                message.append(" does not exist or cannot be opened: ");
                message.append(error.as_str());
                self.fatal_error(message);
                assert(self.line_ids@ =~= old(self).line_ids@ + numbered(0));
                assert(self.errors@.drop_last() =~= old(self).errors@);
            },
            FileSource::Unreadable(lines, error) => {
                let count = lines.len();
                self.push_lines(lines);
                let digits = decimal_chars(count as u64);
                let mut message = copy_str("Error reading line ");
                message.append(chars_to_string(&digits).as_str());
                message.append(" from ");
                message.append(file_path);
                message.append(": ");
                message.append(error.as_str());
                self.fatal_error(message);
                assert(self.errors@.drop_last() =~= old(self).errors@);
            },
        }
    }

    /// Appends lines numbered from 1.
    fn push_lines(&mut self, lines: Vec<String>)
        ensures
            final(self).current_lines@ == old(self).current_lines@ + lines@,
            final(self).line_ids@ == old(self).line_ids@ + numbered(lines@.len()),
            final(self).errors@ == old(self).errors@,
            final(self).logs_active == old(self).logs_active,
            final(self).file_paths@ == old(self).file_paths@,
            final(self).current_file == old(self).current_file,
            final(self).aborting == old(self).aborting,
            final(self).invalid_file == old(self).invalid_file,
            final(self).same_data(old(self)),
    {
        let mut k: usize = 0;
        while k < lines.len()
            invariant
                k <= lines.len(),
                self.current_lines@ == old(self).current_lines@ + lines@.take(k as int),
                self.line_ids@ == old(self).line_ids@ + numbered(k as nat),
                self.errors@ == old(self).errors@,
                self.logs_active == old(self).logs_active,
                self.file_paths@ == old(self).file_paths@,
                self.current_file == old(self).current_file,
                self.aborting == old(self).aborting,
                self.invalid_file == old(self).invalid_file,
                self.same_data(old(self)),
            decreases lines.len() - k,
        {
            self.current_lines.push(lines[k].clone());
            self.line_ids.push(k + 1);
            assert(self.current_lines@ =~= old(self).current_lines@ + lines@.take(k + 1));
            assert(self.line_ids@ =~= old(self).line_ids@ + numbered((k + 1) as nat));
            k = k + 1;
        }
        assert(lines@.take(k as int) =~= lines@);
    }

    /// The parsed character, unless parsing was aborted or the file is
    /// invalid.
    pub fn end_parsing(&mut self) -> (r: Option<ParsedCharacter>)
        ensures
            r is None <==> (old(self).aborting || old(self).invalid_file),
            r matches Some(c) ==> c.deep_view() == character_of(old(self)),
            final(self).same_input(old(self)),
            final(self).same_data(old(self)),
    {
        if self.aborting || self.invalid_file {
            return None;
        }
        Some(
            ParsedCharacter {
                metadata: self.metadata.deep_clone(),
                variables: self.variables.deep_clone_map(),
                states: self.states.deep_clone_map(),
                specblocks: self.specblocks.deep_clone_map(),
                subentities: StrMap::new(),
                transformed_data: StrMap::new(),
            },
        )
    }

    /// Merges the specblocks of a skeleton: for a block both define, the
    /// child's fields override the skeleton's.
    fn inherit_specblocks(&mut self, parent: &StrMap<StrMap<String>>)
        ensures
            final(self).specblocks@ == inherit_blocks(old(self).specblocks@, parent@),
            final(self).same_input(old(self)),
            final(self).metadata.deep_view() == old(self).metadata.deep_view(),
            final(self).variables@ == old(self).variables@,
            final(self).states@ == old(self).states@,
            final(self).specblock_defines@ == old(self).specblock_defines@,
    {
        let ghost child = self.specblocks@;
        proof {
            use_type_invariant(parent);
            parent.lemma_entries();
        }
        let mut i: usize = 0;
        while i < parent.len()
            invariant
                i <= parent.size(),
                parent.distinct_keys(),
                self.same_input(old(self)),
                self.metadata.deep_view() == old(self).metadata.deep_view(),
                self.variables@ == old(self).variables@,
                self.states@ == old(self).states@,
                self.specblock_defines@ == old(self).specblock_defines@,
                forall|k: Seq<char>|
                    #[trigger] self.specblocks@.contains_key(k) == (child.contains_key(k)
                        || exists|j: int| 0 <= j < i && parent.ekey(j) == k),
                forall|k: Seq<char>|
                    self.specblocks@.contains_key(k) ==> #[trigger] self.specblocks@[k] == if exists|
                        j: int,
                    | 0 <= j < i && parent.ekey(j) == k {
                        inherit_blocks(child, parent@)[k]
                    } else {
                        child[k]
                    },
            decreases parent.size() - i,
        {
            proof {
                parent.lemma_entries();
            }
            let name = parent.key_at(i);
            let pblock = parent.value_at(i);
            let ghost before = self.specblocks@;
            let mut block = match self.specblocks.get(name.as_str()) {
                Some(existing) => existing.deep_clone_map(),
                None => StrMap::new(),
            };
            let ghost cb = block@;
            block.extend_missing_from(pblock);
            proof {
                assert(parent@.contains_key(parent.ekey(i as int)));
                assert(parent@[name@] == pblock@);
                if !child.contains_key(name@) && !before.contains_key(name@) {
                    assert(pblock@.union_prefer_right(cb) =~= pblock@);
                }
                if !child.contains_key(name@) && before.contains_key(name@) {
                    let j = choose|j: int| 0 <= j < i && parent.ekey(j) == name@;
                    assert(parent.ekey(j) != parent.ekey(i as int));
                }
                if child.contains_key(name@) && before[name@] != child[name@] {
                    let j = choose|j: int| 0 <= j < i && parent.ekey(j) == name@;
                    assert(parent.ekey(j) != parent.ekey(i as int));
                }
            }
            self.specblocks.insert(name.clone(), block);
            proof {
                assert forall|k: Seq<char>|
                    #[trigger] self.specblocks@.contains_key(k) == (child.contains_key(k)
                        || exists|j: int| 0 <= j < i + 1 && parent.ekey(j) == k) by {
                    if k == name@ {
                        assert(0 <= i < i + 1 && parent.ekey(i as int) == k);
                    }
                    if exists|j: int| 0 <= j < i + 1 && parent.ekey(j) == k {
                        let j = choose|j: int| 0 <= j < i + 1 && parent.ekey(j) == k;
                        if j < i {
                            assert(before.contains_key(k));
                        }
                    }
                }
                assert forall|k: Seq<char>| self.specblocks@.contains_key(k) implies #[trigger] self.specblocks@[k]
                    == if exists|j: int| 0 <= j < i + 1 && parent.ekey(j) == k {
                    inherit_blocks(child, parent@)[k]
                } else {
                    child[k]
                } by {
                    if k == name@ {
                        assert(0 <= i < i + 1 && parent.ekey(i as int) == k);
                    } else if exists|j: int| 0 <= j < i + 1 && parent.ekey(j) == k {
                        let j = choose|j: int| 0 <= j < i + 1 && parent.ekey(j) == k;
                        assert(j < i);
                        assert(exists|j: int| 0 <= j < i && parent.ekey(j) == k);
                    }
                }
            }
            i = i + 1;
        }
        proof {
            parent.lemma_entries();
            let expected = inherit_blocks(child, parent@);
            assert forall|k: Seq<char>| #[trigger] self.specblocks@.contains_key(k) == expected.contains_key(k) by {
                if parent@.contains_key(k) {
                    let j = choose|j: int| 0 <= j < parent.size() && parent.ekey(j) == k;
                    assert(0 <= j < i && parent.ekey(j) == k);
                }
                if exists|j: int| 0 <= j < i && parent.ekey(j) == k {
                    let j = choose|j: int| 0 <= j < i && parent.ekey(j) == k;
                    assert(parent@.contains_key(k));
                }
            }
            assert forall|k: Seq<char>| self.specblocks@.contains_key(k) implies self.specblocks@[k] == expected[k] by {
                if !(exists|j: int| 0 <= j < i && parent.ekey(j) == k) {
                    assert(!parent@.contains_key(k));
                }
            }
            assert(self.specblocks@ =~= expected);
        }
    }

    /// Merges a parsed skeleton character into this one, the child keeping
    /// its own definitions, or records that the skeleton failed to load.
    pub fn load_skeleton(&mut self, skeleton_path: &str, skeleton: Option<ParsedCharacter>)
        ensures
            final(self).logs_active == old(self).logs_active,
            final(self).current_lines@ == old(self).current_lines@,
            final(self).line_ids@ == old(self).line_ids@,
            final(self).file_paths@ == old(self).file_paths@,
            final(self).current_file == old(self).current_file,
            final(self).metadata.deep_view() == old(self).metadata.deep_view(),
            final(self).specblock_defines@ == old(self).specblock_defines@,
            match skeleton {
                Some(sc) => {
                    &&& final(self).errors@ == old(self).errors@
                    &&& final(self).aborting == old(self).aborting
                    &&& final(self).invalid_file == old(self).invalid_file
                    &&& final(self).specblocks@ == inherit_blocks(
                        old(self).specblocks@,
                        sc.specblocks@,
                    )
                    &&& final(self).variables@ == sc.variables@.union_prefer_right(
                        old(self).variables@,
                    )
                    &&& final(self).states@ == sc.states@.union_prefer_right(old(self).states@)
                },
                None => {
                    &&& final(self).errors@.len() == old(self).errors@.len() + 1
                    &&& final(self).errors@.drop_last() == old(self).errors@
                    &&& final(self).errors@.last()@ == "Failed to load skeleton file: "@
                        + skeleton_path@
                    &&& final(self).aborting
                    &&& final(self).invalid_file
                    &&& final(self).same_data(old(self))
                },
            },
    {
        match skeleton {
            Some(sc) => {
                self.inherit_specblocks(&sc.specblocks);
                self.variables.extend_missing_from(&sc.variables);
                self.states.extend_missing_from(&sc.states);
            },
            None => {
                let mut message = copy_str("Failed to load skeleton file: ");
                message.append(skeleton_path);
                self.fatal_error(message);
                assert(self.errors@.drop_last() =~= old(self).errors@);
            },
        }
    }

    /// Parses metadata, and then either asks for the skeleton file that the
    /// metadata names or parses the rest of the file.
    pub fn parse_full_file(&mut self) -> (r: ParseProgress)
        requires
            !old(self).aborting && metadata_after(
                old(self).metadata.deep_view(),
                old(self).lines(),
            ).skeleton is None ==> old(self).passes_ok(),
        ensures
            final(self).same_input(old(self)),
            final(self).specblock_defines@ == old(self).specblock_defines@,
            old(self).aborting ==> r is Finished && final(self).same_data(old(self)),
            !old(self).aborting ==> final(self).metadata.deep_view() == metadata_after(
                old(self).metadata.deep_view(),
                old(self).lines(),
            ),
            !old(self).aborting ==> match metadata_after(
                old(self).metadata.deep_view(),
                old(self).lines(),
            ).skeleton {
                Some(p) => {
                    &&& r matches ParseProgress::SkeletonNeeded(q) && q@ == p
                    &&& final(self).variables@ == old(self).variables@
                    &&& final(self).states@ == old(self).states@
                    &&& final(self).specblocks@ == old(self).specblocks@
                },
                None => {
                    &&& r is Finished
                    &&& passes_done(old(self), final(self))
                },
            },
    {
        if self.aborting {
            return ParseProgress::Finished;
        }
        self.parse_metadata(0);
        match &self.metadata.skeleton {
            Some(skeleton_path) => {
                return ParseProgress::SkeletonNeeded(skeleton_path.clone());
            },
            None => {},
        }
        self.finish_full_file();
        ParseProgress::Finished
    }

    /// Parses specblocks, variables and states, unless parsing was aborted.
    pub fn finish_full_file(&mut self)
        requires
            !old(self).aborting ==> old(self).passes_ok(),
        ensures
            final(self).same_input(old(self)),
            final(self).metadata.deep_view() == old(self).metadata.deep_view(),
            final(self).specblock_defines@ == old(self).specblock_defines@,
            old(self).aborting ==> final(self).same_data(old(self)),
            !old(self).aborting ==> passes_done(old(self), final(self)),
    {
        if self.aborting {
            return;
        }
        let ghost before = *self;
        self.parse_specblocks(0);
        self.parse_variables(0);
        self.parse_states(0);
    }

    /// Parses only the metadata of a file.
    pub fn get_character_metadata(&mut self, file_path: &str, source: FileSource)
        -> (r: Option<CharacterMetadata>)
        ensures
            r is None <==> !(source is Lines),
            r matches Some(m) ==> source matches FileSource::Lines(ls) && m.deep_view()
                == metadata_after(old(self).metadata.deep_view(), ls.deep_view()),
    {
        let ghost src_lines = match &source {
            FileSource::Lines(ls) => ls.deep_view(),
            _ => Seq::empty(),
        };
        self.start_parsing(file_path, source);
        proof {
            if source is Lines {
                assert(self.lines() =~= src_lines);
            }
        }
        self.parse_metadata(0);
        match self.end_parsing() {
            Some(c) => Some(c.metadata),
            None => None,
        }
    }

    /// Parses the metadata and the specblocks of a file: the character
    /// holds them, and no variables or states.
    pub fn get_character_info(&mut self, file_path: &str, source: FileSource)
        -> (r: Option<ParsedCharacter>)
        requires
            source matches FileSource::Lines(ls) ==> no_bare_colon(ls.deep_view()),
        ensures
            r is None <==> !(source is Lines),
            r matches Some(c) ==> source matches FileSource::Lines(ls) && c.deep_view() == (
            CharacterModel {
                metadata: metadata_after(old(self).metadata.deep_view(), ls.deep_view()),
                variables: Map::empty(),
                states: Map::empty(),
                specblocks: specblocks_after(Map::empty(), ls.deep_view()),
                subentities: Map::empty(),
                transformed_data: Map::empty(),
            }),
    {
        let ghost src_lines = match &source {
            FileSource::Lines(ls) => ls.deep_view(),
            _ => Seq::empty(),
        };
        let is_lines = match &source {
            FileSource::Lines(_) => true,
            _ => false,
        };
        self.start_parsing(file_path, source);
        proof {
            if is_lines {
                assert(self.lines() =~= src_lines);
            }
        }
        self.parse_metadata(0);
        if is_lines {
            self.parse_specblocks(0);
        }
        self.end_parsing()
    }

    /// Parses a full character from the text of one file. No other file is
    /// available, so a skeleton that the metadata names fails to load.
    pub fn create_full_character_from_source(&mut self, file_path: &str, source: &str)
        -> (r: Option<ParsedCharacter>)
        requires
            metadata_after(old(self).metadata.deep_view(), text_lines(source@)).skeleton is None
                ==> source_passes_ok(text_lines(source@)),
        ensures
            r.deep_view() == character_from_source(
                old(self).metadata.deep_view(),
                text_lines(source@),
            ),
            metadata_after(old(self).metadata.deep_view(), text_lines(source@)).skeleton is Some
                ==> final(self).errors@.len() == 1,
    {
        let lines = split_lines(source);
        self.start_parsing(file_path, FileSource::Lines(lines));
        let ghost fresh = *self;
        assert(self.lines() =~= text_lines(source@));
        match self.parse_full_file() {
            ParseProgress::SkeletonNeeded(path) => {
                self.load_skeleton(path.as_str(), None);
                self.finish_full_file();
            },
            ParseProgress::Finished => {},
        }
        self.end_parsing()
    }

    /// The arguments of a function call, as given.
    pub fn standard_parse_function(&self, function_name: &str, args: &[String])
        -> (r: Vec<String>)
        ensures
            r.deep_view() == args.deep_view(),
    {
        let mut r: Vec<String> = Vec::new();
        let mut i: usize = 0;
        while i < args.len()
            invariant
                i <= args.len(),
                r@.len() == i,
                forall|j: int| 0 <= j < i ==> #[trigger] r@[j]@ == args@[j]@,
            decreases args.len() - i,
        {
            r.push(args[i].clone());
            i = i + 1;
        }
        assert(r.deep_view() =~= args.deep_view());
        r
    }
}

impl CastagneParser {
    /// Whether the specblock, variable and state passes over the loaded
    /// lines run without panic (`passes_ok`).
    pub fn passes_ok_check(&self) -> (r: bool)
        ensures
            r == self.passes_ok(),
    {
        let ghost lines = self.lines();
        if !no_bare_colon_check(&self.current_lines) {
            return false;
        }
        if !self.variables_pass_ok() {
            return false;
        }
        // The specblocks, to tell specblocks from states.
        let mut scratch = CastagneParser::new();
        scratch.current_lines = self.current_lines.deep_clone();
        scratch.specblocks = self.specblocks.deep_clone_map();
        assert(scratch.lines() == lines);
        scratch.parse_specblocks(0);
        self.states_pass_ok(&scratch.specblocks)
    }

    /// Whether the variable pass runs without panic.
    fn variables_pass_ok(&self) -> (r: bool)
        ensures
            r == (variables_after(self.variables@, self.lines()) is Some),
    {
        let ghost lines = self.lines();
        let ghost mut vars = self.variables@;
        let mut in_block = false;
        let mut i: usize = 0;
        assert(lines.skip(0) =~= lines);
        while i < self.current_lines.len()
            invariant
                i <= lines.len(),
                lines == self.lines(),
                variables_after(self.variables@, lines) == variables_scan(lines.skip(i as int), vars, in_block),
            decreases lines.len() - i,
        {
            let line = trimmed(self.current_lines[i].as_str());
            assert(lines.skip(i as int)[0] == lines[i as int]);
            assert(lines.skip(i as int).drop_first() =~= lines.skip(i + 1));
            if eq_str(&line, ":Variables:") {
                in_block = true;
            } else if in_block && header_line(&line) {
                return true;
            } else if in_block && is_content_chars(&line) {
                let cleaned = clean_chars(&line);
                if !variable_line_ok_chars(&cleaned) {
                    return false;
                }
                proof {
                    vars = apply_variable_line(vars, cleaned@);
                }
            }
            i = i + 1;
        }
        assert(lines.skip(i as int) =~= Seq::<Seq<char>>::empty());
        true
    }

    /// Whether the state pass runs without panic, with the blocks named in
    /// `specblocks` taken as specblocks.
    fn states_pass_ok(&self, specblocks: &StrMap<StrMap<String>>) -> (r: bool)
        requires
            no_bare_colon(self.lines()),
        ensures
            r == (states_after(specblocks@.dom(), self.states@, self.lines()) is Some),
    {
        let ghost lines = self.lines();
        let ghost sb = specblocks@.dom();
        let ghost mut cur: Option<StateCursor> = None;
        let ghost mut states = self.states@;
        let mut in_state = false;
        let mut has_phase = false;
        let mut i: usize = 0;
        while i < self.current_lines.len()
            invariant
                i <= lines.len(),
                lines == self.lines(),
                sb == specblocks@.dom(),
                no_bare_colon(lines),
                states_after(sb, self.states@, lines) == states_scan(lines, i as int, sb, cur, states),
                in_state == (cur is Some),
                cur matches Some(c) ==> (c.2 is Some) == has_phase,
            decreases lines.len() - i,
        {
            let line = trimmed(self.current_lines[i].as_str());
            assert(line@ == trim(lines[i as int]));
            if header_line(&line) {
                assert(!is_bare_colon(trim(lines[i as int])));
                let name = block_name_chars(&line);
                if !is_reserved_block_chars(&name) && !specblocks.contains_key(chars_to_string(&name).as_str()) {
                    let inner = header_inner_chars(&line);
                    if !state_header_ok_chars(&inner) {
                        return false;
                    }
                    proof {
                        states = commit_state(states, cur);
                        cur = Some(open_state(inner@));
                    }
                    in_state = true;
                    has_phase = false;
                } else {
                    proof {
                        states = commit_state(states, cur);
                        cur = None;
                    }
                    in_state = false;
                }
            } else if in_state {
                let is_marker = starts_with_str(&line, "---");
                let content = is_content_chars(&line);
                let cleaned = clean_chars(&line);
                if !is_marker && content && cleaned.len() > 0 && has_phase {
                    if !state_header_ok_chars(&cleaned) {
                        return false;
                    }
                }
                proof {
                    cur = Some(apply_state_line(cur->0, line@, i));
                }
                if is_marker {
                    match find(&line, ':') {
                        Some(_) => {
                            has_phase = true;
                        },
                        None => {},
                    }
                }
            }
            i = i + 1;
        }
        true
    }
}

} // verus!
