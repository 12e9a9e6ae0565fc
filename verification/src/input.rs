//! CastagneInput - input devices, input maps and the input schema.
//!
//! A physical input (a button, an axis, a stick...) is bound to one or more
//! game inputs. The input schema lists the game inputs and how the pressed
//! state of derived and combined inputs follows from the raw input of a
//! device; SOCD rules say what happens when opposite directions are held.

use vstd::prelude::*;
use crate::numbers::{decimal, decimal_chars};
use crate::str_map::{DeepClone, StrMap};
use crate::text::{chars_to_string, copy_str, starts_with, starts_with_str, str_eq};

verus! {

// ---------------------------------------------------------------------------
// Kinds

/// Stick direction types.
#[derive(Debug, Clone, Copy, PartialEq, Eq, Hash, Structural)]
pub enum StickDirection {
    Left,
    Right,
    Down,
    Up,
    Back,
    Forward,
    Portside,
    Starboard,
    NeutralH,
    NeutralV,
}

/// Input device types.
#[derive(Debug, Clone, Copy, PartialEq, Eq, Structural)]
pub enum InputDeviceType {
    Empty,
    Keyboard,
    Controller,
    AI,
}

/// Physical input types.
#[derive(Debug, Clone, Copy, PartialEq, Eq, Structural)]
pub enum PhysicalInputType {
    Raw,
    Button,
    Axis,
    Stick,
    Combination,
    Any,
}

/// Game input types.
#[derive(Debug, Clone, Copy, PartialEq, Eq, Hash, Structural)]
pub enum GameInputType {
    Direct,
    Multiple,
    Derived,
}

/// Derived game input types.
#[derive(Debug, Clone, Copy, PartialEq, Eq, Structural)]
pub enum GameInputDerivedType {
    ButtonPress,
    ButtonRelease,
    Directional,
    DirectionNeutral,
}

/// How simultaneous opposite cardinal directions are resolved.
#[derive(Debug, Clone, Copy, PartialEq, Eq, Structural)]
pub enum SocdType {
    /// Both inputs cancel out.
    Neutral,
    /// The negative direction wins.
    Negative,
    /// The positive direction wins.
    Positive,
}

impl DeepView for InputDeviceType {
    type V = InputDeviceType;

    open spec fn deep_view(&self) -> InputDeviceType {
        *self
    }
}

impl DeepView for PhysicalInputType {
    type V = PhysicalInputType;

    open spec fn deep_view(&self) -> PhysicalInputType {
        *self
    }
}

impl DeepView for GameInputType {
    type V = GameInputType;

    open spec fn deep_view(&self) -> GameInputType {
        *self
    }
}

impl DeepView for GameInputDerivedType {
    type V = GameInputDerivedType;

    open spec fn deep_view(&self) -> GameInputDerivedType {
        *self
    }
}

impl DeepView for SocdType {
    type V = SocdType;

    open spec fn deep_view(&self) -> SocdType {
        *self
    }
}

// ---------------------------------------------------------------------------
// The input schema

/// Input schema entry.
#[derive(Debug, Clone)]
pub struct InputSchemaEntry {
    pub name: String,
    pub input_type: GameInputType,
    pub combination: Option<Vec<String>>,
    pub combination_any: Option<bool>,
    pub derived_type: Option<GameInputDerivedType>,
    pub target: Option<String>,
    pub targets: Option<Vec<String>>,
    pub dir_id: Option<usize>,
    pub game_input_names: Option<Vec<String>>,
}

/// An input schema entry, as characters.
pub struct InputSchemaEntryModel {
    pub name: Seq<char>,
    pub input_type: GameInputType,
    pub combination: Option<Seq<Seq<char>>>,
    pub combination_any: Option<bool>,
    pub derived_type: Option<GameInputDerivedType>,
    pub target: Option<Seq<char>>,
    pub targets: Option<Seq<Seq<char>>>,
    pub dir_id: Option<usize>,
    pub game_input_names: Option<Seq<Seq<char>>>,
}

impl DeepView for InputSchemaEntry {
    type V = InputSchemaEntryModel;

    open spec fn deep_view(&self) -> InputSchemaEntryModel {
        InputSchemaEntryModel {
            name: self.name@,
            input_type: self.input_type,
            combination: self.combination.deep_view(),
            combination_any: self.combination_any,
            derived_type: self.derived_type,
            target: self.target.deep_view(),
            targets: self.targets.deep_view(),
            dir_id: self.dir_id,
            game_input_names: self.game_input_names.deep_view(),
        }
    }
}

/// The names of the game inputs of each type, in the order they were added.
#[derive(Debug, Clone)]
pub struct InputListsByType {
    pub direct: Vec<String>,
    pub multiple: Vec<String>,
    pub derived: Vec<String>,
}

impl InputListsByType {
    /// The names of the game inputs of type `input_type`.
    pub fn get(&self, input_type: GameInputType) -> (r: &Vec<String>)
        ensures
            r.deep_view() == match input_type {
                GameInputType::Direct => self.direct.deep_view(),
                GameInputType::Multiple => self.multiple.deep_view(),
                GameInputType::Derived => self.derived.deep_view(),
            },
    {
        match input_type {
            GameInputType::Direct => &self.direct,
            GameInputType::Multiple => &self.multiple,
            GameInputType::Derived => &self.derived,
        }
    }
}

/// A SOCD rule: the negative input, the positive input, and how a conflict
/// between them is resolved.
pub type SocdEntry = (String, String, SocdType);

/// Input schema.
#[derive(Debug)]
pub struct InputSchema {
    pub inputs: StrMap<InputSchemaEntry>,
    pub input_list: Vec<String>,
    pub input_list_by_type: InputListsByType,
    pub socds: Vec<SocdEntry>,
}

/// An input schema, as characters.
pub struct InputSchemaModel {
    pub inputs: Map<Seq<char>, InputSchemaEntryModel>,
    pub input_list: Seq<Seq<char>>,
    pub direct: Seq<Seq<char>>,
    pub multiple: Seq<Seq<char>>,
    pub derived: Seq<Seq<char>>,
    pub socds: Seq<(Seq<char>, Seq<char>, SocdType)>,
}

impl DeepView for InputSchema {
    type V = InputSchemaModel;

    open spec fn deep_view(&self) -> InputSchemaModel {
        InputSchemaModel {
            inputs: self.inputs@,
            input_list: self.input_list.deep_view(),
            direct: self.input_list_by_type.direct.deep_view(),
            multiple: self.input_list_by_type.multiple.deep_view(),
            derived: self.input_list_by_type.derived.deep_view(),
            socds: self.socds.deep_view(),
        }
    }
}

// ---------------------------------------------------------------------------
// From raw input to input data

/// Which inputs are held: a name absent from the map is not held.
pub type Flags = Map<Seq<char>, bool>;

/// Whether `k` is held in `d`.
pub open spec fn held(d: Flags, k: Seq<char>) -> bool {
    d.contains_key(k) && d[k]
}

/// Every name of `names` released.
pub open spec fn released_all(names: Seq<Seq<char>>) -> Flags {
    Map::new(|k: Seq<char>| names.contains(k), |k: Seq<char>| false)
}

/// `d` with each name of `names` that the raw input has set to its raw
/// value.
pub open spec fn copy_direct(d: Flags, raw: Flags, names: Seq<Seq<char>>) -> Flags {
    Map::new(
        |k: Seq<char>| d.contains_key(k) || (names.contains(k) && raw.contains_key(k)),
        |k: Seq<char>|
            if names.contains(k) && raw.contains_key(k) {
                raw[k]
            } else {
                d[k]
            },
    )
}

/// Whether some input of `c` is held.
pub open spec fn any_held(d: Flags, c: Seq<Seq<char>>) -> bool {
    exists|j: int| 0 <= j < c.len() && #[trigger] held(d, c[j])
}

/// Whether every input of `c` is held.
pub open spec fn all_held(d: Flags, c: Seq<Seq<char>>) -> bool {
    forall|j: int| 0 <= j < c.len() ==> #[trigger] held(d, c[j])
}

/// `d` with every input of `c` held.
pub open spec fn press_all(d: Flags, c: Seq<Seq<char>>) -> Flags {
    Map::new(
        |k: Seq<char>| d.contains_key(k) || c.contains(k),
        |k: Seq<char>|
            if c.contains(k) {
                true
            } else {
                d[k]
            },
    )
}

/// The inputs that the schema entry `name` combines, and whether any one of
/// them suffices, when the schema has such an entry.
pub open spec fn combination_of(s: InputSchemaModel, name: Seq<char>) -> Option<
    (Seq<Seq<char>>, bool),
> {
    if s.inputs.contains_key(name) && s.inputs[name].combination is Some {
        Some(
            (
                s.inputs[name].combination->0,
                match s.inputs[name].combination_any {
                    Some(b) => b,
                    None => false,
                },
            ),
        )
    } else {
        None
    }
}

/// A combination input pressed in the raw input presses the inputs it
/// combines (for an "any" combination, the first of them when none is held
/// yet) and itself.
pub open spec fn press_one(d: Flags, raw: Flags, s: InputSchemaModel, name: Seq<char>) -> Flags {
    if combination_of(s, name) is Some && raw.contains_key(name) && raw[name] {
        let c = (combination_of(s, name)->0).0;
        let any = (combination_of(s, name)->0).1;
        let d2 = if any {
            if !any_held(d, c) && c.len() > 0 {
                d.insert(c[0], true)
            } else {
                d
            }
        } else {
            press_all(d, c)
        };
        d2.insert(name, true)
    } else {
        d
    }
}

/// `press_one` applied to each name of `names` in turn.
pub open spec fn press_combos(d: Flags, raw: Flags, s: InputSchemaModel, names: Seq<Seq<char>>) -> Flags
    decreases names.len(),
{
    if names.len() == 0 {
        d
    } else {
        press_one(press_combos(d, raw, s, names.drop_last()), raw, s, names.last())
    }
}

/// Resolves one SOCD rule: when both directions are held, the neutral rule
/// releases both, the negative rule the positive one, the positive rule the
/// negative one.
pub open spec fn resolve_socd(d: Flags, e: (Seq<char>, Seq<char>, SocdType)) -> Flags {
    if held(d, e.0) && held(d, e.1) {
        match e.2 {
            SocdType::Neutral => d.insert(e.1, false).insert(e.0, false),
            SocdType::Negative => d.insert(e.1, false),
            SocdType::Positive => d.insert(e.0, false),
        }
    } else {
        d
    }
}

/// `resolve_socd` applied to each rule in turn.
pub open spec fn resolve_socds(d: Flags, socds: Seq<(Seq<char>, Seq<char>, SocdType)>) -> Flags
    decreases socds.len(),
{
    if socds.len() == 0 {
        d
    } else {
        resolve_socd(resolve_socds(d, socds.drop_last()), socds.last())
    }
}

/// A combination input not pressed in the raw input is held when any (for
/// an "any" combination) or all of the inputs it combines are held.
pub open spec fn settle_one(d: Flags, raw: Flags, s: InputSchemaModel, name: Seq<char>) -> Flags {
    if combination_of(s, name) is Some && raw.contains_key(name) && !raw[name] {
        let c = (combination_of(s, name)->0).0;
        let any = (combination_of(s, name)->0).1;
        d.insert(
            name,
            if any {
                any_held(d, c)
            } else {
                all_held(d, c)
            },
        )
    } else {
        d
    }
}

/// `settle_one` applied to each name of `names` in turn.
pub open spec fn settle_combos(d: Flags, raw: Flags, s: InputSchemaModel, names: Seq<Seq<char>>) -> Flags
    decreases names.len(),
{
    if names.len() == 0 {
        d
    } else {
        settle_one(settle_combos(d, raw, s, names.drop_last()), raw, s, names.last())
    }
}

/// The input data that the schema `s` makes of the raw input `raw`: every
/// listed input released, direct inputs copied from the raw input,
/// combinations pressed, SOCD rules resolved, then combinations settled.
pub open spec fn input_data_of(s: InputSchemaModel, raw: Flags) -> Flags {
    let d0 = released_all(s.input_list);
    let d1 = copy_direct(d0, raw, s.direct);
    let d2 = press_combos(d1, raw, s, s.multiple);
    let d3 = resolve_socds(d2, s.socds);
    settle_combos(d3, raw, s, s.multiple)
}

// ---------------------------------------------------------------------------
// Laws of the input data

/// Pressing combinations only adds keys.
proof fn lemma_press_keeps_keys(d: Flags, raw: Flags, s: InputSchemaModel, names: Seq<Seq<char>>)
    ensures
        d.dom().subset_of(press_combos(d, raw, s, names).dom()),
    decreases names.len(),
{
    if names.len() > 0 {
        lemma_press_keeps_keys(d, raw, s, names.drop_last());
    }
}

/// One SOCD rule only adds keys, never presses an input, and leaves its
/// two inputs not both held.
proof fn lemma_socd_step(d: Flags, e: (Seq<char>, Seq<char>, SocdType))
    ensures
        d.dom().subset_of(resolve_socd(d, e).dom()),
        forall|k: Seq<char>| #[trigger] held(resolve_socd(d, e), k) ==> held(d, k),
        !(held(resolve_socd(d, e), e.0) && held(resolve_socd(d, e), e.1)),
{
    assert forall|k: Seq<char>| #[trigger] held(resolve_socd(d, e), k) implies held(d, k) by {
        if held(d, e.0) && held(d, e.1) {
            match e.2 {
                SocdType::Neutral => {},
                SocdType::Negative => {},
                SocdType::Positive => {},
            }
        }
    }
}

/// Resolving SOCD rules only adds keys and never presses an input.
proof fn lemma_socds_release_only(d: Flags, socds: Seq<(Seq<char>, Seq<char>, SocdType)>)
    ensures
        d.dom().subset_of(resolve_socds(d, socds).dom()),
        forall|k: Seq<char>| #[trigger] held(resolve_socds(d, socds), k) ==> held(d, k),
    decreases socds.len(),
{
    if socds.len() > 0 {
        lemma_socds_release_only(d, socds.drop_last());
        lemma_socd_step(resolve_socds(d, socds.drop_last()), socds.last());
    }
}

/// After the SOCD rules are resolved, no rule has both its inputs held.
proof fn lemma_socds_resolved(d: Flags, socds: Seq<(Seq<char>, Seq<char>, SocdType)>)
    ensures
        forall|i: int|
            0 <= i < socds.len() ==> !(held(resolve_socds(d, socds), #[trigger] socds[i].0) && held(
                resolve_socds(d, socds),
                socds[i].1,
            )),
    decreases socds.len(),
{
    if socds.len() > 0 {
        let prev = resolve_socds(d, socds.drop_last());
        lemma_socds_resolved(d, socds.drop_last());
        lemma_socd_step(prev, socds.last());
        assert forall|i: int| 0 <= i < socds.len() implies !(held(
            resolve_socds(d, socds),
            #[trigger] socds[i].0,
        ) && held(resolve_socds(d, socds), socds[i].1)) by {
            if i < socds.len() - 1 {
                assert(socds.drop_last()[i] == socds[i]);
                assert(!(held(prev, socds.drop_last()[i].0) && held(prev, socds.drop_last()[i].1)));
            }
        }
    }
}

/// Settling combinations only adds keys, and leaves every input that is not
/// one of the settled names as it was.
proof fn lemma_settle_keeps_others(d: Flags, raw: Flags, s: InputSchemaModel, names: Seq<Seq<char>>)
    ensures
        d.dom().subset_of(settle_combos(d, raw, s, names).dom()),
        forall|k: Seq<char>| !names.contains(k) ==> #[trigger] held(settle_combos(d, raw, s, names), k) == held(d, k),
    decreases names.len(),
{
    if names.len() > 0 {
        lemma_settle_keeps_others(d, raw, s, names.drop_last());
        assert forall|k: Seq<char>| !names.contains(k) implies #[trigger] held(settle_combos(d, raw, s, names), k) == held(d, k) by {
            if names.drop_last().contains(k) {
                let j = choose|j: int| 0 <= j < names.len() - 1 && names.drop_last()[j] == k;
                assert(names[j] == k);
            }
            if k == names.last() {
                assert(names[names.len() - 1] == k);
            }
            let prev = settle_combos(d, raw, s, names.drop_last());
            assert(!names.drop_last().contains(k));
            assert(held(prev, k) == held(d, k));
            assert(settle_combos(d, raw, s, names) == settle_one(prev, raw, s, names.last()));
        }
    }
}

/// Every input that the schema lists has a pressed state in the input
/// data.
pub proof fn lemma_listed_inputs_reported(s: InputSchemaModel, raw: Flags)
    ensures
        forall|k: Seq<char>| s.input_list.contains(k) ==> #[trigger] input_data_of(s, raw).contains_key(k),
{
    let d0 = released_all(s.input_list);
    let d1 = copy_direct(d0, raw, s.direct);
    let d2 = press_combos(d1, raw, s, s.multiple);
    let d3 = resolve_socds(d2, s.socds);
    lemma_press_keeps_keys(d1, raw, s, s.multiple);
    lemma_socds_release_only(d2, s.socds);
    lemma_settle_keeps_others(d3, raw, s, s.multiple);
    assert forall|k: Seq<char>| s.input_list.contains(k) implies #[trigger] input_data_of(s, raw).contains_key(k) by {
        assert(d0.contains_key(k));
        assert(d1.contains_key(k));
        assert(d2.dom().contains(k));
        assert(d3.dom().contains(k));
    }
}

/// Opposite directions are never both held in the input data: for every
/// SOCD rule whose two inputs are not themselves combinations, at most one
/// of them is held.
pub proof fn lemma_socd_exclusive(s: InputSchemaModel, raw: Flags)
    ensures
        forall|i: int|
            0 <= i < s.socds.len() && !s.multiple.contains(#[trigger] s.socds[i].0)
                && !s.multiple.contains(s.socds[i].1) ==> !(held(input_data_of(s, raw), s.socds[i].0)
                && held(input_data_of(s, raw), s.socds[i].1)),
{
    let d0 = released_all(s.input_list);
    let d1 = copy_direct(d0, raw, s.direct);
    let d2 = press_combos(d1, raw, s, s.multiple);
    let d3 = resolve_socds(d2, s.socds);
    lemma_socds_resolved(d2, s.socds);
    lemma_settle_keeps_others(d3, raw, s, s.multiple);
    assert forall|i: int|
        0 <= i < s.socds.len() && !s.multiple.contains(#[trigger] s.socds[i].0)
            && !s.multiple.contains(s.socds[i].1) implies !(held(input_data_of(s, raw), s.socds[i].0)
            && held(input_data_of(s, raw), s.socds[i].1)) by {
        assert(held(input_data_of(s, raw), s.socds[i].0) == held(d3, s.socds[i].0));
        assert(held(input_data_of(s, raw), s.socds[i].1) == held(d3, s.socds[i].1));
    }
}

/// Whether `k` is one of the inputs that a combination of `names` combines.
pub open spec fn combined_in(s: InputSchemaModel, names: Seq<Seq<char>>, k: Seq<char>) -> bool {
    exists|j: int|
        0 <= j < names.len() && #[trigger] combination_of(s, names[j]) is Some && (combination_of(
            s,
            names[j],
        )->0).0.contains(k)
}

/// Whether an SOCD rule of `socds` names `k`.
pub open spec fn in_socd(socds: Seq<(Seq<char>, Seq<char>, SocdType)>, k: Seq<char>) -> bool {
    exists|i: int| 0 <= i < socds.len() && (#[trigger] socds[i].0 == k || socds[i].1 == k)
}

/// `d` and `e` agree on `k`: both have it with one value, or neither has it.
pub open spec fn same_at(d: Flags, e: Flags, k: Seq<char>) -> bool {
    d.contains_key(k) == e.contains_key(k) && (d.contains_key(k) ==> d[k] == e[k])
}

/// Pressing combinations adds only combination names and what they
/// combine, and leaves every other input as it was.
proof fn lemma_press_others(d: Flags, raw: Flags, s: InputSchemaModel, names: Seq<Seq<char>>)
    ensures
        forall|k: Seq<char>|
            #[trigger] press_combos(d, raw, s, names).contains_key(k) ==> d.contains_key(k) || names.contains(
                k,
            ) || combined_in(s, names, k),
        forall|k: Seq<char>|
            !names.contains(k) && !combined_in(s, names, k) ==> #[trigger] same_at(
                press_combos(d, raw, s, names),
                d,
                k,
            ),
    decreases names.len(),
{
    if names.len() > 0 {
        let prev = names.drop_last();
        lemma_press_others(d, raw, s, prev);
        let p = press_combos(d, raw, s, prev);
        let n = names.last();
        assert(names[names.len() - 1] == n);
        assert forall|k: Seq<char>| prev.contains(k) implies names.contains(k) by {
            let j = choose|j: int| 0 <= j < prev.len() && prev[j] == k;
            assert(names[j] == k);
        }
        assert forall|k: Seq<char>| combined_in(s, prev, k) implies combined_in(s, names, k) by {
            let j = choose|j: int|
                0 <= j < prev.len() && #[trigger] combination_of(s, prev[j]) is Some && (combination_of(
                    s,
                    prev[j],
                )->0).0.contains(k);
            assert(names[j] == prev[j]);
        }
        assert forall|k: Seq<char>|
            #[trigger] press_combos(d, raw, s, names).contains_key(k) implies d.contains_key(k)
                || names.contains(k) || combined_in(s, names, k) by {
            if combination_of(s, n) is Some && raw.contains_key(n) && raw[n] && !p.contains_key(k) && k != n {
                let c = (combination_of(s, n)->0).0;
                if (combination_of(s, n)->0).1 {
                    assert(c[0] == k);
                    assert(c.contains(k));
                }
                assert(c.contains(k));
                assert(combination_of(s, names[names.len() - 1]) is Some);
            }
        }
        assert forall|k: Seq<char>| !names.contains(k) && !combined_in(s, names, k) implies #[trigger] same_at(
            press_combos(d, raw, s, names),
            d,
            k,
        ) by {
            assert(!prev.contains(k) && !combined_in(s, prev, k));
            assert(same_at(p, d, k));
            assert(k != n);
            if combination_of(s, n) is Some {
                let c = (combination_of(s, n)->0).0;
                if c.contains(k) {
                    assert(combination_of(s, names[names.len() - 1]) is Some);
                }
                assert(!c.contains(k));
                if c.len() > 0 {
                    assert(c[0] != k) by {
                        if c[0] == k {
                            assert(c.contains(k));
                        }
                    }
                }
            }
        }
    }
}

/// Resolving SOCD rules changes only the inputs that they name, and adds
/// no key.
proof fn lemma_socds_others(d: Flags, socds: Seq<(Seq<char>, Seq<char>, SocdType)>)
    ensures
        resolve_socds(d, socds).dom() == d.dom(),
        forall|k: Seq<char>| !in_socd(socds, k) ==> #[trigger] same_at(resolve_socds(d, socds), d, k),
    decreases socds.len(),
{
    if socds.len() > 0 {
        let prev = socds.drop_last();
        lemma_socds_others(d, prev);
        let r = resolve_socds(d, prev);
        let e = socds.last();
        assert(resolve_socd(r, e).dom() =~= r.dom()) by {
            if held(r, e.0) && held(r, e.1) {
                match e.2 {
                    SocdType::Neutral => {},
                    SocdType::Negative => {},
                    SocdType::Positive => {},
                }
            }
        }
        assert forall|k: Seq<char>| !in_socd(socds, k) implies #[trigger] same_at(resolve_socds(d, socds), d, k) by {
            assert(!in_socd(prev, k)) by {
                if in_socd(prev, k) {
                    let i = choose|i: int| 0 <= i < prev.len() && (#[trigger] prev[i].0 == k || prev[i].1 == k);
                    assert(socds[i] == prev[i]);
                }
            }
            assert(same_at(r, d, k));
            assert(socds[socds.len() - 1] == e);
            assert(e.0 != k && e.1 != k);
        }
    }
}

/// Settling combinations adds only combination names, and leaves every
/// other input as it was.
proof fn lemma_settle_others(d: Flags, raw: Flags, s: InputSchemaModel, names: Seq<Seq<char>>)
    ensures
        forall|k: Seq<char>|
            #[trigger] settle_combos(d, raw, s, names).contains_key(k) ==> d.contains_key(k) || names.contains(k),
        forall|k: Seq<char>| !names.contains(k) ==> #[trigger] same_at(settle_combos(d, raw, s, names), d, k),
    decreases names.len(),
{
    if names.len() > 0 {
        let prev = names.drop_last();
        lemma_settle_others(d, raw, s, prev);
        assert(names[names.len() - 1] == names.last());
        assert forall|k: Seq<char>| prev.contains(k) implies names.contains(k) by {
            let j = choose|j: int| 0 <= j < prev.len() && prev[j] == k;
            assert(names[j] == k);
        }
        assert forall|k: Seq<char>| #[trigger] settle_combos(d, raw, s, names).contains_key(k) implies d.contains_key(
            k,
        ) || names.contains(k) by {
            let p = settle_combos(d, raw, s, prev);
            assert(settle_combos(d, raw, s, names) == settle_one(p, raw, s, names.last()));
            if k != names.last() {
                assert(p.contains_key(k));
            }
        }
        assert forall|k: Seq<char>| !names.contains(k) implies #[trigger] same_at(
            settle_combos(d, raw, s, names),
            d,
            k,
        ) by {
            assert(!prev.contains(k));
            assert(same_at(settle_combos(d, raw, s, prev), d, k));
        }
    }
}

/// The input data holds exactly the listed inputs and, where pressed, the
/// inputs that combinations combine; a direct input that no combination
/// combines and no SOCD rule names is copied from the raw input (released
/// when the raw input lacks it).
pub proof fn lemma_input_data_keys(s: InputSchemaModel, raw: Flags)
    requires
        forall|k: Seq<char>| #[trigger] s.direct.contains(k) ==> s.input_list.contains(k),
        forall|k: Seq<char>| #[trigger] s.multiple.contains(k) ==> s.input_list.contains(k),
    ensures
        forall|k: Seq<char>|
            #[trigger] input_data_of(s, raw).contains_key(k) ==> s.input_list.contains(k) || combined_in(
                s,
                s.multiple,
                k,
            ),
        forall|k: Seq<char>|
            s.input_list.contains(k) ==> #[trigger] input_data_of(s, raw).contains_key(k),
        forall|k: Seq<char>|
            s.direct.contains(k) && !s.multiple.contains(k) && !combined_in(s, s.multiple, k) && !in_socd(
                s.socds,
                k,
            ) ==> #[trigger] input_data_of(s, raw).contains_key(k) && input_data_of(s, raw)[k] == held(
                raw,
                k,
            ),
{
    let d0 = released_all(s.input_list);
    let d1 = copy_direct(d0, raw, s.direct);
    let d2 = press_combos(d1, raw, s, s.multiple);
    let d3 = resolve_socds(d2, s.socds);
    let r = input_data_of(s, raw);
    lemma_listed_inputs_reported(s, raw);
    lemma_press_others(d1, raw, s, s.multiple);
    lemma_socds_others(d2, s.socds);
    lemma_settle_others(d3, raw, s, s.multiple);
    assert forall|k: Seq<char>| #[trigger] r.contains_key(k) implies s.input_list.contains(k) || combined_in(
        s,
        s.multiple,
        k,
    ) by {
        if !s.multiple.contains(k) {
            assert(d3.contains_key(k));
            assert(d2.contains_key(k));
        }
    }
    assert forall|k: Seq<char>|
        s.direct.contains(k) && !s.multiple.contains(k) && !combined_in(s, s.multiple, k) && !in_socd(
            s.socds,
            k,
        ) implies #[trigger] r.contains_key(k) && r[k] == held(raw, k) by {
        assert(same_at(r, d3, k));
        assert(same_at(d3, d2, k));
        assert(same_at(d2, d1, k));
        assert(s.input_list.contains(k));
        assert(d0.contains_key(k));
    }
}

/// Whether `k` is held in `d`.
fn is_held(d: &StrMap<bool>, k: &str) -> (r: bool)
    ensures
        r == held(d@, k@),
{
    match d.get(k) {
        Some(b) => *b,
        None => false,
    }
}

/// Whether some input of `c` is held in `d`.
fn any_held_in(d: &StrMap<bool>, c: &Vec<String>) -> (r: bool)
    ensures
        r == any_held(d@, c.deep_view()),
{
    let ghost cv = c.deep_view();
    let mut i: usize = 0;
    while i < c.len()
        invariant
            i <= c.len(),
            cv == c.deep_view(),
            forall|j: int| 0 <= j < i ==> !#[trigger] held(d@, cv[j]),
        decreases c.len() - i,
    {
        if is_held(d, c[i].as_str()) {
            assert(held(d@, cv[i as int]));
            return true;
        }
        i = i + 1;
    }
    false
}

/// Whether every input of `c` is held in `d`.
fn all_held_in(d: &StrMap<bool>, c: &Vec<String>) -> (r: bool)
    ensures
        r == all_held(d@, c.deep_view()),
{
    let ghost cv = c.deep_view();
    let mut i: usize = 0;
    while i < c.len()
        invariant
            i <= c.len(),
            cv == c.deep_view(),
            forall|j: int| 0 <= j < i ==> #[trigger] held(d@, cv[j]),
        decreases c.len() - i,
    {
        if !is_held(d, c[i].as_str()) {
            assert(!held(d@, cv[i as int]));
            return false;
        }
        i = i + 1;
    }
    true
}

impl InputSchema {
    /// The pressed state of every input that this schema makes of the raw
    /// input of a device.
    pub fn input_data_from_raw(&self, raw: &StrMap<bool>) -> (r: StrMap<bool>)
        ensures
            r@ == input_data_of(self.deep_view(), raw@),
    {
        let ghost s = self.deep_view();
        let mut data: StrMap<bool> = StrMap::new();
        // Every listed input starts released.
        let mut i: usize = 0;
        while i < self.input_list.len()
            invariant
                i <= self.input_list.len(),
                s == self.deep_view(),
                data@ == released_all(s.input_list.take(i as int)),
            decreases self.input_list.len() - i,
        {
            data.insert(self.input_list[i].clone(), false);
            proof {
                let t = s.input_list.take(i as int + 1);
                assert(t.drop_last() =~= s.input_list.take(i as int));
                assert forall|k: Seq<char>| t.contains(k) <==> (s.input_list.take(i as int).contains(k) || k == s.input_list[i as int]) by {
                    if t.contains(k) {
                        let j = choose|j: int| 0 <= j < t.len() && t[j] == k;
                        if j < i {
                            assert(s.input_list.take(i as int)[j] == k);
                        }
                    }
                    if s.input_list.take(i as int).contains(k) {
                        let j = choose|j: int| 0 <= j < i && s.input_list.take(i as int)[j] == k;
                        assert(t[j] == k);
                    }
                    if k == s.input_list[i as int] {
                        assert(t[i as int] == k);
                    }
                }
                assert(data@ =~= released_all(t));
            }
            i = i + 1;
        }
        assert(s.input_list.take(s.input_list.len() as int) =~= s.input_list);
        let ghost d0 = data@;
        // Direct inputs take their raw value.
        let direct = self.input_list_by_type.get(GameInputType::Direct);
        let mut i: usize = 0;
        while i < direct.len()
            invariant
                i <= direct.len(),
                s == self.deep_view(),
                direct.deep_view() == s.direct,
                data@ == copy_direct(d0, raw@, s.direct.take(i as int)),
            decreases direct.len() - i,
        {
            let name = &direct[i];
            let ghost before = data@;
            match raw.get(name.as_str()) {
                Some(v) => {
                    data.insert(name.clone(), *v);
                },
                None => {},
            }
            proof {
                let t = s.direct.take(i as int + 1);
                let p = s.direct.take(i as int);
                assert forall|k: Seq<char>| t.contains(k) <==> (p.contains(k) || k == s.direct[i as int]) by {
                    if t.contains(k) {
                        let j = choose|j: int| 0 <= j < t.len() && t[j] == k;
                        if j < i {
                            assert(p[j] == k);
                        }
                    }
                    if p.contains(k) {
                        let j = choose|j: int| 0 <= j < i && p[j] == k;
                        assert(t[j] == k);
                    }
                    if k == s.direct[i as int] {
                        assert(t[i as int] == k);
                    }
                }
                assert(data@ =~= copy_direct(d0, raw@, t));
            }
            i = i + 1;
        }
        assert(s.direct.take(s.direct.len() as int) =~= s.direct);
        let ghost d1 = data@;
        // Pressed combinations press what they combine.
        let multiple = self.input_list_by_type.get(GameInputType::Multiple);
        let mut i: usize = 0;
        while i < multiple.len()
            invariant
                i <= multiple.len(),
                s == self.deep_view(),
                multiple.deep_view() == s.multiple,
                data@ == press_combos(d1, raw@, s, s.multiple.take(i as int)),
            decreases multiple.len() - i,
        {
            self.press_combination(&mut data, raw, &multiple[i]);
            proof {
                assert(s.multiple.take(i as int + 1).drop_last() =~= s.multiple.take(i as int));
            }
            i = i + 1;
        }
        assert(s.multiple.take(s.multiple.len() as int) =~= s.multiple);
        let ghost d2 = data@;
        // SOCD rules.
        let mut i: usize = 0;
        while i < self.socds.len()
            invariant
                i <= self.socds.len(),
                s == self.deep_view(),
                data@ == resolve_socds(d2, s.socds.take(i as int)),
            decreases self.socds.len() - i,
        {
            let negative = &self.socds[i].0;
            let positive = &self.socds[i].1;
            let socd_type = self.socds[i].2;
            let ghost e = s.socds[i as int];
            assert(e.0 == negative@ && e.1 == positive@ && e.2 == socd_type);
            if is_held(&data, negative.as_str()) && is_held(&data, positive.as_str()) {
                match socd_type {
                    SocdType::Neutral => {
                        data.insert(positive.clone(), false);
                        data.insert(negative.clone(), false);
                    },
                    SocdType::Negative => {
                        data.insert(positive.clone(), false);
                    },
                    SocdType::Positive => {
                        data.insert(negative.clone(), false);
                    },
                }
            }
            proof {
                assert(s.socds.take(i as int + 1).drop_last() =~= s.socds.take(i as int));
            }
            i = i + 1;
        }
        assert(s.socds.take(s.socds.len() as int) =~= s.socds);
        let ghost d3 = data@;
        // Combinations not pressed follow what they combine.
        let mut i: usize = 0;
        while i < multiple.len()
            invariant
                i <= multiple.len(),
                s == self.deep_view(),
                multiple.deep_view() == s.multiple,
                data@ == settle_combos(d3, raw@, s, s.multiple.take(i as int)),
            decreases multiple.len() - i,
        {
            self.settle_combination(&mut data, raw, &multiple[i]);
            proof {
                assert(s.multiple.take(i as int + 1).drop_last() =~= s.multiple.take(i as int));
            }
            i = i + 1;
        }
        data
    }

    /// Presses what the combination `name` combines when the raw input
    /// presses it.
    fn press_combination(&self, data: &mut StrMap<bool>, raw: &StrMap<bool>, name: &String)
        ensures
            final(data)@ == press_one(old(data)@, raw@, self.deep_view(), name@),
    {
        let entry = match self.inputs.get(name.as_str()) {
            Some(e) => e,
            None => {
                return;
            },
        };
        let combination = match &entry.combination {
            Some(c) => c,
            None => {
                return;
            },
        };
        let pressed = match raw.get(name.as_str()) {
            Some(v) => *v,
            None => {
                return;
            },
        };
        if !pressed {
            return;
        }
        let ghost c = combination.deep_view();
        let any = match entry.combination_any {
            Some(b) => b,
            None => false,
        };
        if any {
            if !any_held_in(data, combination) && combination.len() > 0 {
                data.insert(combination[0].clone(), true);
            }
        } else {
            let ghost d = data@;
            let mut i: usize = 0;
            while i < combination.len()
                invariant
                    i <= combination.len(),
                    c == combination.deep_view(),
                    data@ == press_all(d, c.take(i as int)),
                decreases combination.len() - i,
            {
                data.insert(combination[i].clone(), true);
                proof {
                    let t = c.take(i as int + 1);
                    let p = c.take(i as int);
                    assert forall|k: Seq<char>| t.contains(k) <==> (p.contains(k) || k == c[i as int]) by {
                        if t.contains(k) {
                            let j = choose|j: int| 0 <= j < t.len() && t[j] == k;
                            if j < i {
                                assert(p[j] == k);
                            }
                        }
                        if p.contains(k) {
                            let j = choose|j: int| 0 <= j < i && p[j] == k;
                            assert(t[j] == k);
                        }
                        if k == c[i as int] {
                            assert(t[i as int] == k);
                        }
                    }
                    assert(data@ =~= press_all(d, t));
                }
                i = i + 1;
            }
            assert(c.take(c.len() as int) =~= c);
        }
        data.insert(name.clone(), true);
    }

    /// Sets a combination that the raw input does not press from what it
    /// combines.
    fn settle_combination(&self, data: &mut StrMap<bool>, raw: &StrMap<bool>, name: &String)
        ensures
            final(data)@ == settle_one(old(data)@, raw@, self.deep_view(), name@),
    {
        let entry = match self.inputs.get(name.as_str()) {
            Some(e) => e,
            None => {
                return;
            },
        };
        let combination = match &entry.combination {
            Some(c) => c,
            None => {
                return;
            },
        };
        let pressed = match raw.get(name.as_str()) {
            Some(v) => *v,
            None => {
                return;
            },
        };
        if pressed {
            return;
        }
        let any = match entry.combination_any {
            Some(b) => b,
            None => false,
        };
        let value = if any {
            any_held_in(data, combination)
        } else {
            all_held_in(data, combination)
        };
        data.insert(name.clone(), value);
    }
}

// ---------------------------------------------------------------------------
// Physical inputs and devices

/// Physical input definition.
#[derive(Debug, Clone)]
pub struct PhysicalInput {
    pub name: String,
    pub input_type: PhysicalInputType,
    pub game_input_names: Option<Vec<String>>,
    /// Keyboard bindings: `[game input][layout][binding]`.
    pub keyboard_inputs: Vec<Vec<Vec<i32>>>,
    /// Controller bindings: `[game input][layout][binding]`.
    pub controller_inputs: Vec<Vec<Vec<i32>>>,
    /// For a combination input: pairs of physical input and game input ids.
    pub combination: Option<Vec<(usize, usize)>>,
}

/// A physical input, as plain values.
pub struct PhysicalInputModel {
    pub name: Seq<char>,
    pub input_type: PhysicalInputType,
    pub game_input_names: Option<Seq<Seq<char>>>,
    pub keyboard_inputs: Seq<Seq<Seq<i32>>>,
    pub controller_inputs: Seq<Seq<Seq<i32>>>,
    pub combination: Option<Seq<(usize, usize)>>,
}

impl DeepView for PhysicalInput {
    type V = PhysicalInputModel;

    open spec fn deep_view(&self) -> PhysicalInputModel {
        PhysicalInputModel {
            name: self.name@,
            input_type: self.input_type,
            game_input_names: self.game_input_names.deep_view(),
            keyboard_inputs: self.keyboard_inputs.deep_view(),
            controller_inputs: self.controller_inputs.deep_view(),
            combination: self.combination.deep_view(),
        }
    }
}

impl DeepClone for (usize, usize) {
    fn deep_clone(&self) -> (r: (usize, usize)) {
        *self
    }
}

impl DeepClone for PhysicalInput {
    fn deep_clone(&self) -> (r: PhysicalInput) {
        PhysicalInput {
            name: self.name.clone(),
            input_type: self.input_type,
            game_input_names: self.game_input_names.deep_clone(),
            keyboard_inputs: self.keyboard_inputs.deep_clone(),
            controller_inputs: self.controller_inputs.deep_clone(),
            combination: self.combination.deep_clone(),
        }
    }
}

/// Input map entry.
#[derive(Debug, Clone)]
pub struct InputMapEntry {
    pub game_input_name: String,
    pub action_name: String,
    pub bindings_keyboard: Vec<Vec<i32>>,
    pub bindings_controller: Vec<Vec<i32>>,
}

/// An input map entry, as plain values.
pub struct InputMapEntryModel {
    pub game_input_name: Seq<char>,
    pub action_name: Seq<char>,
    pub bindings_keyboard: Seq<Seq<i32>>,
    pub bindings_controller: Seq<Seq<i32>>,
}

impl DeepView for InputMapEntry {
    type V = InputMapEntryModel;

    open spec fn deep_view(&self) -> InputMapEntryModel {
        InputMapEntryModel {
            game_input_name: self.game_input_name@,
            action_name: self.action_name@,
            bindings_keyboard: self.bindings_keyboard.deep_view(),
            bindings_controller: self.bindings_controller.deep_view(),
        }
    }
}

/// Device data.
#[derive(Debug)]
pub struct DeviceData {
    pub name: String,
    pub device_type: InputDeviceType,
    pub display_name: String,
    pub device_action_prefix: String,
    pub bindings_base: usize,
    pub controller_id: Option<usize>,
    pub input_layout: Vec<PhysicalInput>,
    pub input_layout_menu: Vec<PhysicalInput>,
    pub input_map: StrMap<InputMapEntry>,
    pub input_map_menu: StrMap<InputMapEntry>,
}

/// A device, as plain values.
pub struct DeviceModel {
    pub name: Seq<char>,
    pub device_type: InputDeviceType,
    pub display_name: Seq<char>,
    pub device_action_prefix: Seq<char>,
    pub bindings_base: usize,
    pub controller_id: Option<usize>,
    pub input_layout: Seq<PhysicalInputModel>,
    pub input_layout_menu: Seq<PhysicalInputModel>,
    pub input_map: Map<Seq<char>, InputMapEntryModel>,
    pub input_map_menu: Map<Seq<char>, InputMapEntryModel>,
}

impl DeepView for DeviceData {
    type V = DeviceModel;

    open spec fn deep_view(&self) -> DeviceModel {
        DeviceModel {
            name: self.name@,
            device_type: self.device_type,
            display_name: self.display_name@,
            device_action_prefix: self.device_action_prefix@,
            bindings_base: self.bindings_base,
            controller_id: self.controller_id,
            input_layout: self.input_layout.deep_view(),
            input_layout_menu: self.input_layout_menu.deep_view(),
            input_map: self.input_map@,
            input_map_menu: self.input_map_menu@,
        }
    }
}

/// The game input names that a physical input of type `t` has by default,
/// after its own name.
pub open spec fn default_suffixes(t: PhysicalInputType) -> Seq<Seq<char>> {
    match t {
        PhysicalInputType::Axis => seq!["Negative"@, "Positive"@, "Neutral"@],
        PhysicalInputType::Stick => seq![
            "Left"@,
            "Right"@,
            "Down"@,
            "Up"@,
            "Back"@,
            "Forward"@,
            "Portside"@,
            "Starboard"@,
            "NeutralH"@,
            "NeutralV"@,
        ],
        _ => seq![""@],
    }
}

/// The game input names of a physical input: its own list when it has one,
/// else its name followed by each default suffix.
pub open spec fn game_input_names_of(p: PhysicalInputModel) -> Seq<Seq<char>> {
    match p.game_input_names {
        Some(names) => names,
        None => default_suffixes(p.input_type).map_values(|x: Seq<char>| p.name + x),
    }
}

/// `s` cut to at most `n` elements.
pub open spec fn truncated<A>(s: Seq<A>, n: nat) -> Seq<A> {
    if s.len() > n {
        s.take(n as int)
    } else {
        s
    }
}

/// The game input names that can be bound: the two directions of an axis,
/// the four directions of a stick, every name of other inputs.
pub open spec fn bindable_names_of(p: PhysicalInputModel) -> Seq<Seq<char>> {
    match p.input_type {
        PhysicalInputType::Axis => truncated(game_input_names_of(p), 2),
        PhysicalInputType::Stick => truncated(game_input_names_of(p), 4),
        _ => game_input_names_of(p),
    }
}

/// The input map entry of the `i`-th game input `name` of `p`: its bindings
/// are the `i`-th of `p`'s, or none.
pub open spec fn map_entry(p: PhysicalInputModel, i: int, name: Seq<char>) -> InputMapEntryModel {
    InputMapEntryModel {
        game_input_name: name,
        action_name: name,
        bindings_keyboard: if 0 <= i < p.keyboard_inputs.len() {
            p.keyboard_inputs[i]
        } else {
            Seq::empty()
        },
        bindings_controller: if 0 <= i < p.controller_inputs.len() {
            p.controller_inputs[i]
        } else {
            Seq::empty()
        },
    }
}

/// `m` with the entries of the first `n` bindable game inputs of `p`, in
/// order, a later entry replacing an earlier one of the same name.
pub open spec fn add_map_entries(
    m: Map<Seq<char>, InputMapEntryModel>,
    p: PhysicalInputModel,
    n: nat,
) -> Map<Seq<char>, InputMapEntryModel>
    decreases n,
{
    if n == 0 {
        m
    } else {
        let k = (n - 1) as nat;
        add_map_entries(m, p, k).insert(
            bindable_names_of(p)[k as int],
            map_entry(p, k as int, bindable_names_of(p)[k as int]),
        )
    }
}

/// The input map of a layout.
pub open spec fn input_map_of(layout: Seq<PhysicalInputModel>) -> Map<Seq<char>, InputMapEntryModel>
    decreases layout.len(),
{
    if layout.len() == 0 {
        Map::empty()
    } else {
        add_map_entries(
            input_map_of(layout.drop_last()),
            layout.last(),
            bindable_names_of(layout.last()).len(),
        )
    }
}

/// The game input names that a physical input without its own names gets:
/// its name followed, for an axis, by Negative, Positive, Neutral; for a
/// stick, by Left, Right, Down, Up, Back, Forward, Portside, Starboard,
/// NeutralH, NeutralV, in that order; for other inputs, by nothing.
pub proof fn lemma_default_game_input_names(p: PhysicalInputModel)
    requires
        p.game_input_names is None,
    ensures
        p.input_type is Axis ==> game_input_names_of(p) == seq![
            p.name + "Negative"@,
            p.name + "Positive"@,
            p.name + "Neutral"@,
        ],
        p.input_type is Stick ==> game_input_names_of(p) == seq![
            p.name + "Left"@,
            p.name + "Right"@,
            p.name + "Down"@,
            p.name + "Up"@,
            p.name + "Back"@,
            p.name + "Forward"@,
            p.name + "Portside"@,
            p.name + "Starboard"@,
            p.name + "NeutralH"@,
            p.name + "NeutralV"@,
        ],
        !(p.input_type is Axis) && !(p.input_type is Stick) ==> game_input_names_of(p) == seq![p.name],
{
    let f = |x: Seq<char>| p.name + x;
    match p.input_type {
        PhysicalInputType::Axis => {
            assert(game_input_names_of(p) =~= seq![
                p.name + "Negative"@,
                p.name + "Positive"@,
                p.name + "Neutral"@,
            ]);
        },
        PhysicalInputType::Stick => {
            assert(game_input_names_of(p) =~= seq![
                p.name + "Left"@,
                p.name + "Right"@,
                p.name + "Down"@,
                p.name + "Up"@,
                p.name + "Back"@,
                p.name + "Forward"@,
                p.name + "Portside"@,
                p.name + "Starboard"@,
                p.name + "NeutralH"@,
                p.name + "NeutralV"@,
            ]);
        },
        _ => {
            assert(p.name + ""@ =~= p.name) by {
                reveal_strlit("");
            }
            assert(game_input_names_of(p) =~= seq![p.name]);
        },
    }
}

/// Names that differ after a common prefix differ.
proof fn lemma_prefix_differs(a: Seq<char>, x: Seq<char>, y: Seq<char>)
    requires
        x != y,
    ensures
        a + x != a + y,
{
    if a + x == a + y {
        assert((a + x).skip(a.len() as int) =~= x);
        assert((a + y).skip(a.len() as int) =~= y);
    }
}

/// The binding at index `k` of `p`'s keyboard (or controller) bindings, or
/// none.
pub open spec fn binding_at(b: Seq<Seq<Seq<i32>>>, k: int) -> Seq<Seq<i32>> {
    if 0 <= k < b.len() {
        b[k]
    } else {
        Seq::empty()
    }
}

/// In the input map of a stick without its own names, the k-th binding of
/// the stick binds the k-th of its Left, Right, Down, Up inputs.
pub proof fn lemma_stick_bindings(p: PhysicalInputModel)
    requires
        p.input_type is Stick,
        p.game_input_names is None,
    ensures
        ({
            let m = input_map_of(seq![p]);
            &&& m.dom() == set![p.name + "Left"@, p.name + "Right"@, p.name + "Down"@, p.name + "Up"@]
            &&& m[p.name + "Left"@].bindings_keyboard == binding_at(p.keyboard_inputs, 0)
            &&& m[p.name + "Right"@].bindings_keyboard == binding_at(p.keyboard_inputs, 1)
            &&& m[p.name + "Down"@].bindings_keyboard == binding_at(p.keyboard_inputs, 2)
            &&& m[p.name + "Up"@].bindings_keyboard == binding_at(p.keyboard_inputs, 3)
            &&& m[p.name + "Left"@].bindings_controller == binding_at(p.controller_inputs, 0)
            &&& m[p.name + "Right"@].bindings_controller == binding_at(p.controller_inputs, 1)
            &&& m[p.name + "Down"@].bindings_controller == binding_at(p.controller_inputs, 2)
            &&& m[p.name + "Up"@].bindings_controller == binding_at(p.controller_inputs, 3)
        }),
{
    lemma_default_game_input_names(p);
    let l = p.name + "Left"@;
    let r = p.name + "Right"@;
    let d = p.name + "Down"@;
    let u = p.name + "Up"@;
    reveal_strlit("Left");
    reveal_strlit("Right");
    reveal_strlit("Down");
    reveal_strlit("Up");
    assert("Left"@ != "Right"@) by {
        assert("Left"@.len() != "Right"@.len());
    }
    assert("Left"@ != "Down"@) by {
        assert("Left"@[0] != "Down"@[0]);
    }
    assert("Left"@ != "Up"@) by {
        assert("Left"@.len() != "Up"@.len());
    }
    assert("Right"@ != "Down"@) by {
        assert("Right"@.len() != "Down"@.len());
    }
    assert("Right"@ != "Up"@) by {
        assert("Right"@.len() != "Up"@.len());
    }
    assert("Down"@ != "Up"@) by {
        assert("Down"@.len() != "Up"@.len());
    }
    lemma_prefix_differs(p.name, "Left"@, "Right"@);
    lemma_prefix_differs(p.name, "Left"@, "Down"@);
    lemma_prefix_differs(p.name, "Left"@, "Up"@);
    lemma_prefix_differs(p.name, "Right"@, "Down"@);
    lemma_prefix_differs(p.name, "Right"@, "Up"@);
    lemma_prefix_differs(p.name, "Down"@, "Up"@);
    let b = bindable_names_of(p);
    assert(b =~= seq![l, r, d, u]);
    let lay = seq![p];
    assert(lay.drop_last() =~= Seq::<PhysicalInputModel>::empty());
    assert(lay.last() == p);
    assert(input_map_of(lay.drop_last()) == Map::<Seq<char>, InputMapEntryModel>::empty());
    assert(input_map_of(lay) == add_map_entries(Map::empty(), p, 4));
    reveal_with_fuel(add_map_entries, 5);
    let m = add_map_entries(Map::empty(), p, 4);
    assert(m == Map::<Seq<char>, InputMapEntryModel>::empty().insert(l, map_entry(p, 0, l)).insert(
        r,
        map_entry(p, 1, r),
    ).insert(d, map_entry(p, 2, d)).insert(u, map_entry(p, 3, u)));
    assert(m.dom() =~= set![l, r, d, u]);
}

/// A schema with no input.
pub open spec fn empty_schema() -> InputSchemaModel {
    InputSchemaModel {
        inputs: Map::empty(),
        input_list: Seq::empty(),
        direct: Seq::empty(),
        multiple: Seq::empty(),
        derived: Seq::empty(),
        socds: Seq::empty(),
    }
}

/// The schema entry of a new game input.
pub open spec fn schema_entry(name: Seq<char>, t: GameInputType) -> InputSchemaEntryModel {
    InputSchemaEntryModel {
        name,
        input_type: t,
        combination: None,
        combination_any: None,
        derived_type: None,
        target: None,
        targets: None,
        dir_id: None,
        game_input_names: None,
    }
}

/// `s` with the game input `name` of type `t` added, unless it has one of
/// that name already.
pub open spec fn add_game_input(s: InputSchemaModel, name: Seq<char>, t: GameInputType) -> InputSchemaModel {
    if s.inputs.contains_key(name) {
        s
    } else {
        InputSchemaModel {
            inputs: s.inputs.insert(name, schema_entry(name, t)),
            input_list: s.input_list.push(name),
            direct: if t is Direct {
                s.direct.push(name)
            } else {
                s.direct
            },
            multiple: if t is Multiple {
                s.multiple.push(name)
            } else {
                s.multiple
            },
            derived: if t is Derived {
                s.derived.push(name)
            } else {
                s.derived
            },
            socds: s.socds,
        }
    }
}

/// Whether a schema can be made of the layout: raw inputs and buttons have
/// at least one game input name.
pub open spec fn schema_layout_ok(layout: Seq<PhysicalInputModel>) -> bool {
    forall|i: int|
        0 <= i < layout.len() && (layout[i].input_type is Raw || layout[i].input_type is Button)
            ==> game_input_names_of(#[trigger] layout[i]).len() > 0
}

/// The schema of a layout: each raw input and button adds its first game
/// input as a direct input; other physical inputs add nothing.
pub open spec fn schema_of(layout: Seq<PhysicalInputModel>) -> InputSchemaModel
    decreases layout.len(),
{
    if layout.len() == 0 {
        empty_schema()
    } else {
        let s = schema_of(layout.drop_last());
        let p = layout.last();
        if p.input_type is Raw || p.input_type is Button {
            add_game_input(s, game_input_names_of(p)[0], GameInputType::Direct)
        } else {
            s
        }
    }
}

/// `name` followed by `suffix`.
fn suffixed(name: &String, suffix: &str) -> (r: String)
    ensures
        r@ == name@ + suffix@,
{
    let mut r = name.clone();
    r.append(suffix);
    r
}

// ---------------------------------------------------------------------------
// The input manager

/// CastagneInput - the input manager: devices, layouts and the schema.
pub struct CastagneInput {
    devices: DeviceTable,
    input_layout: Vec<PhysicalInput>,
    input_layout_menu: Vec<PhysicalInput>,
    input_schema: InputSchema,
    // Config values
    number_of_keyboard_players: usize,
    number_of_controller_players: usize,
    number_of_keyboard_layouts: usize,
    number_of_controller_layouts: usize,
}

/// The input manager, as plain values.
pub struct InputManagerModel {
    pub devices: Map<Seq<char>, DeviceModel>,
    pub devices_list: Seq<Seq<char>>,
    pub input_layout: Seq<PhysicalInputModel>,
    pub input_layout_menu: Seq<PhysicalInputModel>,
    pub schema: InputSchemaModel,
    pub keyboard_players: usize,
    pub controller_players: usize,
    pub keyboard_layouts: usize,
    pub controller_layouts: usize,
}

impl View for CastagneInput {
    type V = InputManagerModel;

    closed spec fn view(&self) -> InputManagerModel {
        InputManagerModel {
            devices: self.devices.map@,
            devices_list: self.devices.list.deep_view(),
            input_layout: self.input_layout.deep_view(),
            input_layout_menu: self.input_layout_menu.deep_view(),
            schema: self.input_schema.deep_view(),
            keyboard_players: self.number_of_keyboard_players,
            controller_players: self.number_of_controller_players,
            keyboard_layouts: self.number_of_keyboard_layouts,
            controller_layouts: self.number_of_controller_layouts,
        }
    }
}

/// The device names listed are the names of the devices, each once.
pub open spec fn devices_listed(list: Seq<Seq<char>>, devices: Map<Seq<char>, DeviceModel>) -> bool {
    &&& list.no_duplicates()
    &&& forall|k: Seq<char>| #[trigger] devices.contains_key(k) <==> list.contains(k)
}

/// Adding a name that is not a device keeps the list and the map in
/// agreement.
proof fn lemma_listed_after_push(
    list: Seq<Seq<char>>,
    devices: Map<Seq<char>, DeviceModel>,
    name: Seq<char>,
    after: Map<Seq<char>, DeviceModel>,
)
    requires
        devices_listed(list, devices),
        !devices.contains_key(name),
        after.dom() == devices.dom().insert(name),
    ensures
        devices_listed(list.push(name), after),
{
    assert forall|k: Seq<char>| #[trigger] after.contains_key(k) <==> list.push(name).contains(k) by {
        if list.push(name).contains(k) && k != name {
            let i = choose|i: int| 0 <= i < list.push(name).len() && list.push(name)[i] == k;
            assert(list[i] == k);
        }
        if list.contains(k) {
            let i = choose|i: int| 0 <= i < list.len() && list[i] == k;
            assert(list.push(name)[i] == k);
        }
        if k == name {
            assert(list.push(name)[list.len() as int] == name);
        }
    }
    assert forall|i: int, j: int|
        0 <= i < list.push(name).len() && 0 <= j < list.push(name).len() && i != j implies list.push(name)[i]
        != list.push(name)[j] by {
        if i == list.len() {
            assert(list.contains(list[j]));
        } else if j == list.len() {
            assert(list.contains(list[i]));
        }
    }
}

/// The devices by name, and their names in the order they were added.
struct DeviceTable {
    map: StrMap<DeviceData>,
    list: Vec<String>,
}

/// Whether a schema lists every direct and every combination input.
pub open spec fn schema_lists_ok(s: InputSchemaModel) -> bool {
    &&& forall|k: Seq<char>| #[trigger] s.direct.contains(k) ==> s.input_list.contains(k)
    &&& forall|k: Seq<char>| #[trigger] s.multiple.contains(k) ==> s.input_list.contains(k)
}

impl CastagneInput {
    /// The device list names each device once and nothing else, and the
    /// schema lists each of its direct and combination inputs.
    #[verifier::type_invariant]
    spec fn well_formed(self) -> bool {
        &&& devices_listed(self.devices.list.deep_view(), self.devices.map@)
        &&& schema_lists_ok(self.input_schema.deep_view())
    }
}

/// A table with no device.
fn empty_table() -> (r: DeviceTable)
    ensures
        r.map@ == Map::<Seq<char>, DeviceModel>::empty(),
        r.list.deep_view() == Seq::<Seq<char>>::empty(),
        devices_listed(r.list.deep_view(), r.map@),
{
    let r = DeviceTable { map: StrMap::new(), list: Vec::new() };
    assert(r.list.deep_view() =~= Seq::<Seq<char>>::empty());
    r
}

/// Adds the device `data` under `name` to the map and to the list.
fn record_device(table: &mut DeviceTable, name: &str, data: DeviceData)
    requires
        devices_listed(old(table).list.deep_view(), old(table).map@),
        !old(table).map@.contains_key(name@),
    ensures
        final(table).map@ == old(table).map@.insert(name@, data.deep_view()),
        final(table).list.deep_view() == old(table).list.deep_view().push(name@),
        devices_listed(final(table).list.deep_view(), final(table).map@),
{
    table.list.push(copy_str(name));
    table.map.insert(copy_str(name), data);
    assert(table.list.deep_view() =~= old(table).list.deep_view().push(name@));
    proof {
        lemma_listed_after_push(old(table).list.deep_view(), old(table).map@, name@, table.map@);
    }
}

/// Adding a game input keeps every direct and combination input listed.
proof fn lemma_add_game_input_ok(s: InputSchemaModel, name: Seq<char>, t: GameInputType)
    requires
        schema_lists_ok(s),
    ensures
        schema_lists_ok(add_game_input(s, name, t)),
{
    let r = add_game_input(s, name, t);
    if !s.inputs.contains_key(name) {
        assert forall|k: Seq<char>| #[trigger] r.direct.contains(k) implies r.input_list.contains(k) by {
            if k == name {
                assert(r.input_list[r.input_list.len() - 1] == name);
            } else {
                if t is Direct {
                    let i = choose|i: int| 0 <= i < r.direct.len() && r.direct[i] == k;
                    assert(i < s.direct.len());
                    assert(s.direct[i] == k);
                }
                assert(s.direct.contains(k));
                let j = choose|j: int| 0 <= j < s.input_list.len() && s.input_list[j] == k;
                assert(r.input_list[j] == k);
            }
        }
        assert forall|k: Seq<char>| #[trigger] r.multiple.contains(k) implies r.input_list.contains(k) by {
            if k == name {
                assert(r.input_list[r.input_list.len() - 1] == name);
            } else {
                if t is Multiple {
                    let i = choose|i: int| 0 <= i < r.multiple.len() && r.multiple[i] == k;
                    assert(i < s.multiple.len());
                    assert(s.multiple[i] == k);
                }
                assert(s.multiple.contains(k));
                let j = choose|j: int| 0 <= j < s.input_list.len() && s.input_list[j] == k;
                assert(r.input_list[j] == k);
            }
        }
    }
}

/// The schema of a layout lists each of its direct and combination inputs.
proof fn lemma_schema_of_ok(layout: Seq<PhysicalInputModel>)
    ensures
        schema_lists_ok(schema_of(layout)),
    decreases layout.len(),
{
    if layout.len() > 0 {
        lemma_schema_of_ok(layout.drop_last());
        let p = layout.last();
        if p.input_type is Raw || p.input_type is Button {
            lemma_add_game_input_ok(schema_of(layout.drop_last()), game_input_names_of(p)[0], GameInputType::Direct);
        }
    }
}

/// The display name of a device.
pub open spec fn display_name_of(t: InputDeviceType, param: Option<usize>) -> Seq<char> {
    let n = match param {
        Some(p) => p as nat,
        None => 0nat,
    };
    match t {
        InputDeviceType::Empty => "No Input Device"@,
        InputDeviceType::AI => "AI Controlled"@,
        InputDeviceType::Keyboard => "Keyboard "@ + decimal(n + 1),
        InputDeviceType::Controller => "Controller "@ + decimal(n + 1),
    }
}

/// The device that `add_device` makes.
pub open spec fn device_of(
    m: InputManagerModel,
    name: Seq<char>,
    t: InputDeviceType,
    param: Option<usize>,
) -> DeviceModel {
    DeviceModel {
        name,
        device_type: t,
        display_name: display_name_of(t, param),
        device_action_prefix: "castagne-"@ + name + "-"@,
        bindings_base: if t is Keyboard && param is Some {
            param->0
        } else {
            0
        },
        controller_id: if t is Controller {
            param
        } else {
            None
        },
        input_layout: m.input_layout,
        input_layout_menu: m.input_layout_menu,
        input_map: input_map_of(m.input_layout),
        input_map_menu: input_map_of(m.input_layout_menu),
    }
}

/// `m` with the device `name` added, unless it has one of that name.
pub open spec fn with_device(
    m: InputManagerModel,
    name: Seq<char>,
    t: InputDeviceType,
    param: Option<usize>,
) -> InputManagerModel {
    if m.devices.contains_key(name) {
        m
    } else {
        InputManagerModel {
            devices: m.devices.insert(name, device_of(m, name, t, param)),
            devices_list: m.devices_list.push(name),
            input_layout: m.input_layout,
            input_layout_menu: m.input_layout_menu,
            schema: m.schema,
            keyboard_players: m.keyboard_players,
            controller_players: m.controller_players,
            keyboard_layouts: m.keyboard_layouts,
            controller_layouts: m.controller_layouts,
        }
    }
}

/// `m` with each device of `ds` added in turn.
pub open spec fn with_devices(
    m: InputManagerModel,
    ds: Seq<(Seq<char>, InputDeviceType, Option<usize>)>,
) -> InputManagerModel
    decreases ds.len(),
{
    if ds.len() == 0 {
        m
    } else {
        let d = ds.last();
        with_device(with_devices(m, ds.drop_last()), d.0, d.1, d.2)
    }
}

/// The devices that every configured manager has: no device, the AI, then
/// `nk` keyboards `k1`, `k2`... and `nc` controllers `c1`, `c2`...
pub open spec fn default_devices(nk: nat, nc: nat) -> Seq<(Seq<char>, InputDeviceType, Option<usize>)> {
    seq![("empty"@, InputDeviceType::Empty, None), ("ai"@, InputDeviceType::AI, None)]
        + Seq::new(nk, |i: int| ("k"@ + decimal((i + 1) as nat), InputDeviceType::Keyboard, Some(i as usize)))
        + Seq::new(nc, |i: int| ("c"@ + decimal((i + 1) as nat), InputDeviceType::Controller, Some(i as usize)))
}

/// A manager configured with the two layouts.
pub open spec fn configured(
    m: InputManagerModel,
    layout: Seq<PhysicalInputModel>,
    menu: Seq<PhysicalInputModel>,
) -> InputManagerModel {
    with_devices(
        InputManagerModel {
            devices: m.devices,
            devices_list: m.devices_list,
            input_layout: layout,
            input_layout_menu: menu,
            schema: schema_of(layout),
            keyboard_players: m.keyboard_players,
            controller_players: m.controller_players,
            keyboard_layouts: m.keyboard_layouts,
            controller_layouts: m.controller_layouts,
        },
        default_devices(m.keyboard_players as nat, m.controller_players as nat),
    )
}

impl CastagneInput {
    /// The game input names of a physical input.
    fn physical_input_get_game_input_names(&self, physical_input: &PhysicalInput) -> (r: Vec<String>)
        ensures
            r.deep_view() == game_input_names_of(physical_input.deep_view()),
    {
        match &physical_input.game_input_names {
            Some(names) => names.deep_clone(),
            None => {
                let n = &physical_input.name;
                let mut r: Vec<String> = Vec::new();
                match physical_input.input_type {
                    PhysicalInputType::Axis => {
                        r.push(suffixed(n, "Negative"));
                        r.push(suffixed(n, "Positive"));
                        r.push(suffixed(n, "Neutral"));
                    },
                    PhysicalInputType::Stick => {
                        r.push(suffixed(n, "Left"));
                        r.push(suffixed(n, "Right"));
                        r.push(suffixed(n, "Down"));
                        r.push(suffixed(n, "Up"));
                        r.push(suffixed(n, "Back"));
                        r.push(suffixed(n, "Forward"));
                        r.push(suffixed(n, "Portside"));
                        r.push(suffixed(n, "Starboard"));
                        r.push(suffixed(n, "NeutralH"));
                        r.push(suffixed(n, "NeutralV"));
                    },
                    _ => {
                        r.push(suffixed(n, ""));
                    },
                }
                assert(r.deep_view() =~= game_input_names_of(physical_input.deep_view()));
                r
            },
        }
    }

    /// The game input names of a physical input that can be bound.
    fn physical_input_get_bindable_game_input_names(&self, physical_input: &PhysicalInput) -> (r: Vec<String>)
        ensures
            r.deep_view() == bindable_names_of(physical_input.deep_view()),
    {
        let mut gi_names = self.physical_input_get_game_input_names(physical_input);
        let ghost all = gi_names.deep_view();
        match physical_input.input_type {
            PhysicalInputType::Axis => {
                gi_names.truncate(2);
            },
            PhysicalInputType::Stick => {
                gi_names.truncate(4);
            },
            _ => {},
        }
        assert(gi_names.deep_view() =~= bindable_names_of(physical_input.deep_view()));
        gi_names
    }
}

impl CastagneInput {
    /// The input map of a layout: one entry per bindable game input, with
    /// the bindings at the same position.
    fn create_input_map_from_input_layout(&self, input_layout: &[PhysicalInput]) -> (r: StrMap<InputMapEntry>)
        ensures
            r@ == input_map_of(input_layout.deep_view()),
    {
        let ghost l = input_layout.deep_view();
        let mut input_map: StrMap<InputMapEntry> = StrMap::new();
        let mut i: usize = 0;
        while i < input_layout.len()
            invariant
                i <= input_layout.len(),
                l == input_layout.deep_view(),
                input_map@ == input_map_of(l.take(i as int)),
            decreases input_layout.len() - i,
        {
            let physical_input = &input_layout[i];
            let ghost p = physical_input.deep_view();
            assert(p == l[i as int]);
            let game_input_names = self.physical_input_get_bindable_game_input_names(physical_input);
            let ghost before = input_map@;
            let mut gi_id: usize = 0;
            while gi_id < game_input_names.len()
                invariant
                    gi_id <= game_input_names.len(),
                    game_input_names.deep_view() == bindable_names_of(p),
                    p == physical_input.deep_view(),
                    input_map@ == add_map_entries(before, p, gi_id as nat),
                decreases game_input_names.len() - gi_id,
            {
                let game_input_name = &game_input_names[gi_id];
                let bindings_keyboard = if gi_id < physical_input.keyboard_inputs.len() {
                    physical_input.keyboard_inputs[gi_id].deep_clone()
                } else {
                    Vec::new()
                };
                let bindings_controller = if gi_id < physical_input.controller_inputs.len() {
                    physical_input.controller_inputs[gi_id].deep_clone()
                } else {
                    Vec::new()
                };
                let entry = InputMapEntry {
                    game_input_name: game_input_name.clone(),
                    action_name: game_input_name.clone(),
                    bindings_keyboard,
                    bindings_controller,
                };
                proof {
                    let e = map_entry(p, gi_id as int, game_input_name@);
                    if gi_id < physical_input.keyboard_inputs.len() {
                        assert(p.keyboard_inputs[gi_id as int]
                            == physical_input.keyboard_inputs@[gi_id as int].deep_view());
                    } else {
                        assert(entry.bindings_keyboard.deep_view() =~= Seq::<Seq<i32>>::empty());
                    }
                    if gi_id < physical_input.controller_inputs.len() {
                        assert(p.controller_inputs[gi_id as int]
                            == physical_input.controller_inputs@[gi_id as int].deep_view());
                    } else {
                        assert(entry.bindings_controller.deep_view() =~= Seq::<Seq<i32>>::empty());
                    }
                    assert(entry.deep_view() == e);
                }
                input_map.insert(game_input_name.clone(), entry);
                gi_id = gi_id + 1;
            }
            assert(l.take(i as int + 1).drop_last() =~= l.take(i as int));
            i = i + 1;
        }
        assert(l.take(l.len() as int) =~= l);
        input_map
    }

    /// The schema of a layout.
    fn create_input_schema_from_input_layout(&self, input_layout: &[PhysicalInput]) -> (r: InputSchema)
        requires
            schema_layout_ok(input_layout.deep_view()),
        ensures
            r.deep_view() == schema_of(input_layout.deep_view()),
    {
        let ghost l = input_layout.deep_view();
        let mut schema = InputSchema {
            inputs: StrMap::new(),
            input_list: Vec::new(),
            input_list_by_type: InputListsByType {
                direct: Vec::new(),
                multiple: Vec::new(),
                derived: Vec::new(),
            },
            socds: Vec::new(),
        };
        proof {
            assert(l.take(0) =~= Seq::<PhysicalInputModel>::empty());
            assert(schema.input_list.deep_view() =~= Seq::<Seq<char>>::empty());
            assert(schema.input_list_by_type.direct.deep_view() =~= Seq::<Seq<char>>::empty());
            assert(schema.input_list_by_type.multiple.deep_view() =~= Seq::<Seq<char>>::empty());
            assert(schema.input_list_by_type.derived.deep_view() =~= Seq::<Seq<char>>::empty());
            assert(schema.socds.deep_view() =~= Seq::<(Seq<char>, Seq<char>, SocdType)>::empty());
            assert(schema.deep_view() == schema_of(l.take(0)));
        }
        let mut i: usize = 0;
        while i < input_layout.len()
            invariant
                i <= input_layout.len(),
                l == input_layout.deep_view(),
                schema_layout_ok(l),
                schema.deep_view() == schema_of(l.take(i as int)),
            decreases input_layout.len() - i,
        {
            let physical_input = &input_layout[i];
            assert(physical_input.deep_view() == l[i as int]);
            assert(l.take(i as int + 1).drop_last() =~= l.take(i as int));
            assert(l.take(i as int + 1).last() == l[i as int]);
            match physical_input.input_type {
                PhysicalInputType::Raw | PhysicalInputType::Button => {
                    let game_input_names = self.physical_input_get_game_input_names(physical_input);
                    assert(game_input_names.len() > 0);
                    self.add_game_input_to_schema(
                        &mut schema,
                        game_input_names[0].as_str(),
                        GameInputType::Direct,
                        None,
                    );
                },
                _ => {},
            }
            i = i + 1;
        }
        assert(l.take(l.len() as int) =~= l);
        schema
    }

    /// Adds a game input to a schema, unless it has one of that name.
    fn add_game_input_to_schema(
        &self,
        schema: &mut InputSchema,
        input_name: &str,
        input_type: GameInputType,
        _input_data: Option<StrMap<String>>,
    )
        ensures
            final(schema).deep_view() == add_game_input(old(schema).deep_view(), input_name@, input_type),
    {
        if schema.inputs.contains_key(input_name) {
            return;
        }
        let entry = InputSchemaEntry {
            name: copy_str(input_name),
            input_type,
            combination: None,
            combination_any: None,
            derived_type: None,
            target: None,
            targets: None,
            dir_id: None,
            game_input_names: None,
        };
        schema.inputs.insert(copy_str(input_name), entry);
        match input_type {
            GameInputType::Direct => schema.input_list_by_type.direct.push(copy_str(input_name)),
            GameInputType::Multiple => schema.input_list_by_type.multiple.push(copy_str(input_name)),
            GameInputType::Derived => schema.input_list_by_type.derived.push(copy_str(input_name)),
        }
        schema.input_list.push(copy_str(input_name));
        assert(schema.deep_view().input_list =~= old(schema).deep_view().input_list.push(input_name@));
        assert(schema.deep_view().direct =~= add_game_input(old(schema).deep_view(), input_name@, input_type).direct);
        assert(schema.deep_view().multiple =~= add_game_input(old(schema).deep_view(), input_name@, input_type).multiple);
        assert(schema.deep_view().derived =~= add_game_input(old(schema).deep_view(), input_name@, input_type).derived);
    }
}

/// The name under which a menu input is reported: without its `Menu`
/// prefix when it has one, else unchanged.
pub open spec fn menu_output_name(s: Seq<char>) -> Seq<char> {
    if starts_with(s, "Menu"@) {
        s.skip(4)
    } else {
        s
    }
}

/// The menu output name of `name`.
fn menu_output_name_of(name: &String) -> (r: String)
    ensures
        r@ == menu_output_name(name@),
{
    proof {
        reveal_strlit("Menu");
    }
    let chars = crate::text::str_to_chars(name.as_str());
    if starts_with_str(&chars, "Menu") {
        let rest = crate::text::sub_chars(&chars, 4, chars.len());
        assert(rest@ =~= name@.skip(4));
        chars_to_string(&rest)
    } else {
        name.clone()
    }
}

impl CastagneInput {
    /// A manager with no device, no layout and an empty schema.
    pub fn new() -> (r: Self)
        ensures
            r@ == (InputManagerModel {
                devices: Map::empty(),
                devices_list: Seq::empty(),
                input_layout: Seq::empty(),
                input_layout_menu: Seq::empty(),
                schema: empty_schema(),
                keyboard_players: 2,
                controller_players: 4,
                keyboard_layouts: 1,
                controller_layouts: 1,
            }),
            devices_listed(r@.devices_list, r@.devices),
    {
        let r = CastagneInput {
            devices: empty_table(),
            input_layout: Vec::new(),
            input_layout_menu: Vec::new(),
            input_schema: InputSchema {
                inputs: StrMap::new(),
                input_list: Vec::new(),
                input_list_by_type: InputListsByType {
                    direct: Vec::new(),
                    multiple: Vec::new(),
                    derived: Vec::new(),
                },
                socds: Vec::new(),
            },
            number_of_keyboard_players: 2,
            number_of_controller_players: 4,
            number_of_keyboard_layouts: 1,
            number_of_controller_layouts: 1,
        };
        proof {
            assert(r.input_layout.deep_view() =~= Seq::<PhysicalInputModel>::empty());
            assert(r.input_layout_menu.deep_view() =~= Seq::<PhysicalInputModel>::empty());
            assert(r.input_schema.input_list.deep_view() =~= Seq::<Seq<char>>::empty());
            assert(r.input_schema.input_list_by_type.direct.deep_view() =~= Seq::<Seq<char>>::empty());
            assert(r.input_schema.input_list_by_type.multiple.deep_view() =~= Seq::<Seq<char>>::empty());
            assert(r.input_schema.input_list_by_type.derived.deep_view() =~= Seq::<Seq<char>>::empty());
            assert(r.input_schema.socds.deep_view() =~= Seq::<(Seq<char>, Seq<char>, SocdType)>::empty());
        }
        r
    }

    /// Whether a device type has no physical device behind it.
    pub fn is_null_device_type(&self, device_type: InputDeviceType) -> (r: bool)
        ensures
            r == (device_type is Empty || device_type is AI),
    {
        device_type == InputDeviceType::Empty || device_type == InputDeviceType::AI
    }

    /// Adds a device, unless one of that name exists; tells whether it was
    /// added.
    pub fn add_device(&mut self, device_name: &str, device_type: InputDeviceType, device_parameter: Option<usize>) -> (r: bool)
        requires
            device_type is Keyboard || device_type is Controller ==> match device_parameter {
                Some(p) => p < usize::MAX,
                None => true,
            },
        ensures
            final(self)@ == with_device(old(self)@, device_name@, device_type, device_parameter),
            r == !old(self)@.devices.contains_key(device_name@),
            devices_listed(final(self)@.devices_list, final(self)@.devices),
    {
        proof {
            use_type_invariant(&*self);
        }
        if self.devices.map.contains_key(device_name) {
            return false;
        }
        let display_name = match device_type {
            InputDeviceType::Empty => copy_str("No Input Device"),
            InputDeviceType::AI => copy_str("AI Controlled"),
            InputDeviceType::Keyboard => {
                let n = match device_parameter {
                    Some(p) => p,
                    None => 0,
                };
                let digits = decimal_chars((n + 1) as u64);
                let mut d = copy_str("Keyboard ");
                d.append(chars_to_string(&digits).as_str());
                d
            },
            InputDeviceType::Controller => {
                let n = match device_parameter {
                    Some(p) => p,
                    None => 0,
                };
                let digits = decimal_chars((n + 1) as u64);
                let mut d = copy_str("Controller ");
                d.append(chars_to_string(&digits).as_str());
                d
            },
        };
        let mut prefix = copy_str("castagne-");
        prefix.append(device_name);
        prefix.append("-");
        let mut device_data = DeviceData {
            name: copy_str(device_name),
            device_type,
            display_name,
            device_action_prefix: prefix,
            bindings_base: 0,
            controller_id: None,
            input_layout: self.input_layout.deep_clone(),
            input_layout_menu: self.input_layout_menu.deep_clone(),
            input_map: StrMap::new(),
            input_map_menu: StrMap::new(),
        };
        if device_type == InputDeviceType::Keyboard {
            match device_parameter {
                Some(param) => {
                    device_data.bindings_base = param;
                },
                None => {},
            }
        } else if device_type == InputDeviceType::Controller {
            device_data.controller_id = device_parameter;
        }
        device_data.input_map = self.create_input_map_from_input_layout(self.input_layout.as_slice());
        device_data.input_map_menu = self.create_input_map_from_input_layout(
            self.input_layout_menu.as_slice(),
        );
        assert(device_data.deep_view() == device_of(old(self)@, device_name@, device_type, device_parameter));
        let mut table = empty_table();
        std::mem::swap(&mut table, &mut self.devices);
        record_device(&mut table, device_name, device_data);
        std::mem::swap(&mut table, &mut self.devices);
        proof {
            use_type_invariant(&*self);
        }
        true
    }
}

/// The names of the devices that stand for a physical device: all but the
/// empty device and the AI.
pub open spec fn connected_of(list: Seq<Seq<char>>) -> Seq<Seq<char>> {
    list.filter(|d: Seq<char>| d != "empty"@ && d != "ai"@)
}

/// The name that `get_device` looks up: the given one, or the empty device.
pub open spec fn device_key(device_name: Option<&str>) -> Seq<char> {
    match device_name {
        Some(n) => n@,
        None => "empty"@,
    }
}

/// Every input of `m` released.
pub open spec fn all_released<V>(m: Map<Seq<char>, V>) -> Flags {
    Map::new(|k: Seq<char>| m.contains_key(k), |k: Seq<char>| false)
}

/// Every menu input of `m` released, under its output name.
pub open spec fn menu_released<V>(m: Map<Seq<char>, V>) -> Flags {
    Map::new(
        |k: Seq<char>| exists|j: Seq<char>| m.contains_key(j) && menu_output_name(j) == k,
        |k: Seq<char>| false,
    )
}

/// Every key of `m` released.
fn released_keys<V: DeepView>(m: &StrMap<V>) -> (r: StrMap<bool>)
    ensures
        r@ == all_released(m@),
{
    proof {
        use_type_invariant(m);
        m.lemma_entries();
    }
    let mut data: StrMap<bool> = StrMap::new();
    let mut i: usize = 0;
    while i < m.len()
        invariant
            i <= m.size(),
            m.distinct_keys(),
            data@ == Map::new(
                |k: Seq<char>| exists|j: int| 0 <= j < i && m.ekey(j) == k,
                |k: Seq<char>| false,
            ),
        decreases m.size() - i,
    {
        data.insert(m.key_at(i).clone(), false);
        proof {
            let next = Map::new(
                |k: Seq<char>| exists|j: int| 0 <= j < i + 1 && m.ekey(j) == k,
                |k: Seq<char>| false,
            );
            assert forall|k: Seq<char>| #[trigger] next.contains_key(k) == data@.contains_key(k) by {
                if next.contains_key(k) {
                    let j = choose|j: int| 0 <= j < i + 1 && m.ekey(j) == k;
                    if j < i {
                        assert(exists|j2: int| 0 <= j2 < i && m.ekey(j2) == k);
                    }
                }
                if data@.contains_key(k) && k != m.ekey(i as int) {
                    let j = choose|j: int| 0 <= j < i && m.ekey(j) == k;
                    assert(0 <= j < i + 1 && m.ekey(j) == k);
                }
            }
            assert(data@ =~= next);
        }
        i = i + 1;
    }
    proof {
        m.lemma_entries();
        assert(data@ =~= all_released(m@));
    }
    data
}

impl CastagneInput {
    /// Sets the layouts, makes the schema of the main layout, and adds the
    /// default devices.
    pub fn initialize_from_config_data(
        &mut self,
        input_layout: Vec<PhysicalInput>,
        input_layout_menu: Vec<PhysicalInput>,
    )
        requires
            schema_layout_ok(input_layout.deep_view()),
        ensures
            final(self)@ == configured(old(self)@, input_layout.deep_view(), input_layout_menu.deep_view()),
            devices_listed(final(self)@.devices_list, final(self)@.devices),
    {
        proof {
            use_type_invariant(&*self);
        }
        self.input_layout = input_layout.deep_clone();
        self.input_layout_menu = input_layout_menu.deep_clone();
        let schema = self.create_input_schema_from_input_layout(input_layout.as_slice());
        proof {
            lemma_schema_of_ok(input_layout.deep_view());
        }
        self.input_schema = schema;
        let ghost base = self@;
        let ghost ds = default_devices(
            self.number_of_keyboard_players as nat,
            self.number_of_controller_players as nat,
        );
        let nk = self.number_of_keyboard_players;
        let nc = self.number_of_controller_players;
        assert(ds.take(0) =~= Seq::<(Seq<char>, InputDeviceType, Option<usize>)>::empty());
        assert(ds[0] == ("empty"@, InputDeviceType::Empty, None::<usize>));
        assert(ds[1] == ("ai"@, InputDeviceType::AI, None::<usize>));
        self.add_device("empty", InputDeviceType::Empty, None);
        assert(ds.take(1).drop_last() =~= ds.take(0));
        assert(ds.take(1).last() == ds[0]);
        assert(with_devices(base, ds.take(0)) == base);
        assert(with_devices(base, ds.take(1)) == with_device(
            with_devices(base, ds.take(0)),
            ds[0].0,
            ds[0].1,
            ds[0].2,
        ));
        assert(self@ == with_devices(base, ds.take(1)));
        self.add_device("ai", InputDeviceType::AI, None);
        assert(ds.take(2).drop_last() =~= ds.take(1));
        assert(ds.take(2).last() == ds[1]);
        assert(self@ == with_devices(base, ds.take(2)));
        let mut i: usize = 0;
        while i < nk
            invariant
                i <= nk,
                nk == self.number_of_keyboard_players,
                nc == self.number_of_controller_players,
                ds == default_devices(nk as nat, nc as nat),
                self@ == with_devices(base, ds.take(2 + i)),
            decreases nk - i,
        {
            let digits = decimal_chars((i + 1) as u64);
            let mut name = copy_str("k");
            name.append(chars_to_string(&digits).as_str());
            self.add_device(name.as_str(), InputDeviceType::Keyboard, Some(i));
            assert(ds.take(2 + i + 1).drop_last() =~= ds.take(2 + i));
            assert(ds[2 + i as int] == ("k"@ + decimal((i + 1) as nat), InputDeviceType::Keyboard, Some(i)));
            i = i + 1;
        }
        let mut i: usize = 0;
        while i < nc
            invariant
                i <= nc,
                nk == self.number_of_keyboard_players,
                nc == self.number_of_controller_players,
                ds == default_devices(nk as nat, nc as nat),
                self@ == with_devices(base, ds.take(2 + nk + i)),
            decreases nc - i,
        {
            let digits = decimal_chars((i + 1) as u64);
            let mut name = copy_str("c");
            name.append(chars_to_string(&digits).as_str());
            self.add_device(name.as_str(), InputDeviceType::Controller, Some(i));
            assert(ds.take(2 + nk + i + 1).drop_last() =~= ds.take(2 + nk + i));
            assert(ds[2 + nk + i as int] == ("c"@ + decimal((i + 1) as nat), InputDeviceType::Controller, Some(i)));
            i = i + 1;
        }
        assert(ds.take(2 + nk + nc) =~= ds);
        proof {
            use_type_invariant(&*self);
        }
    }

    /// The names of all devices, in the order they were added.
    pub fn get_devices_list(&self) -> (r: Vec<String>)
        ensures
            r.deep_view() == self@.devices_list,
            devices_listed(self@.devices_list, self@.devices),
    {
        proof {
            use_type_invariant(self);
        }
        self.devices.list.deep_clone()
    }

    /// The names of the devices other than the empty device and the AI.
    pub fn get_connected_devices(&self) -> (r: Vec<String>)
        ensures
            r.deep_view() == connected_of(self@.devices_list),
    {
        let ghost l = self.devices.list.deep_view();
        let mut r: Vec<String> = Vec::new();
        let mut i: usize = 0;
        while i < self.devices.list.len()
            invariant
                i <= self.devices.list.len(),
                l == self.devices.list.deep_view(),
                l == self@.devices_list,
                r.deep_view() == connected_of(l.take(i as int)),
            decreases self.devices.list.len() - i,
        {
            let d = &self.devices.list[i];
            assert(l.take(i as int + 1).drop_last() =~= l.take(i as int));
            assert(l.take(i as int + 1).last() == d@);
            proof {
                reveal(Seq::filter);
            }
            if !str_eq(d.as_str(), "empty") && !str_eq(d.as_str(), "ai") {
                r.push(d.clone());
                assert(r.deep_view() =~= connected_of(l.take(i as int)).push(d@));
            }
            i = i + 1;
        }
        assert(l.take(l.len() as int) =~= l);
        r
    }

    /// The device of that name (the empty device when no name is given).
    pub fn get_device(&self, device_name: Option<&str>) -> (r: Option<&DeviceData>)
        ensures
            r.deep_view() == (if self@.devices.contains_key(device_key(device_name)) {
                Some(self@.devices[device_key(device_name)])
            } else {
                None
            }),
    {
        let name = match device_name {
            Some(n) => n,
            None => "empty",
        };
        self.devices.map.get(name)
    }

    /// The raw input of a device: every input of its map, released (no
    /// physical device is read here).
    pub fn poll_device(&self, device_name: Option<&str>) -> (r: Option<StrMap<bool>>)
        ensures
            r.deep_view() == (if self@.devices.contains_key(device_key(device_name)) {
                Some(all_released(self@.devices[device_key(device_name)].input_map))
            } else {
                None
            }),
    {
        let device = match self.get_device(device_name) {
            Some(d) => d,
            None => {
                return None;
            },
        };
        Some(released_keys(&device.input_map))
    }

    /// The menu input of a device: every input of its menu map, released,
    /// under its output name.
    pub fn poll_device_menu(&self, device_name: Option<&str>) -> (r: Option<StrMap<bool>>)
        ensures
            r.deep_view() == (if self@.devices.contains_key(device_key(device_name)) {
                Some(menu_released(self@.devices[device_key(device_name)].input_map_menu))
            } else {
                None
            }),
    {
        let device = match self.get_device(device_name) {
            Some(d) => d,
            None => {
                return None;
            },
        };
        let ghost dk = device_key(device_name);
        let menu = &device.input_map_menu;
        proof {
            use_type_invariant(menu);
            menu.lemma_entries();
        }
        let mut data: StrMap<bool> = StrMap::new();
        let mut i: usize = 0;
        while i < menu.len()
            invariant
                i <= menu.size(),
                menu.distinct_keys(),
                menu@ == self@.devices[dk].input_map_menu,
                self@.devices.contains_key(dk),
                data@ == Map::new(
                    |k: Seq<char>| exists|j: int| 0 <= j < i && menu_output_name(menu.ekey(j)) == k,
                    |k: Seq<char>| false,
                ),
            decreases menu.size() - i,
        {
            proof {
                menu.lemma_entries();
                assert(menu@.contains_key(menu.ekey(i as int)));
                assert(self@.devices[dk].input_map_menu.contains_key(menu.ekey(i as int)));
            }
            let output_name = menu_output_name_of(menu.key_at(i));
            data.insert(output_name, false);
            proof {
                let next = Map::new(
                    |k: Seq<char>| exists|j: int| 0 <= j < i + 1 && menu_output_name(menu.ekey(j)) == k,
                    |k: Seq<char>| false,
                );
                assert forall|k: Seq<char>| #[trigger] next.contains_key(k) == data@.contains_key(k) by {
                    if next.contains_key(k) {
                        let j = choose|j: int| 0 <= j < i + 1 && menu_output_name(menu.ekey(j)) == k;
                        if j < i {
                            assert(exists|j2: int| 0 <= j2 < i && menu_output_name(menu.ekey(j2)) == k);
                        }
                    }
                    if data@.contains_key(k) && k != menu_output_name(menu.ekey(i as int)) {
                        let j = choose|j: int| 0 <= j < i && menu_output_name(menu.ekey(j)) == k;
                        assert(0 <= j < i + 1 && menu_output_name(menu.ekey(j)) == k);
                    }
                }
                assert(data@ =~= next);
            }
            i = i + 1;
        }
        proof {
            menu.lemma_entries();
            let m = menu@;
            assert forall|k: Seq<char>| #[trigger] data@.contains_key(k) == menu_released(m).contains_key(k) by {
                if data@.contains_key(k) {
                    let j = choose|j: int| 0 <= j < menu.size() && menu_output_name(menu.ekey(j)) == k;
                    assert(m.contains_key(menu.ekey(j)));
                }
                if menu_released(m).contains_key(k) {
                    let key = choose|key: Seq<char>| m.contains_key(key) && menu_output_name(key) == k;
                    let j = choose|j: int| 0 <= j < menu.size() && menu.ekey(j) == key;
                    assert(menu_output_name(menu.ekey(j)) == k);
                }
            }
            assert(data@ =~= menu_released(m));
        }
        Some(data)
    }

    /// The input schema.
    pub fn get_input_schema(&self) -> (r: &InputSchema)
        ensures
            r.deep_view() == self@.schema,
            schema_lists_ok(r.deep_view()),
    {
        proof {
            use_type_invariant(self);
        }
        &self.input_schema
    }

    /// The pressed state of every input that the schema makes of the raw
    /// input of a device.
    pub fn create_input_data_from_raw_input(&self, raw_input: &StrMap<bool>) -> (r: StrMap<bool>)
        ensures
            r@ == input_data_of(self@.schema, raw_input@),
            schema_lists_ok(self@.schema),
            forall|k: Seq<char>| self@.schema.input_list.contains(k) ==> #[trigger] r@.contains_key(k),
            forall|k: Seq<char>|
                #[trigger] r@.contains_key(k) ==> self@.schema.input_list.contains(k) || combined_in(
                    self@.schema,
                    self@.schema.multiple,
                    k,
                ),
    {
        proof {
            use_type_invariant(self);
            lemma_input_data_keys(self@.schema, raw_input@);
        }
        self.input_schema.input_data_from_raw(raw_input)
    }
}

impl Default for CastagneInput {
    fn default() -> (r: Self)
        ensures
            r@ == (InputManagerModel {
                devices: Map::empty(),
                devices_list: Seq::empty(),
                input_layout: Seq::empty(),
                input_layout_menu: Seq::empty(),
                schema: empty_schema(),
                keyboard_players: 2,
                controller_players: 4,
                keyboard_layouts: 1,
                controller_layouts: 1,
            }),
    {
        Self::new()
    }
}

} // verus!
