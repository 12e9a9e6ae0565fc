//! CastagneGlobal - shared kinds, constants and helpers.
//!
//! Flags kept as lists of names, values given either literally or by the
//! name of a variable, merging of dictionaries, comparisons, and lookups
//! in the data that a battle starts with.

use vstd::prelude::*;
use crate::memory::MemoryValue;
use crate::numbers::{decimal, decimal_chars, parse_i32, parse_i32_chars};
use crate::str_map::{DeepClone, StrMap};
use crate::text::{chars_to_string, copy_str, str_eq, str_to_chars, sub_chars, trim, trim_chars};

verus! {

// ---------------------------------------------------------------------------
// Kinds and constants

/// Hit confirmation types. `Nothing`: no hit was confirmed.
#[derive(Debug, Clone, Copy, PartialEq, Eq, Structural)]
pub enum HitConfirmed {
    Nothing,
    Block,
    Hit,
    Clash,
}

/// State types.
#[derive(Debug, Clone, Copy, PartialEq, Eq, Structural)]
pub enum StateType {
    Normal,
    BaseState,
    Helper,
    Special,
    Specblock,
}

/// Variable mutability.
#[derive(Debug, Clone, Copy, PartialEq, Eq, Structural)]
pub enum VariableMutability {
    Variable,
    Define,
    Internal,
}

/// Variable types.
#[derive(Debug, Clone, Copy, PartialEq, Eq, Structural)]
pub enum VariableType {
    Int,
    Str,
    Var,
    Vec2,
    Vec3,
    Box,
    Bool,
}

/// Memory stacks.
#[derive(Debug, Clone, Copy, PartialEq, Eq, Structural)]
pub enum MemoryStack {
    Global,
    Player,
    Entity,
}

/// Module slots (for module priority and ordering).
#[derive(Debug, Clone, Copy, PartialEq, Eq, Structural)]
pub enum ModuleSlot {
    Core,
    Physics,
    Attacks,
    Graphics,
    Flow,
    Editor,
    Input,
    AI,
    Custom1,
    Custom2,
    Custom3,
}

/// Input device types.
#[derive(Debug, Clone, Copy, PartialEq, Eq, Structural)]
pub enum InputDeviceType {
    Empty,
    Keyboard,
    Controller,
    AI,
}

/// Game modes.
#[derive(Debug, Clone, Copy, PartialEq, Eq, Structural)]
pub enum GameMode {
    Battle,
    Training,
    Editor,
}

/// Physics spaces.
#[derive(Debug, Clone, Copy, PartialEq, Eq, Structural)]
pub enum PhysicsSpace {
    World,
    Absolute,
    Entity,
}

/// Proration scale.
pub const PRORATION_SCALE: i32 = 1000;

/// Version information.
#[derive(Debug, Clone)]
pub struct VersionInfo {
    pub version: Option<String>,
    pub version_name: String,
    pub tldr: String,
    pub changelog: String,
    pub branch: String,
}

impl Default for VersionInfo {
    fn default() -> (r: Self)
        ensures
            r.version matches Some(v) && v@ == "0.1.0"@,
            r.version_name@ == "Castagne-RS Experimental"@,
            r.tldr@ == "Rust port of Castagne"@,
            r.changelog@ == "Initial port"@,
            r.branch@ == "main"@,
    {
        VersionInfo {
            version: Some(copy_str("0.1.0")),
            version_name: copy_str("Castagne-RS Experimental"),
            tldr: copy_str("Rust port of Castagne"),
            changelog: copy_str("Initial port"),
            branch: copy_str("main"),
        }
    }
}

// ---------------------------------------------------------------------------
// Values compared by what they hold

/// Values whose equality is equality of what they hold.
pub trait ValueEq: DeepView + Sized {
    fn value_eq(&self, other: &Self) -> (r: bool)
        ensures
            r == (self.deep_view() == other.deep_view()),
    ;
}

impl ValueEq for i32 {
    fn value_eq(&self, other: &i32) -> (r: bool) {
        *self == *other
    }
}

impl ValueEq for i64 {
    fn value_eq(&self, other: &i64) -> (r: bool) {
        *self == *other
    }
}

impl ValueEq for usize {
    fn value_eq(&self, other: &usize) -> (r: bool) {
        *self == *other
    }
}

impl ValueEq for bool {
    fn value_eq(&self, other: &bool) -> (r: bool) {
        *self == *other
    }
}

impl ValueEq for String {
    fn value_eq(&self, other: &String) -> (r: bool) {
        str_eq(self.as_str(), other.as_str())
    }
}

impl<T: ValueEq> ValueEq for Vec<T> {
    fn value_eq(&self, other: &Vec<T>) -> (r: bool) {
        if self.len() != other.len() {
            assert(self.deep_view().len() != other.deep_view().len());
            return false;
        }
        let mut i: usize = 0;
        while i < self.len()
            invariant
                i <= self.len() == other.len(),
                forall|j: int| 0 <= j < i ==> self.deep_view()[j] == other.deep_view()[j],
            decreases self.len() - i,
        {
            if !self[i].value_eq(&other[i]) {
                assert(self.deep_view()[i as int] != other.deep_view()[i as int]);
                return false;
            }
            i = i + 1;
        }
        assert(self.deep_view() =~= other.deep_view());
        true
    }
}

impl ValueEq for MemoryValue {
    fn value_eq(&self, other: &MemoryValue) -> (r: bool) {
        match (self, other) {
            (MemoryValue::Nil, MemoryValue::Nil) => true,
            (MemoryValue::Bool(a), MemoryValue::Bool(b)) => *a == *b,
            (MemoryValue::Int(a), MemoryValue::Int(b)) => *a == *b,
            (MemoryValue::Str(a), MemoryValue::Str(b)) => a.value_eq(b),
            (MemoryValue::StringArray(a), MemoryValue::StringArray(b)) => a.value_eq(b),
            (MemoryValue::IntArray(a), MemoryValue::IntArray(b)) => {
                proof {
                    assert(a.deep_view() =~= a@);
                    assert(b.deep_view() =~= b@);
                }
                a.value_eq(b)
            },
            _ => false,
        }
    }
}

// ---------------------------------------------------------------------------
// Data of a battle

/// The key of a player's data: `player_<pid>`.
pub open spec fn player_key(pid: usize) -> Seq<char> {
    "player_"@ + decimal(pid as nat)
}

/// The key of an entity's data: `player_<pid>_entity_<eid>`.
pub open spec fn entity_key(pid: usize, eid: usize) -> Seq<char> {
    "player_"@ + decimal(pid as nat) + "_entity_"@ + decimal(eid as nat)
}

/// The data of `k` in `d`, if any.
pub open spec fn section(d: Map<Seq<char>, Map<Seq<char>, Seq<char>>>, k: Seq<char>) -> Option<Map<Seq<char>, Seq<char>>> {
    if d.contains_key(k) {
        Some(d[k])
    } else {
        None
    }
}

/// The value `name` of a battle's data: global with neither id, a
/// player's with a player id, an entity's with both; none with an entity
/// id alone.
pub open spec fn battle_value(
    d: Map<Seq<char>, Map<Seq<char>, Seq<char>>>,
    name: Seq<char>,
    pid: Option<usize>,
    eid: Option<usize>,
) -> Option<Seq<char>> {
    let sec = match (pid, eid) {
        (None, None) => section(d, "global"@),
        (Some(p), None) => section(d, player_key(p)),
        (Some(p), Some(e)) => section(d, entity_key(p, e)),
        (None, Some(_)) => None,
    };
    match sec {
        Some(m) => if m.contains_key(name) {
            Some(m[name])
        } else {
            None
        },
        None => None,
    }
}

/// The decimal text of `n` after `prefix`.
fn with_number(prefix: &str, n: usize) -> (r: String)
    ensures
        r@ == prefix@ + decimal(n as nat),
{
    let digits = decimal_chars(n as u64);
    let mut r = copy_str(prefix);
    r.append(chars_to_string(&digits).as_str());
    r
}

// ---------------------------------------------------------------------------
// Splitting strings

/// Whether `sep` occurs in `s` at `i`.
pub open spec fn occurs_at(s: Seq<char>, sep: Seq<char>, i: int) -> bool {
    0 <= i && i + sep.len() <= s.len() && s.subrange(i, i + sep.len()) == sep
}

/// The fields of `s` from `start` on, scanning from `i`: `s` is cut at
/// each occurrence of the non-empty `sep`, leftmost first, occurrences not
/// overlapping.
pub open spec fn fields_from(s: Seq<char>, sep: Seq<char>, start: int, i: int) -> Seq<Seq<char>>
    decreases s.len() - i,
{
    if sep.len() == 0 || i < 0 || i + sep.len() > s.len() {
        seq![s.subrange(start, s.len() as int)]
    } else if occurs_at(s, sep, i) {
        seq![s.subrange(start, i)] + fields_from(s, sep, i + sep.len(), i + sep.len())
    } else {
        fields_from(s, sep, start, i + 1)
    }
}

/// The fields of `s` between occurrences of `sep`; an empty `sep` occurs
/// before and after every character.
pub open spec fn split_fields(s: Seq<char>, sep: Seq<char>) -> Seq<Seq<char>> {
    if sep.len() == 0 {
        seq![Seq::<char>::empty()] + Seq::new(s.len(), |j: int| seq![s[j]]) + seq![Seq::<char>::empty()]
    } else {
        fields_from(s, sep, 0, 0)
    }
}

/// The trimmed fields that are not empty.
pub open spec fn kept_fields(fields: Seq<Seq<char>>) -> Seq<Seq<char>> {
    fields.map_values(|f: Seq<char>| trim(f)).filter(|f: Seq<char>| f.len() > 0)
}

/// What splitting a string gives: nothing for the empty string, else the
/// trimmed fields that are not empty.
pub open spec fn split_to_array(s: Seq<char>, sep: Seq<char>) -> Seq<Seq<char>> {
    if s.len() == 0 {
        Seq::empty()
    } else {
        kept_fields(split_fields(s, sep))
    }
}

/// Whether `sep` occurs in `s` at `i`.
fn occurs_at_exec(s: &Vec<char>, sep: &Vec<char>, i: usize) -> (r: bool)
    requires
        i + sep.len() <= s.len(),
    ensures
        r == occurs_at(s@, sep@, i as int),
{
    let mut j: usize = 0;
    while j < sep.len()
        invariant
            j <= sep.len(),
            i + sep.len() <= s.len(),
            forall|k: int| 0 <= k < j ==> s@[i + k] == sep@[k],
        decreases sep.len() - j,
    {
        if s[i + j] != sep[j] {
            assert(s@.subrange(i as int, i + sep.len())[j as int] != sep@[j as int]);
            return false;
        }
        j = j + 1;
    }
    assert(s@.subrange(i as int, i + sep.len()) =~= sep@);
    true
}

/// The characters of each vector.
pub open spec fn views(v: Seq<Vec<char>>) -> Seq<Seq<char>> {
    v.map_values(|x: Vec<char>| x@)
}

/// The fields of `s` between occurrences of `sep`.
pub(crate) fn split_fields_exec(s: &Vec<char>, sep: &Vec<char>) -> (r: Vec<Vec<char>>)
    ensures
        views(r@) == split_fields(s@, sep@),
{
    let mut fields: Vec<Vec<char>> = Vec::new();
    if sep.len() == 0 {
        fields.push(Vec::new());
        assert(views(fields@) =~= seq![Seq::<char>::empty()] + Seq::new(0, |k: int| seq![s@[k]]));
        let mut j: usize = 0;
        while j < s.len()
            invariant
                j <= s.len(),
                views(fields@) == seq![Seq::<char>::empty()] + Seq::new(j as nat, |k: int| seq![s@[k]]),
            decreases s.len() - j,
        {
            let mut one: Vec<char> = Vec::new();
            one.push(s[j]);
            assert(one@ =~= seq![s@[j as int]]);
            let ghost before = views(fields@);
            fields.push(one);
            assert(views(fields@) =~= before.push(seq![s@[j as int]]));
            assert(views(fields@) =~= seq![Seq::<char>::empty()] + Seq::new((j + 1) as nat, |k: int| seq![s@[k]]));
            j = j + 1;
        }
        fields.push(Vec::new());
        assert(views(fields@) =~= split_fields(s@, sep@));
        return fields;
    }
    let mut start: usize = 0;
    let mut i: usize = 0;
    assert(views(fields@) + fields_from(s@, sep@, 0, 0) =~= split_fields(s@, sep@));
    loop
        invariant
            sep.len() > 0,
            start <= i <= s.len(),
            views(fields@) + fields_from(s@, sep@, start as int, i as int) == split_fields(s@, sep@),
        decreases s.len() - i,
    {
        if sep.len() > s.len() - i {
            let last = sub_chars(s, start, s.len());
            let ghost before = views(fields@);
            fields.push(last);
            assert(views(fields@) =~= before + seq![s@.subrange(start as int, s.len() as int)]);
            return fields;
        }
        if occurs_at_exec(s, sep, i) {
            let field = sub_chars(s, start, i);
            let ghost before = views(fields@);
            fields.push(field);
            assert(views(fields@) =~= before + seq![s@.subrange(start as int, i as int)]);
            i = i + sep.len();
            start = i;
        } else {
            i = i + 1;
        }
    }
}

/// The trimmed fields that are not empty, as strings.
fn keep_fields(fields: &Vec<Vec<char>>) -> (r: Vec<String>)
    ensures
        r.deep_view() == kept_fields(views(fields@)),
{
    let ghost f = views(fields@);
    let mut r: Vec<String> = Vec::new();
    assert(r.deep_view() =~= kept_fields(f.take(0))) by {
        reveal(Seq::filter);
        assert(f.take(0).map_values(|x: Seq<char>| trim(x)) =~= Seq::<Seq<char>>::empty());
    }
    let mut i: usize = 0;
    while i < fields.len()
        invariant
            i <= fields.len(),
            f == views(fields@),
            r.deep_view() == kept_fields(f.take(i as int)),
        decreases fields.len() - i,
    {
        let t = trim_chars(&fields[i]);
        proof {
            reveal(Seq::filter);
            let m = f.take(i as int + 1).map_values(|x: Seq<char>| trim(x));
            assert(f.take(i as int + 1).drop_last() =~= f.take(i as int));
            assert(m.drop_last() =~= f.take(i as int).map_values(|x: Seq<char>| trim(x)));
            assert(f[i as int] == fields@[i as int]@);
            assert(m.last() == trim(fields@[i as int]@));
        }
        if t.len() > 0 {
            r.push(chars_to_string(&t));
            assert(r.deep_view() =~= kept_fields(f.take(i as int)).push(t@));
        }
        i = i + 1;
    }
    assert(f.take(f.len() as int) =~= f);
    r
}

// ---------------------------------------------------------------------------
// Moving keys aside

/// `k` with `p` put in front of it `j` times.
pub open spec fn prefixed(p: Seq<char>, k: Seq<char>, j: nat) -> Seq<char>
    decreases j,
{
    if j == 0 {
        k
    } else {
        p + prefixed(p, k, (j - 1) as nat)
    }
}

/// Whether `k`, `p + k`, ... up to `n` prefixes less are keys of `m` and
/// `n` prefixes are not.
pub open spec fn is_run<V>(m: Map<Seq<char>, V>, p: Seq<char>, k: Seq<char>, n: nat) -> bool {
    &&& forall|j: nat| j < n ==> #[trigger] m.contains_key(prefixed(p, k, j))
    &&& !m.contains_key(prefixed(p, k, n))
}

/// The number of keys in the run of `k` in `m`.
pub open spec fn run_len<V>(m: Map<Seq<char>, V>, p: Seq<char>, k: Seq<char>) -> nat {
    choose|n: nat| is_run(m, p, k, n)
}

/// The keys of the run moved one prefix further, from the last one down to
/// index `t`: each takes the value of the key one prefix shorter.
pub open spec fn shifted<V>(m: Map<Seq<char>, V>, p: Seq<char>, k: Seq<char>, n: nat, t: nat) -> Map<Seq<char>, V>
    decreases n - t,
{
    if t >= n {
        m
    } else {
        let m2 = shifted(m, p, k, n, t + 1);
        m2.insert(prefixed(p, k, t + 1), m2[prefixed(p, k, t)])
    }
}

/// Adding `k` with value `v` to `m`, after moving aside the values that
/// `k` and its prefixed forms hold.
pub open spec fn move_one<V>(m: Map<Seq<char>, V>, k: Seq<char>, v: V, p: Seq<char>) -> Map<Seq<char>, V> {
    shifted(m, p, k, run_len(m, p, k), 0).insert(k, v)
}

/// The first `i` entries of `a` added to `m` in turn by `move_one`.
pub open spec fn move_all<T: DeepView>(m: Map<Seq<char>, T::V>, a: StrMap<T>, p: Seq<char>, i: nat) -> Map<Seq<char>, T::V>
    decreases i,
{
    if i == 0 {
        m
    } else {
        move_one(move_all(m, a, p, (i - 1) as nat), a.ekey(i - 1), a.evalue(i - 1), p)
    }
}

/// The length of a prefixed key.
pub proof fn lemma_prefixed_len(p: Seq<char>, k: Seq<char>, j: nat)
    ensures
        prefixed(p, k, j).len() == k.len() + j * p.len(),
    decreases j,
{
    if j > 0 {
        let jm = (j - 1) as nat;
        lemma_prefixed_len(p, k, jm);
        assert(k.len() + jm * p.len() + p.len() == k.len() + j * p.len()) by (nonlinear_arith)
            requires
                jm + 1 == j,
        ;
        assert(prefixed(p, k, j) == p + prefixed(p, k, jm));
        assert(prefixed(p, k, j).len() == p.len() + prefixed(p, k, jm).len());
    } else {
        assert(j * p.len() == 0) by (nonlinear_arith)
            requires
                j == 0,
        ;
    }
}

/// With a non-empty prefix, keys with different numbers of prefixes
/// differ.
pub proof fn lemma_prefixed_distinct(p: Seq<char>, k: Seq<char>, i: nat, j: nat)
    requires
        p.len() > 0,
        i != j,
    ensures
        prefixed(p, k, i) != prefixed(p, k, j),
{
    lemma_prefixed_len(p, k, i);
    lemma_prefixed_len(p, k, j);
    if i < j {
        assert(i * p.len() < j * p.len()) by (nonlinear_arith)
            requires
                i < j,
                p.len() > 0,
        ;
    } else {
        assert(j * p.len() < i * p.len()) by (nonlinear_arith)
            requires
                j < i,
                p.len() > 0,
        ;
    }
}

/// A run has one length.
proof fn lemma_run_unique<V>(m: Map<Seq<char>, V>, p: Seq<char>, k: Seq<char>, n: nat)
    requires
        is_run(m, p, k, n),
    ensures
        run_len(m, p, k) == n,
{
    let c = run_len(m, p, k);
    assert(is_run(m, p, k, c));
    if c < n {
        assert(m.contains_key(prefixed(p, k, c)));
    }
    if n < c {
        assert(m.contains_key(prefixed(p, k, n)));
    }
}

/// Moving aside from index `t` on leaves a key alone that is none of the
/// keys it writes.
pub proof fn lemma_shifted_other<V>(
    m: Map<Seq<char>, V>,
    p: Seq<char>,
    k: Seq<char>,
    n: nat,
    t: nat,
    x: Seq<char>,
)
    requires
        t <= n,
        forall|j: nat| t < j <= n ==> x != #[trigger] prefixed(p, k, j),
    ensures
        shifted(m, p, k, n, t).contains_key(x) == m.contains_key(x),
        m.contains_key(x) ==> shifted(m, p, k, n, t)[x] == m[x],
    decreases n - t,
{
    if t < n {
        assert(x != prefixed(p, k, t + 1));
        lemma_shifted_other(m, p, k, n, t + 1, x);
    }
}

/// What moving aside does: each key of the run, one prefix further, holds
/// the value of the key one prefix shorter (`lemma_shifted_other` says
/// that every other key keeps its value).
pub proof fn lemma_shifted<V>(m: Map<Seq<char>, V>, p: Seq<char>, k: Seq<char>, n: nat, t: nat)
    requires
        p.len() > 0,
        t <= n,
        forall|j: nat| j < n ==> #[trigger] m.contains_key(prefixed(p, k, j)),
    ensures
        forall|j: nat| t < j <= n ==> #[trigger] shifted(m, p, k, n, t).contains_key(prefixed(p, k, j))
            && shifted(m, p, k, n, t)[prefixed(p, k, j)] == m[prefixed(p, k, (j - 1) as nat)],
    decreases n - t,
{
    if t < n {
        lemma_shifted(m, p, k, n, t + 1);
        let m2 = shifted(m, p, k, n, t + 1);
        let kt = prefixed(p, k, t);
        // The key one prefix shorter is not moved before this step.
        assert forall|j: nat| t + 1 < j <= n implies kt != #[trigger] prefixed(p, k, j) by {
            lemma_prefixed_distinct(p, k, t, j);
        }
        lemma_shifted_other(m, p, k, n, t + 1, kt);
        assert(m.contains_key(kt));
        assert(m2.contains_key(kt) && m2[kt] == m[kt]);
        assert(shifted(m, p, k, n, t) == m2.insert(prefixed(p, k, t + 1), m2[kt]));
        assert forall|j: nat| t < j <= n implies #[trigger] shifted(m, p, k, n, t).contains_key(prefixed(p, k, j))
            && shifted(m, p, k, n, t)[prefixed(p, k, j)] == m[prefixed(p, k, (j - 1) as nat)] by {
            if j != t + 1 {
                lemma_prefixed_distinct(p, k, t + 1, j);
            }
        }
    }
}

/// Moving aside loses nothing: after adding `k` to a map where `k` starts
/// a run of `n` keys, `k` holds the new value, each key of the run one
/// prefix further holds the value of the key one prefix shorter, every
/// other key keeps its value, and the only key gained is the one `n`
/// prefixes long, so the map grows by exactly one key.
pub proof fn lemma_move_one<V>(m: Map<Seq<char>, V>, k: Seq<char>, v: V, p: Seq<char>, n: nat)
    requires
        p.len() > 0,
        is_run(m, p, k, n),
    ensures
        move_one(m, k, v, p)[k] == v,
        forall|j: nat| 0 < j <= n ==> #[trigger] move_one(m, k, v, p).contains_key(prefixed(p, k, j))
            && move_one(m, k, v, p)[prefixed(p, k, j)] == m[prefixed(p, k, (j - 1) as nat)],
        forall|x: Seq<char>|
            x != k && (forall|j: nat| 0 < j <= n ==> x != #[trigger] prefixed(p, k, j)) ==> (
            #[trigger] move_one(m, k, v, p).contains_key(x) == m.contains_key(x) && (m.contains_key(x)
                ==> move_one(m, k, v, p)[x] == m[x])),
        move_one(m, k, v, p).dom() == m.dom().insert(prefixed(p, k, n)),
        m.dom().finite() ==> move_one(m, k, v, p).dom().len() == m.dom().len() + 1,
{
    lemma_run_unique(m, p, k, n);
    lemma_shifted(m, p, k, n, 0);
    assert forall|j: nat| 0 < j <= n implies #[trigger] move_one(m, k, v, p).contains_key(prefixed(p, k, j))
        && move_one(m, k, v, p)[prefixed(p, k, j)] == m[prefixed(p, k, (j - 1) as nat)] by {
        lemma_prefixed_distinct(p, k, 0, j);
        assert(shifted(m, p, k, n, 0).contains_key(prefixed(p, k, j)));
    }
    assert forall|x: Seq<char>|
        x != k && (forall|j: nat| 0 < j <= n ==> x != #[trigger] prefixed(p, k, j)) implies (
        #[trigger] move_one(m, k, v, p).contains_key(x) == m.contains_key(x) && (m.contains_key(x)
            ==> move_one(m, k, v, p)[x] == m[x])) by {
        lemma_shifted_other(m, p, k, n, 0, x);
    }
    let r = move_one(m, k, v, p);
    assert forall|x: Seq<char>| r.dom().contains(x) <==> m.dom().insert(prefixed(p, k, n)).contains(x) by {
        if x != k && (forall|j: nat| 0 < j <= n ==> x != #[trigger] prefixed(p, k, j)) {
            lemma_shifted_other(m, p, k, n, 0, x);
            assert(x != prefixed(p, k, n) || n == 0);
        } else if x != k {
            let j = choose|j: nat| 0 < j <= n && x == #[trigger] prefixed(p, k, j);
            assert(r.contains_key(prefixed(p, k, j)));
            if j < n {
                assert(m.contains_key(prefixed(p, k, j)));
            }
        } else {
            if n > 0 {
                assert(m.contains_key(prefixed(p, k, 0)));
            }
        }
    }
    assert(r.dom() =~= m.dom().insert(prefixed(p, k, n)));
    if m.dom().finite() {
        assert(!m.dom().contains(prefixed(p, k, n)));
    }
}

// ---------------------------------------------------------------------------
// The helpers

/// CastagneGlobal - shared state and helpers.
pub struct CastagneGlobal {
    version_info: VersionInfo,
}

impl CastagneGlobal {
    /// The helpers, with the default version information.
    pub fn new() -> (r: Self)
        ensures
            r.get_version().version_name@ == "Castagne-RS Experimental"@,
    {
        CastagneGlobal { version_info: VersionInfo::default() }
    }

    /// The version information.
    pub closed spec fn get_version(&self) -> VersionInfo {
        self.version_info
    }

    /// The version information.
    pub fn get_version_info(&self) -> (r: &VersionInfo)
        ensures
            *r == self.get_version(),
    {
        &self.version_info
    }

    /// The line that logging `message` prints.
    pub fn log(&self, message: &str) -> (r: String)
        ensures
            r@ == "[Castagne] "@ + message@,
    {
        let mut r = copy_str("[Castagne] ");
        r.append(message);
        r
    }

    /// The line that reporting the error `message` prints.
    pub fn error(&self, message: &str) -> (r: String)
        ensures
            r@ == "[Castagne] ! "@ + message@,
    {
        let mut r = copy_str("[Castagne] ! ");
        r.append(message);
        r
    }

    /// Whether `flags` holds `flag_name`.
    pub fn has_flag(flag_name: &str, flags: &[String]) -> (r: bool)
        ensures
            r == flags.deep_view().contains(flag_name@),
    {
        let ghost f = flags.deep_view();
        let mut i: usize = 0;
        while i < flags.len()
            invariant
                i <= flags.len(),
                f == flags.deep_view(),
                forall|j: int| 0 <= j < i ==> f[j] != flag_name@,
            decreases flags.len() - i,
        {
            if str_eq(flags[i].as_str(), flag_name) {
                assert(f[i as int] == flag_name@);
                return true;
            }
            i = i + 1;
        }
        false
    }

    /// Adds `flag_name` at the end of `flags` unless it is there.
    pub fn set_flag(flag_name: &str, flags: &mut Vec<String>)
        ensures
            final(flags).deep_view() == if old(flags).deep_view().contains(flag_name@) {
                old(flags).deep_view()
            } else {
                old(flags).deep_view().push(flag_name@)
            },
    {
        if !Self::has_flag(flag_name, flags.as_slice()) {
            flags.push(copy_str(flag_name));
            assert(flags.deep_view() =~= old(flags).deep_view().push(flag_name@));
        }
    }

    /// Removes every copy of `flag_name` from `flags`.
    pub fn unset_flag(flag_name: &str, flags: &mut Vec<String>)
        ensures
            final(flags).deep_view() == old(flags).deep_view().filter(|f: Seq<char>| f != flag_name@),
    {
        let ghost f = flags.deep_view();
        let mut kept: Vec<String> = Vec::new();
        let mut i: usize = 0;
        while i < flags.len()
            invariant
                i <= flags.len(),
                f == flags.deep_view(),
                f == old(flags).deep_view(),
                kept.deep_view() == f.take(i as int).filter(|x: Seq<char>| x != flag_name@),
            decreases flags.len() - i,
        {
            proof {
                reveal(Seq::filter);
                assert(f.take(i as int + 1).drop_last() =~= f.take(i as int));
                assert(f.take(i as int + 1).last() == flags@[i as int]@);
            }
            if !str_eq(flags[i].as_str(), flag_name) {
                kept.push(flags[i].clone());
                assert(kept.deep_view() =~= f.take(i as int).filter(|x: Seq<char>| x != flag_name@).push(
                    flags@[i as int]@,
                ));
            }
            i = i + 1;
        }
        assert(f.take(f.len() as int) =~= f);
        *flags = kept;
    }

    /// The integer that `value` spells, else the variable it names, else 0.
    pub fn get_int(value: &str, variables: &StrMap<i32>) -> (r: i32)
        ensures
            r == match parse_i32(value@) {
                Some(n) => n,
                None => if variables@.contains_key(value@) {
                    variables@[value@]
                } else {
                    0
                },
            },
    {
        let chars = str_to_chars(value);
        match parse_i32_chars(&chars) {
            Some(n) => n,
            None => match variables.get(value) {
                Some(v) => *v,
                None => 0,
            },
        }
    }

    /// The string itself.
    pub fn get_str(value: &str) -> (r: String)
        ensures
            r@ == value@,
    {
        copy_str(value)
    }

    /// The variable that `value` names, else `value` itself.
    pub fn get_str_var(value: &str, variables: &StrMap<String>) -> (r: String)
        ensures
            r@ == if variables@.contains_key(value@) {
                variables@[value@]
            } else {
                value@
            },
    {
        match variables.get(value) {
            Some(v) => v.clone(),
            None => copy_str(value),
        }
    }

    /// Whether the integer of `value` (see `get_int`) is positive.
    pub fn get_bool(value: &str, variables: &StrMap<i32>) -> (r: bool)
        ensures
            r == (match parse_i32(value@) {
                Some(n) => n,
                None => if variables@.contains_key(value@) {
                    variables@[value@]
                } else {
                    0
                },
            } > 0),
    {
        Self::get_int(value, variables) > 0
    }

    /// Merges `additional_dict` into `base_dict`, its values winning.
    pub fn fuse_data_overwrite<T: DeepClone>(base_dict: &mut StrMap<T>, additional_dict: &StrMap<T>)
        ensures
            final(base_dict)@ == old(base_dict)@.union_prefer_right(additional_dict@),
    {
        base_dict.extend_from(additional_dict);
    }

    /// Adds to `base_dict` the keys of `additional_dict` that it lacks.
    pub fn fuse_data_no_overwrite<T: DeepClone>(base_dict: &mut StrMap<T>, additional_dict: &StrMap<T>)
        ensures
            final(base_dict)@ == additional_dict@.union_prefer_right(old(base_dict)@),
    {
        base_dict.extend_missing_from(additional_dict);
    }

    /// Adds each entry of `additional_dict` to `base_dict`, first moving the
    /// value that its key holds to the key with `prefix` in front, and so on
    /// along the run of prefixed keys.
    pub fn fuse_data_move_with_prefix<T: DeepClone>(
        base_dict: &mut StrMap<T>,
        additional_dict: &StrMap<T>,
        prefix: &str,
    )
        requires
            prefix@.len() > 0 || old(base_dict)@.dom().disjoint(additional_dict@.dom()),
        ensures
            final(base_dict)@ == move_all(old(base_dict)@, *additional_dict, prefix@, additional_dict.size()),
    {
        proof {
            use_type_invariant(additional_dict);
            additional_dict.lemma_entries();
        }
        let ghost p = prefix@;
        let mut i: usize = 0;
        while i < additional_dict.len()
            invariant
                i <= additional_dict.size(),
                p == prefix@,
                additional_dict.distinct_keys(),
                p.len() > 0 || old(base_dict)@.dom().disjoint(additional_dict@.dom()),
                base_dict@ == move_all(old(base_dict)@, *additional_dict, p, i as nat),
                p.len() == 0 ==> base_dict@.dom() == old(base_dict)@.dom().union(
                    Set::new(|k: Seq<char>| exists|j: int| 0 <= j < i && additional_dict.ekey(j) == k),
                ),
            decreases additional_dict.size() - i,
        {
            proof {
                additional_dict.lemma_entries();
            }
            let key = additional_dict.key_at(i);
            let ghost k = key@;
            let ghost m0 = base_dict@;
            proof {
                if p.len() == 0 {
                    assert(additional_dict@.contains_key(k));
                    assert(!old(base_dict)@.dom().contains(k));
                    assert forall|j: int| 0 <= j < i implies additional_dict.ekey(j) != k by {
                        assert(j != i);
                    }
                    assert(!m0.contains_key(k));
                }
            }
            // Find the run of keys to move.
            let mut key_name = key.clone();
            let mut keys_to_move: Vec<String> = Vec::new();
            proof {
                use_type_invariant(&*base_dict);
                base_dict.lemma_entries();
            }
            while base_dict.contains_key(key_name.as_str())
                invariant
                    base_dict@ == m0,
                    p == prefix@,
                    p.len() == 0 ==> !m0.contains_key(k),
                    p.len() == 0 ==> keys_to_move@.len() == 0,
                    m0.dom().finite(),
                    key_name@ == prefixed(p, k, keys_to_move@.len() as nat),
                    forall|j: int| 0 <= j < keys_to_move@.len() ==> #[trigger] keys_to_move@[j]@ == prefixed(p, k, j as nat),
                    forall|j: nat| j < keys_to_move@.len() ==> #[trigger] m0.contains_key(prefixed(p, k, j)),
                    keys_to_move@.len() <= m0.dom().len(),
                decreases m0.dom().len() - keys_to_move@.len(),
            {
                let ghost c = keys_to_move@.len();
                proof {
                    if p.len() == 0 {
                        assert(key_name@ == k);
                        assert(false);
                    }
                    let run = Seq::new((c + 1) as nat, |j: int| prefixed(p, k, j as nat));
                    assert forall|a: int, b: int| 0 <= a < run.len() && 0 <= b < run.len() && a != b implies run[a] != run[b] by {
                        lemma_prefixed_distinct(p, k, a as nat, b as nat);
                    }
                    assert(run.no_duplicates());
                    run.unique_seq_to_set();
                    assert(run.to_set().subset_of(m0.dom())) by {
                        assert forall|x: Seq<char>| run.to_set().contains(x) implies m0.dom().contains(x) by {
                            let j = choose|j: int| 0 <= j < run.len() && run[j] == x;
                            if j < c {
                                assert(m0.contains_key(prefixed(p, k, j as nat)));
                            }
                        }
                    }
                    vstd::set_lib::lemma_len_subset(run.to_set(), m0.dom());
                }
                keys_to_move.push(key_name.clone());
                let mut next = copy_str(prefix);
                next.append(key_name.as_str());
                key_name = next;
            }
            let ghost n = keys_to_move@.len() as nat;
            proof {
                assert(is_run(m0, p, k, n));
                lemma_run_unique(m0, p, k, n);
            }
            // Move the run one prefix further, the last key first.
            let mut t: usize = keys_to_move.len();
            while t > 0
                invariant
                    t <= n,
                    n == keys_to_move@.len(),
                    p == prefix@,
                    forall|j: int| 0 <= j < keys_to_move@.len() ==> #[trigger] keys_to_move@[j]@ == prefixed(p, k, j as nat),
                    base_dict@ == shifted(m0, p, k, n, t as nat),
                    forall|j: nat| j < n ==> #[trigger] m0.contains_key(prefixed(p, k, j)),
                decreases t,
            {
                t = t - 1;
                let kt = &keys_to_move[t];
                proof {
                    if p.len() > 0 {
                        lemma_shifted(m0, p, k, n, (t + 1) as nat);
                        assert forall|j: nat| t + 1 < j <= n implies prefixed(p, k, t as nat) != #[trigger] prefixed(p, k, j) by {
                            lemma_prefixed_distinct(p, k, t as nat, j);
                        }
                        lemma_shifted_other(m0, p, k, n, (t + 1) as nat, prefixed(p, k, t as nat));
                    }
                    assert(m0.contains_key(prefixed(p, k, t as nat)));
                }
                match base_dict.get(kt.as_str()) {
                    Some(v) => {
                        let moved = v.deep_clone();
                        let mut target = copy_str(prefix);
                        target.append(kt.as_str());
                        assert(target@ == prefixed(p, k, (t + 1) as nat));
                        base_dict.insert(target, moved);
                    },
                    None => {
                        assert(false);
                    },
                }
            }
            let value = additional_dict.value_at(i).deep_clone();
            base_dict.insert(key.clone(), value);
            proof {
                assert(additional_dict.ekey(i as int) == k);
                assert(move_all(old(base_dict)@, *additional_dict, p, (i + 1) as nat) == move_one(
                    m0,
                    k,
                    additional_dict.evalue(i as int),
                    p,
                ));
                if p.len() == 0 {
                    assert(n == 0);
                    let before = Set::new(|x: Seq<char>| exists|j: int| 0 <= j < i && additional_dict.ekey(j) == x);
                    let after = Set::new(|x: Seq<char>| exists|j: int| 0 <= j < i + 1 && additional_dict.ekey(j) == x);
                    assert(after =~= before.insert(k)) by {
                        assert forall|x: Seq<char>| after.contains(x) implies before.insert(k).contains(x) by {
                            let j = choose|j: int| 0 <= j < i + 1 && additional_dict.ekey(j) == x;
                            if j < i {
                                assert(before.contains(x));
                            }
                        }
                        assert forall|x: Seq<char>| before.insert(k).contains(x) implies after.contains(x) by {
                            if x != k {
                                let j = choose|j: int| 0 <= j < i && additional_dict.ekey(j) == x;
                                assert(0 <= j < i + 1);
                            } else {
                                assert(additional_dict.ekey(i as int) == x);
                            }
                        }
                    }
                    assert(base_dict@.dom() =~= old(base_dict)@.dom().union(after));
                }
            }
            i = i + 1;
        }
    }

    /// Whether the two dictionaries hold the same keys with the same values.
    pub fn are_dictionaries_equal<T: ValueEq>(a: &StrMap<T>, b: &StrMap<T>) -> (r: bool)
        ensures
            r == (a@ == b@),
    {
        proof {
            use_type_invariant(a);
            use_type_invariant(b);
            a.lemma_entries();
            b.lemma_entries();
        }
        if a.len() != b.len() {
            return false;
        }
        let mut i: usize = 0;
        while i < a.len()
            invariant
                i <= a.size(),
                a@.len() == b@.len(),
                a.distinct_keys(),
                forall|j: int| 0 <= j < i ==> b@.contains_key(#[trigger] a.ekey(j)) && b@[a.ekey(j)] == a@[a.ekey(j)],
            decreases a.size() - i,
        {
            proof {
                a.lemma_entries();
                assert(a@.contains_key(a.ekey(i as int)));
            }
            match b.get(a.key_at(i).as_str()) {
                Some(value_b) => {
                    if !a.value_at(i).value_eq(value_b) {
                        assert(a@[a.ekey(i as int)] != b@[a.ekey(i as int)]);
                        return false;
                    }
                    assert(b@.contains_key(a.ekey(i as int)) && b@[a.ekey(i as int)] == a@[a.ekey(i as int)]);
                },
                None => {
                    assert(a@.contains_key(a.ekey(i as int)));
                    return false;
                },
            }
            i = i + 1;
        }
        proof {
            a.lemma_entries();
            b.lemma_entries();
            assert(a@.dom().subset_of(b@.dom())) by {
                assert forall|k: Seq<char>| a@.dom().contains(k) implies b@.dom().contains(k) by {
                    let j = choose|j: int| 0 <= j < a.size() && a.ekey(j) == k;
                    assert(b@.contains_key(a.ekey(j)));
                }
            }
            vstd::set_lib::lemma_subset_equality(a@.dom(), b@.dom());
            assert forall|k: Seq<char>| a@.contains_key(k) implies a@[k] == b@[k] by {
                let j = choose|j: int| 0 <= j < a.size() && a.ekey(j) == k;
                assert(b@.contains_key(a.ekey(j)));
            }
            assert(a@ =~= b@);
        }
        true
    }

    /// Whether the two arrays hold the same values in the same order.
    pub fn are_arrays_equal<T: ValueEq>(a: &[T], b: &[T]) -> (r: bool)
        ensures
            r == (a.deep_view() == b.deep_view()),
    {
        if a.len() != b.len() {
            assert(a.deep_view().len() != b.deep_view().len());
            return false;
        }
        let mut i: usize = 0;
        while i < a.len()
            invariant
                i <= a.len() == b.len(),
                forall|j: int| 0 <= j < i ==> a.deep_view()[j] == b.deep_view()[j],
            decreases a.len() - i,
        {
            if !a[i].value_eq(&b[i]) {
                assert(a.deep_view()[i as int] != b.deep_view()[i as int]);
                return false;
            }
            i = i + 1;
        }
        assert(a.deep_view() =~= b.deep_view());
        true
    }

    /// The trimmed, non-empty fields of `string_to_separate` between
    /// occurrences of `separator`.
    pub fn split_string_to_array(string_to_separate: &str, separator: &str) -> (r: Vec<String>)
        ensures
            r.deep_view() == split_to_array(string_to_separate@, separator@),
    {
        let s = str_to_chars(string_to_separate);
        if s.len() == 0 {
            let r: Vec<String> = Vec::new();
            assert(r.deep_view() =~= Seq::<Seq<char>>::empty());
            return r;
        }
        let sep = str_to_chars(separator);
        let fields = split_fields_exec(&s, &sep);
        keep_fields(&fields)
    }

    /// The data of player `pid`.
    pub fn battle_init_data_get_player(battle_init_data: &StrMap<StrMap<String>>, pid: usize) -> (r: Option<
        StrMap<String>,
    >)
        ensures
            r.deep_view() == section(battle_init_data@, player_key(pid)),
    {
        let key = with_number("player_", pid);
        match battle_init_data.get(key.as_str()) {
            Some(m) => Some(m.deep_clone_map()),
            None => None,
        }
    }

    /// The data of entity `eid` of player `pid`.
    pub fn battle_init_data_get_entity(
        battle_init_data: &StrMap<StrMap<String>>,
        pid: usize,
        eid: usize,
    ) -> (r: Option<StrMap<String>>)
        ensures
            r.deep_view() == section(battle_init_data@, entity_key(pid, eid)),
    {
        let mut key = with_number("player_", pid);
        let tail = with_number("_entity_", eid);
        key.append(tail.as_str());
        assert(key@ =~= entity_key(pid, eid));
        match battle_init_data.get(key.as_str()) {
            Some(m) => Some(m.deep_clone_map()),
            None => None,
        }
    }

    /// A value of the data that a battle starts with.
    pub fn battle_init_data_get_value(
        battle_init_data: &StrMap<StrMap<String>>,
        value_name: &str,
        pid: Option<usize>,
        eid: Option<usize>,
    ) -> (r: Option<String>)
        ensures
            r.deep_view() == battle_value(battle_init_data@, value_name@, pid, eid),
    {
        let sec = match (pid, eid) {
            (None, None) => match battle_init_data.get("global") {
                Some(g) => Some(g.deep_clone_map()),
                None => None,
            },
            (Some(p), None) => Self::battle_init_data_get_player(battle_init_data, p),
            (Some(p), Some(e)) => Self::battle_init_data_get_entity(battle_init_data, p, e),
            (None, Some(_)) => None,
        };
        match sec {
            Some(m) => match m.get(value_name) {
                Some(v) => Some(v.clone()),
                None => None,
            },
            None => None,
        }
    }
}

impl Default for CastagneGlobal {
    fn default() -> (r: Self)
        ensures
            r.get_version().version_name@ == "Castagne-RS Experimental"@,
    {
        Self::new()
    }
}

// ---------------------------------------------------------------------------
// Module loading

/// Module loader. Loading modules from files is not supported: none is
/// ever loaded.
pub struct ModuleLoader {
    /// Path -> name.
    modules_loaded: StrMap<String>,
}

impl ModuleLoader {
    /// A loader that has loaded nothing.
    pub fn new() -> (r: Self)
        ensures
            r.loaded() == Map::<Seq<char>, Seq<char>>::empty(),
    {
        ModuleLoader { modules_loaded: StrMap::new() }
    }

    /// The modules loaded, by path.
    pub closed spec fn loaded(&self) -> Map<Seq<char>, Seq<char>> {
        self.modules_loaded@
    }

    /// Loads the modules of a configuration: none.
    pub fn load_modules(&mut self, _base_path: &str) -> (r: Result<Vec<String>, String>)
        ensures
            r matches Ok(v) && v@.len() == 0,
            final(self).loaded() == old(self).loaded(),
    {
        Ok(Vec::new())
    }

    /// Loads one module: nothing, with an empty name.
    pub fn load_single_module(&mut self, _module_path: &str) -> (r: Result<String, String>)
        ensures
            r matches Ok(s) && s@.len() == 0,
            final(self).loaded() == old(self).loaded(),
    {
        Ok(String::new())
    }

    /// The modules loaded, by path.
    pub fn get_loaded_modules(&self) -> (r: &StrMap<String>)
        ensures
            r@ == self.loaded(),
    {
        &self.modules_loaded
    }
}

impl Default for ModuleLoader {
    fn default() -> (r: Self)
        ensures
            r.loaded() == Map::<Seq<char>, Seq<char>>::empty(),
    {
        Self::new()
    }
}

} // verus!
