//! CastagneMemory - the game state, in three tiers.
//!
//! Global data, one map per player and one map per entity. A removed entity
//! keeps its slot, empty, so that entity ids stay stable. This is the state
//! that is saved and restored for rollback.

use vstd::prelude::*;
use crate::str_map::{DeepClone, StrMap};

verus! {

/// A value held in memory.
#[derive(Debug)]
pub enum MemoryValue {
    Nil,
    Bool(bool),
    Int(i64),
    Str(String),
    StringArray(Vec<String>),
    IntArray(Vec<i32>),
}

/// A memory value, as plain values.
pub enum ValueModel {
    Nil,
    Bool(bool),
    Int(i64),
    Str(Seq<char>),
    StringArray(Seq<Seq<char>>),
    IntArray(Seq<i32>),
}

impl DeepView for MemoryValue {
    type V = ValueModel;

    open spec fn deep_view(&self) -> ValueModel {
        match self {
            MemoryValue::Nil => ValueModel::Nil,
            MemoryValue::Bool(b) => ValueModel::Bool(*b),
            MemoryValue::Int(n) => ValueModel::Int(*n),
            MemoryValue::Str(s) => ValueModel::Str(s@),
            MemoryValue::StringArray(a) => ValueModel::StringArray(a.deep_view()),
            MemoryValue::IntArray(a) => ValueModel::IntArray(a@),
        }
    }
}

impl DeepClone for MemoryValue {
    fn deep_clone(&self) -> (r: MemoryValue) {
        match self {
            MemoryValue::Nil => MemoryValue::Nil,
            MemoryValue::Bool(b) => MemoryValue::Bool(*b),
            MemoryValue::Int(n) => MemoryValue::Int(*n),
            MemoryValue::Str(s) => MemoryValue::Str(s.clone()),
            MemoryValue::StringArray(a) => MemoryValue::StringArray(a.deep_clone()),
            MemoryValue::IntArray(a) => {
                let c = a.clone();
                assert(c@ =~= a@);
                MemoryValue::IntArray(c)
            },
        }
    }
}

impl Clone for MemoryValue {
    fn clone(&self) -> (r: MemoryValue)
        ensures
            r.deep_view() == self.deep_view(),
    {
        self.deep_clone()
    }
}

/// A map of memory values, as plain values.
pub type ValueMap = Map<Seq<char>, ValueModel>;

/// The whole memory, as plain values.
pub struct MemoryModel {
    pub global: ValueMap,
    pub players: Seq<ValueMap>,
    pub entities: Seq<Option<ValueMap>>,
}

/// The value of `k` in `m`, if any.
pub open spec fn lookup(m: ValueMap, k: Seq<char>) -> Option<ValueModel> {
    if m.contains_key(k) {
        Some(m[k])
    } else {
        None
    }
}

/// `m` after a write of `v` to `k`: the write takes effect when it may
/// create the key or the key exists already.
pub open spec fn stored(m: ValueMap, k: Seq<char>, v: ValueModel, new_value: bool) -> ValueMap {
    if new_value || m.contains_key(k) {
        m.insert(k, v)
    } else {
        m
    }
}

/// Whether `eid` names an entity that exists.
pub open spec fn eid_valid(m: MemoryModel, eid: i32) -> bool {
    0 <= eid && eid < m.entities.len() && m.entities[eid as int] is Some
}

/// The value of `k` in the global memory.
pub open spec fn global_value(m: MemoryModel, k: Seq<char>) -> Option<ValueModel> {
    lookup(m.global, k)
}

/// The value of `k` for player `pid`.
pub open spec fn player_value(m: MemoryModel, pid: int, k: Seq<char>) -> Option<ValueModel> {
    if 0 <= pid < m.players.len() {
        lookup(m.players[pid], k)
    } else {
        None
    }
}

/// The value of `k` for entity `eid`.
pub open spec fn entity_value(m: MemoryModel, eid: i32, k: Seq<char>) -> Option<ValueModel> {
    if eid_valid(m, eid) {
        lookup(m.entities[eid as int]->0, k)
    } else {
        None
    }
}

/// The memory after a global write.
pub open spec fn global_written(m: MemoryModel, k: Seq<char>, v: ValueModel, new_value: bool) -> MemoryModel {
    MemoryModel { global: stored(m.global, k, v, new_value), players: m.players, entities: m.entities }
}

/// The memory after a write for player `pid` (none when `pid` is invalid).
pub open spec fn player_written(
    m: MemoryModel,
    pid: int,
    k: Seq<char>,
    v: ValueModel,
    new_value: bool,
) -> MemoryModel {
    if 0 <= pid < m.players.len() {
        MemoryModel {
            global: m.global,
            players: m.players.update(pid, stored(m.players[pid], k, v, new_value)),
            entities: m.entities,
        }
    } else {
        m
    }
}

/// The memory after a write for entity `eid` (none when `eid` is invalid).
pub open spec fn entity_written(
    m: MemoryModel,
    eid: i32,
    k: Seq<char>,
    v: ValueModel,
    new_value: bool,
) -> MemoryModel {
    if eid_valid(m, eid) {
        MemoryModel {
            global: m.global,
            players: m.players,
            entities: m.entities.update(
                eid as int,
                Some(stored(m.entities[eid as int]->0, k, v, new_value)),
            ),
        }
    } else {
        m
    }
}

/// The main memory structure holding all game state.
#[derive(Debug)]
pub struct CastagneMemory {
    memory_global: StrMap<MemoryValue>,
    memory_players: Vec<StrMap<MemoryValue>>,
    pub(crate) memory_entities: Vec<Option<StrMap<MemoryValue>>>,
}

impl View for CastagneMemory {
    type V = MemoryModel;

    closed spec fn view(&self) -> MemoryModel {
        MemoryModel {
            global: self.memory_global@,
            players: self.memory_players.deep_view(),
            entities: self.memory_entities.deep_view(),
        }
    }
}

impl CastagneMemory {
    /// An empty memory.
    pub fn new() -> (r: Self)
        ensures
            r@ == (MemoryModel { global: Map::empty(), players: Seq::empty(), entities: Seq::empty() }),
    {
        let r = CastagneMemory {
            memory_global: StrMap::new(),
            memory_players: Vec::new(),
            memory_entities: Vec::new(),
        };
        assert(r.memory_players.deep_view() =~= Seq::<ValueMap>::empty());
        assert(r.memory_entities.deep_view() =~= Seq::<Option<ValueMap>>::empty());
        r
    }

    /// Prepares the memory for a battle; there is nothing to prepare.
    pub fn init_memory(&mut self)
        ensures
            final(self)@ == old(self)@,
    {
    }

    /// Makes this memory a copy of `other`.
    pub fn copy_from(&mut self, other: &CastagneMemory)
        ensures
            final(self)@ == other@,
    {
        self.memory_global = other.memory_global.deep_clone();
        self.memory_players = other.memory_players.deep_clone();
        self.memory_entities = other.memory_entities.deep_clone();
    }

    /// The number of entity slots, removed entities included.
    pub fn entity_count(&self) -> (r: usize)
        ensures
            r == self@.entities.len(),
    {
        self.memory_entities.len()
    }

    // ------------------------------------------------------------------
    // Global memory

    /// The global value of `key`, if it is defined.
    pub fn global_get(&self, key: &str) -> (r: Option<MemoryValue>)
        ensures
            r.deep_view() == global_value(self@, key@),
    {
        match self.memory_global.get(key) {
            Some(value) => Some(value.deep_clone()),
            None => None,
        }
    }

    /// Writes a global value; unless `new_value`, only an existing key is
    /// written. Tells whether the value was written.
    pub fn global_set(&mut self, key: &str, value: MemoryValue, new_value: bool) -> (r: bool)
        ensures
            final(self)@ == global_written(old(self)@, key@, value.deep_view(), new_value),
            r == (new_value || old(self)@.global.contains_key(key@)),
    {
        if new_value || self.memory_global.contains_key(key) {
            self.memory_global.insert(key.to_owned(), value);
            true
        } else {
            false
        }
    }

    /// Whether the global memory defines `key`.
    pub fn global_has(&self, key: &str) -> (r: bool)
        ensures
            r == self@.global.contains_key(key@),
    {
        self.memory_global.contains_key(key)
    }

    // ------------------------------------------------------------------
    // Player memory

    /// Adds a player with no data.
    pub fn add_player(&mut self)
        ensures
            final(self)@ == (MemoryModel {
                global: old(self)@.global,
                players: old(self)@.players.push(Map::empty()),
                entities: old(self)@.entities,
            }),
    {
        self.memory_players.push(StrMap::new());
        assert(self.memory_players.deep_view() =~= old(self)@.players.push(Map::empty()));
    }

    /// The value of `key` for player `pid`, if both exist.
    pub fn player_get(&self, pid: usize, key: &str) -> (r: Option<MemoryValue>)
        ensures
            r.deep_view() == player_value(self@, pid as int, key@),
    {
        if pid >= self.memory_players.len() {
            return None;
        }
        match self.memory_players[pid].get(key) {
            Some(value) => Some(value.deep_clone()),
            None => None,
        }
    }

    /// Writes a value for player `pid`; nothing happens for an unknown
    /// player, and unless `new_value`, only an existing key is written.
    /// Tells whether the value was written.
    pub fn player_set(&mut self, pid: usize, key: &str, value: MemoryValue, new_value: bool) -> (r: bool)
        ensures
            final(self)@ == player_written(old(self)@, pid as int, key@, value.deep_view(), new_value),
            r == (pid < old(self)@.players.len() && (new_value || old(self)@.players[pid as int].contains_key(
                key@,
            ))),
    {
        if pid >= self.memory_players.len() {
            return false;
        }
        if new_value || self.memory_players[pid].contains_key(key) {
            let mut players: Vec<StrMap<MemoryValue>> = Vec::new();
            std::mem::swap(&mut players, &mut self.memory_players);
            let mut map = players.remove(pid);
            map.insert(key.to_owned(), value);
            players.insert(pid, map);
            self.memory_players = players;
            assert(self.memory_players.deep_view() =~= old(self)@.players.update(
                pid as int,
                stored(old(self)@.players[pid as int], key@, value.deep_view(), new_value),
            ));
        } else {
            assert(old(self)@.players.update(pid as int, old(self)@.players[pid as int])
                =~= old(self)@.players);
            return false;
        }
        true
    }

    /// Whether player `pid` exists and defines `key`.
    pub fn player_has(&self, pid: usize, key: &str) -> (r: bool)
        ensures
            r == (pid < self@.players.len() && self@.players[pid as int].contains_key(key@)),
    {
        if pid >= self.memory_players.len() {
            return false;
        }
        self.memory_players[pid].contains_key(key)
    }

    // ------------------------------------------------------------------
    // Entity memory

    /// Adds an entity with no data and returns its id.
    pub fn add_entity(&mut self) -> (r: usize)
        requires
            old(self)@.entities.len() < usize::MAX,
        ensures
            r == old(self)@.entities.len(),
            final(self)@ == (MemoryModel {
                global: old(self)@.global,
                players: old(self)@.players,
                entities: old(self)@.entities.push(Some(Map::empty())),
            }),
    {
        self.memory_entities.push(Some(StrMap::new()));
        assert(self.memory_entities.deep_view() =~= old(self)@.entities.push(Some(Map::empty())));
        self.memory_entities.len() - 1
    }

    /// Removes an entity; its slot stays, empty. Nothing happens for an id
    /// past the last slot.
    pub fn remove_entity(&mut self, eid: usize)
        ensures
            final(self)@ == (if eid < old(self)@.entities.len() {
                MemoryModel {
                    global: old(self)@.global,
                    players: old(self)@.players,
                    entities: old(self)@.entities.update(eid as int, None),
                }
            } else {
                old(self)@
            }),
    {
        if eid < self.memory_entities.len() {
            self.memory_entities.set(eid, None);
            assert(self.memory_entities.deep_view() =~= old(self)@.entities.update(eid as int, None));
        }
    }

    /// Whether `eid` names an entity that exists.
    pub fn is_eid_valid(&self, eid: i32) -> (r: bool)
        ensures
            r == eid_valid(self@, eid),
    {
        if eid < 0 {
            return false;
        }
        let e = eid as usize;
        e < self.memory_entities.len() && self.memory_entities[e].is_some()
    }

    /// The value of `key` for entity `eid`, if both exist.
    pub fn entity_get(&self, eid: i32, key: &str) -> (r: Option<MemoryValue>)
        ensures
            r.deep_view() == entity_value(self@, eid, key@),
    {
        if !self.is_eid_valid(eid) {
            return None;
        }
        let e = eid as usize;
        match &self.memory_entities[e] {
            Some(entity_map) => match entity_map.get(key) {
                Some(value) => Some(value.deep_clone()),
                None => None,
            },
            None => None,
        }
    }

    /// Writes a value for entity `eid`; nothing happens for an invalid id,
    /// and unless `new_value`, only an existing key is written. Tells
    /// whether the value was written.
    pub fn entity_set(&mut self, eid: i32, key: &str, value: MemoryValue, new_value: bool) -> (r: bool)
        ensures
            final(self)@ == entity_written(old(self)@, eid, key@, value.deep_view(), new_value),
            r == (eid_valid(old(self)@, eid) && (new_value || old(self)@.entities[eid as int]->0.contains_key(
                key@,
            ))),
    {
        if !self.is_eid_valid(eid) {
            return false;
        }
        let e = eid as usize;
        let mut entities: Vec<Option<StrMap<MemoryValue>>> = Vec::new();
        std::mem::swap(&mut entities, &mut self.memory_entities);
        let slot = entities.remove(e);
        let mut map = match slot {
            Some(m) => m,
            None => StrMap::new(),
        };
        let written = new_value || map.contains_key(key);
        if written {
            map.insert(key.to_owned(), value);
        }
        entities.insert(e, Some(map));
        self.memory_entities = entities;
        assert(self.memory_entities.deep_view() =~= old(self)@.entities.update(
            eid as int,
            Some(stored(old(self)@.entities[eid as int]->0, key@, value.deep_view(), new_value)),
        ));
        written
    }

    /// Whether entity `eid` exists and defines `key`.
    pub fn entity_has(&self, eid: i32, key: &str) -> (r: bool)
        ensures
            r == (entity_value(self@, eid, key@) is Some),
    {
        if !self.is_eid_valid(eid) {
            return false;
        }
        let e = eid as usize;
        match &self.memory_entities[e] {
            Some(entity_map) => entity_map.contains_key(key),
            None => false,
        }
    }
}

// ---------------------------------------------------------------------------
// Laws

/// A read gives back what a write wrote, when the write may create the key
/// or the key exists; other keys keep their values. This holds of each tier.
pub proof fn lemma_read_after_write(m: MemoryModel, k: Seq<char>, other: Seq<char>, v: ValueModel, new_value: bool)
    requires
        other != k,
    ensures
        new_value || global_value(m, k) is Some ==> global_value(global_written(m, k, v, new_value), k) == Some(v),
        global_value(global_written(m, k, v, new_value), other) == global_value(m, other),
        forall|pid: int|
            0 <= pid < m.players.len() && (new_value || player_value(m, pid, k) is Some)
                ==> #[trigger] player_value(player_written(m, pid, k, v, new_value), pid, k) == Some(v),
        forall|pid: int, q: int|
            #![trigger player_value(player_written(m, pid, k, v, new_value), q, other)]
            player_value(player_written(m, pid, k, v, new_value), q, other) == player_value(m, q, other),
        forall|eid: i32|
            eid_valid(m, eid) && (new_value || entity_value(m, eid, k) is Some)
                ==> #[trigger] entity_value(entity_written(m, eid, k, v, new_value), eid, k) == Some(v),
        forall|eid: i32, e2: i32|
            #![trigger entity_value(entity_written(m, eid, k, v, new_value), e2, other)]
            entity_value(entity_written(m, eid, k, v, new_value), e2, other) == entity_value(m, e2, other),
{
    assert forall|pid: int, q: int|
        #![trigger player_value(player_written(m, pid, k, v, new_value), q, other)]
        player_value(player_written(m, pid, k, v, new_value), q, other) == player_value(m, q, other) by {
        if 0 <= pid < m.players.len() && 0 <= q < m.players.len() && pid != q {
            assert(player_written(m, pid, k, v, new_value).players[q] == m.players[q]);
        }
    }
    assert forall|eid: i32, e2: i32|
        #![trigger entity_value(entity_written(m, eid, k, v, new_value), e2, other)]
        entity_value(entity_written(m, eid, k, v, new_value), e2, other) == entity_value(m, e2, other) by {
        if eid_valid(m, eid) && eid != e2 && 0 <= e2 < m.entities.len() {
            assert(entity_written(m, eid, k, v, new_value).entities[e2 as int] == m.entities[e2 as int]);
        }
    }
}

/// A write that may not create a key leaves a memory without that key as
/// it was.
pub proof fn lemma_write_needs_key(m: MemoryModel, k: Seq<char>, v: ValueModel)
    ensures
        global_value(m, k) is None ==> global_written(m, k, v, false) == m,
        forall|pid: int| player_value(m, pid, k) is None ==> #[trigger] player_written(m, pid, k, v, false) == m,
        forall|eid: i32| entity_value(m, eid, k) is None ==> #[trigger] entity_written(m, eid, k, v, false) == m,
{
    assert forall|pid: int| player_value(m, pid, k) is None implies #[trigger] player_written(m, pid, k, v, false) == m by {
        if 0 <= pid < m.players.len() {
            assert(m.players.update(pid, m.players[pid]) =~= m.players);
        }
    }
    assert forall|eid: i32| entity_value(m, eid, k) is None implies #[trigger] entity_written(m, eid, k, v, false) == m by {
        if eid_valid(m, eid) {
            assert(m.entities.update(eid as int, Some(m.entities[eid as int]->0)) =~= m.entities);
        }
    }
}

} // verus!
