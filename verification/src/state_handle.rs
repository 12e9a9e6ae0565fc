//! CastagneStateHandle - access to the memory in a context.
//!
//! A handle remembers the current entity, its target, the current player
//! and the current phase, and reads and writes the memory it is given in
//! that context.

use vstd::prelude::*;
use crate::memory::{
    entity_value, entity_written, eid_valid, global_value, global_written, player_value,
    player_written, CastagneMemory, MemoryModel, MemoryValue, ValueModel,
};
use crate::str_map::DeepClone;
use crate::text::{copy_str, str_eq};

verus! {

/// The state handle.
pub struct CastagneStateHandle {
    eid: i32,
    target_eid: i32,
    pid: i32,
    phase: String,
}

/// A state handle, as plain values.
pub struct HandleModel {
    pub eid: i32,
    pub target_eid: i32,
    pub pid: i32,
    pub phase: Seq<char>,
}

impl View for CastagneStateHandle {
    type V = HandleModel;

    closed spec fn view(&self) -> HandleModel {
        HandleModel { eid: self.eid, target_eid: self.target_eid, pid: self.pid, phase: self.phase@ }
    }
}

/// The 32-bit integer that a value holds, if it holds one in range.
pub open spec fn as_i32(v: Option<ValueModel>) -> Option<i32> {
    match v {
        Some(ValueModel::Int(n)) => if i32::MIN <= n <= i32::MAX {
            Some(n as i32)
        } else {
            None
        },
        _ => None,
    }
}

/// `h` pointing at entity `eid`.
pub open spec fn with_eid(h: HandleModel, eid: i32) -> HandleModel {
    HandleModel { eid, target_eid: h.target_eid, pid: h.pid, phase: h.phase }
}

/// `h` pointing at player `pid`.
pub open spec fn with_pid(h: HandleModel, pid: i32) -> HandleModel {
    HandleModel { eid: h.eid, target_eid: h.target_eid, pid, phase: h.phase }
}

/// `h` targeting entity `t`.
pub open spec fn with_target(h: HandleModel, t: i32) -> HandleModel {
    HandleModel { eid: h.eid, target_eid: t, pid: h.pid, phase: h.phase }
}

/// The entity that targeting `target` selects: `target` when it is a slot
/// of the memory, else the current entity.
pub open spec fn target_choice(h: HandleModel, m: MemoryModel, target: i32) -> i32 {
    if target < 0 || target >= (m.entities.len() as i32) {
        h.eid
    } else {
        target
    }
}

/// Targeting `target`: the handle's target, and the current entity's
/// `_TargetEID` when it has one.
pub open spec fn set_target_model(h: HandleModel, m: MemoryModel, target: i32) -> (HandleModel, MemoryModel) {
    let t = target_choice(h, m, target);
    (
        with_target(h, t),
        if entity_value(m, h.eid, "_TargetEID"@) is Some {
            entity_written(m, h.eid, "_TargetEID"@, ValueModel::Int(t as i64), false)
        } else {
            m
        },
    )
}

/// Targeting again the entity that the current entity's `_TargetEID` names.
pub open spec fn recall_target_model(h: HandleModel, m: MemoryModel) -> (HandleModel, MemoryModel) {
    match as_i32(entity_value(m, h.eid, "_TargetEID"@)) {
        Some(t) => set_target_model(h, m, t),
        None => (h, m),
    }
}

/// Pointing at entity `eid`: whether it exists, and the handle and memory
/// after. For an existing entity the player becomes the entity's
/// `_Player`, when it holds one, and the target is recalled.
pub open spec fn point_to_entity_model(h: HandleModel, m: MemoryModel, eid: i32) -> (bool, HandleModel, MemoryModel) {
    let h1 = with_eid(h, eid);
    if !eid_valid(m, eid) {
        (false, h1, m)
    } else {
        let h2 = if eid >= 0 {
            match as_i32(entity_value(m, eid, "_Player"@)) {
                Some(p) => with_pid(h1, p),
                None => h1,
            }
        } else {
            with_pid(h1, -1i32)
        };
        let r = recall_target_model(h2, m);
        (true, r.0, r.1)
    }
}

/// The flags of the current entity, when `_Flags` holds a string array.
pub open spec fn flags_of(m: MemoryModel, eid: i32) -> Option<Seq<Seq<char>>> {
    match entity_value(m, eid, "_Flags"@) {
        Some(ValueModel::StringArray(a)) => Some(a),
        _ => None,
    }
}

/// `flags` with `flag` set or cleared: setting adds it at the end when it
/// is absent, clearing removes every copy of it.
pub open spec fn flags_with(flags: Seq<Seq<char>>, flag: Seq<char>, active: bool) -> Seq<Seq<char>> {
    if active {
        if flags.contains(flag) {
            flags
        } else {
            flags.push(flag)
        }
    } else {
        flags.filter(|f: Seq<char>| f != flag)
    }
}

/// The value of `key` for the handle's player, when it points at one.
pub open spec fn handle_player_value(h: HandleModel, m: MemoryModel, key: Seq<char>) -> Option<ValueModel> {
    if h.pid < 0 {
        None
    } else {
        player_value(m, h.pid as int, key)
    }
}

/// Whether `flags` holds `flag`.
fn contains_flag(flags: &Vec<String>, flag: &str) -> (r: bool)
    ensures
        r == flags.deep_view().contains(flag@),
{
    let ghost f = flags.deep_view();
    let mut i: usize = 0;
    while i < flags.len()
        invariant
            i <= flags.len(),
            f == flags.deep_view(),
            forall|j: int| 0 <= j < i ==> f[j] != flag@,
        decreases flags.len() - i,
    {
        if str_eq(flags[i].as_str(), flag) {
            assert(f[i as int] == flag@);
            return true;
        }
        i = i + 1;
    }
    false
}

impl CastagneStateHandle {
    /// A handle pointing at no entity, target or player, in phase `None`.
    pub fn new() -> (r: Self)
        ensures
            r@ == (HandleModel { eid: -1i32, target_eid: -1i32, pid: -1i32, phase: "None"@ }),
    {
        CastagneStateHandle { eid: -1, target_eid: -1, pid: -1, phase: copy_str("None") }
    }

    /// A copy of this handle.
    pub fn clone_handle(&self) -> (r: Self)
        ensures
            r@ == self@,
    {
        CastagneStateHandle {
            eid: self.eid,
            target_eid: self.target_eid,
            pid: self.pid,
            phase: self.phase.clone(),
        }
    }

    // ------------------------------------------------------------------
    // Context

    /// Points at entity `eid`; says whether it exists.
    pub fn point_to_entity(&mut self, memory: &mut CastagneMemory, eid: i32) -> (r: bool)
        ensures
            (r, final(self)@, final(memory)@) == point_to_entity_model(old(self)@, old(memory)@, eid),
    {
        self.eid = eid;
        let valid_eid = memory.is_eid_valid(eid);
        if !valid_eid {
            return false;
        }
        if eid >= 0 {
            match self.entity_get(memory, "_Player") {
                Some(MemoryValue::Int(n)) => {
                    if -2147483648i64 <= n && n <= 2147483647i64 {
                        self.point_to_player(n as i32);
                    }
                },
                _ => {},
            }
        } else {
            self.pid = -1;
        }
        self.recall_target_entity(memory);
        true
    }

    /// Points at player `pid`.
    pub fn point_to_player(&mut self, pid: i32)
        ensures
            final(self)@ == with_pid(old(self)@, pid),
    {
        self.pid = pid;
    }

    /// The current player.
    pub fn get_player(&self) -> (r: i32)
        ensures
            r == self@.pid,
    {
        self.pid
    }

    /// Points at the main entity of player `pid`; says whether it exists.
    pub fn point_to_player_main_entity(&mut self, memory: &mut CastagneMemory, pid: i32) -> (r: bool)
        ensures
            match as_i32(player_value(old(memory)@, (pid as usize) as int, "MainEntity"@)) {
                Some(e) => (r, final(self)@, final(memory)@) == point_to_entity_model(
                    old(self)@,
                    old(memory)@,
                    e,
                ),
                None => !r && final(self)@ == old(self)@ && final(memory)@ == old(memory)@,
            },
    {
        let main_entity_opt = memory.player_get(pid as usize, "MainEntity");
        match main_entity_opt {
            Some(MemoryValue::Int(n)) => {
                if -2147483648i64 <= n && n <= 2147483647i64 {
                    return self.point_to_entity(memory, n as i32);
                }
                false
            },
            _ => false,
        }
    }

    /// The current entity.
    pub fn get_entity_id(&self) -> (r: i32)
        ensures
            r == self@.eid,
    {
        self.eid
    }

    /// The target entity.
    pub fn get_target_eid(&self) -> (r: i32)
        ensures
            r == self@.target_eid,
    {
        self.target_eid
    }

    /// Targets entity `target_eid`, or the current entity when there is no
    /// such slot, and records the target in the current entity.
    pub fn set_target_entity(&mut self, memory: &mut CastagneMemory, target_eid: i32)
        ensures
            (final(self)@, final(memory)@) == set_target_model(old(self)@, old(memory)@, target_eid),
    {
        let entity_count = memory.entity_count() as i32;
        let mut final_eid = target_eid;
        if target_eid < 0 || target_eid >= entity_count {
            final_eid = self.eid;
        }
        self.target_eid = final_eid;
        if self.entity_has(memory, "_TargetEID") {
            self.entity_set(memory, "_TargetEID", MemoryValue::Int(final_eid as i64));
        }
    }

    /// Targets again the entity that the current entity records.
    pub fn recall_target_entity(&mut self, memory: &mut CastagneMemory)
        ensures
            (final(self)@, final(memory)@) == recall_target_model(old(self)@, old(memory)@),
    {
        if self.entity_has(memory, "_TargetEID") {
            match self.entity_get(memory, "_TargetEID") {
                Some(MemoryValue::Int(n)) => {
                    if -2147483648i64 <= n && n <= 2147483647i64 {
                        self.set_target_entity(memory, n as i32);
                    }
                },
                _ => {},
            }
        }
    }

    /// The current phase.
    pub fn get_phase(&self) -> (r: &str)
        ensures
            r@ == self@.phase,
    {
        self.phase.as_str()
    }

    /// Sets the current phase.
    pub fn set_phase(&mut self, phase: &str)
        ensures
            final(self)@ == (HandleModel {
                eid: old(self)@.eid,
                target_eid: old(self)@.target_eid,
                pid: old(self)@.pid,
                phase: phase@,
            }),
    {
        self.phase = copy_str(phase);
    }

    // ------------------------------------------------------------------
    // Global memory

    /// The global value of `key`.
    pub fn global_get(&self, memory: &CastagneMemory, key: &str) -> (r: Option<MemoryValue>)
        ensures
            r.deep_view() == global_value(memory@, key@),
    {
        memory.global_get(key)
    }

    /// Writes an existing global value.
    pub fn global_set(&mut self, memory: &mut CastagneMemory, key: &str, value: MemoryValue)
        ensures
            final(self)@ == old(self)@,
            final(memory)@ == global_written(old(memory)@, key@, value.deep_view(), false),
    {
        memory.global_set(key, value, false);
    }

    /// Whether the global memory defines `key`.
    pub fn global_has(&self, memory: &CastagneMemory, key: &str) -> (r: bool)
        ensures
            r == memory@.global.contains_key(key@),
    {
        memory.global_has(key)
    }

    /// Adds `value` to a global integer; other values are left alone.
    pub fn global_add(&mut self, memory: &mut CastagneMemory, key: &str, value: i32)
        requires
            as_i32(global_value(old(memory)@, key@)) matches Some(c) ==> i32::MIN <= c + value <= i32::MAX,
        ensures
            final(self)@ == old(self)@,
            final(memory)@ == match as_i32(global_value(old(memory)@, key@)) {
                Some(c) => global_written(old(memory)@, key@, ValueModel::Int((c + value) as i64), false),
                None => old(memory)@,
            },
    {
        match self.global_get(memory, key) {
            Some(MemoryValue::Int(n)) => {
                if -2147483648i64 <= n && n <= 2147483647i64 {
                    let c = n as i32;
                    self.global_set(memory, key, MemoryValue::Int((c + value) as i64));
                }
            },
            _ => {},
        }
    }

    // ------------------------------------------------------------------
    // Player memory (the current player)

    /// The value of `key` for the current player.
    pub fn player_get(&self, memory: &CastagneMemory, key: &str) -> (r: Option<MemoryValue>)
        ensures
            r.deep_view() == handle_player_value(self@, memory@, key@),
    {
        if self.pid < 0 {
            return None;
        }
        memory.player_get(self.pid as usize, key)
    }

    /// Writes an existing value of the current player.
    pub fn player_set(&mut self, memory: &mut CastagneMemory, key: &str, value: MemoryValue)
        ensures
            final(self)@ == old(self)@,
            final(memory)@ == (if old(self)@.pid < 0 {
                old(memory)@
            } else {
                player_written(old(memory)@, old(self)@.pid as int, key@, value.deep_view(), false)
            }),
    {
        if self.pid < 0 {
            return;
        }
        memory.player_set(self.pid as usize, key, value, false);
    }

    /// Whether the current player defines `key`.
    pub fn player_has(&self, memory: &CastagneMemory, key: &str) -> (r: bool)
        ensures
            r == (handle_player_value(self@, memory@, key@) is Some),
    {
        if self.pid < 0 {
            return false;
        }
        memory.player_has(self.pid as usize, key)
    }

    /// Adds `value` to an integer of the current player.
    pub fn player_add(&mut self, memory: &mut CastagneMemory, key: &str, value: i32)
        requires
            as_i32(handle_player_value(old(self)@, old(memory)@, key@)) matches Some(c) ==> i32::MIN
                <= c + value <= i32::MAX,
        ensures
            final(self)@ == old(self)@,
            final(memory)@ == match as_i32(handle_player_value(old(self)@, old(memory)@, key@)) {
                Some(c) => player_written(
                    old(memory)@,
                    old(self)@.pid as int,
                    key@,
                    ValueModel::Int((c + value) as i64),
                    false,
                ),
                None => old(memory)@,
            },
    {
        match self.player_get(memory, key) {
            Some(MemoryValue::Int(n)) => {
                if -2147483648i64 <= n && n <= 2147483647i64 {
                    let c = n as i32;
                    self.player_set(memory, key, MemoryValue::Int((c + value) as i64));
                }
            },
            _ => {},
        }
    }

    // ------------------------------------------------------------------
    // Entity memory (the current entity)

    /// The value of `key` for the current entity.
    pub fn entity_get(&self, memory: &CastagneMemory, key: &str) -> (r: Option<MemoryValue>)
        ensures
            r.deep_view() == entity_value(memory@, self@.eid, key@),
    {
        memory.entity_get(self.eid, key)
    }

    /// Writes an existing value of the current entity.
    pub fn entity_set(&mut self, memory: &mut CastagneMemory, key: &str, value: MemoryValue)
        ensures
            final(self)@ == old(self)@,
            final(memory)@ == entity_written(old(memory)@, old(self)@.eid, key@, value.deep_view(), false),
    {
        memory.entity_set(self.eid, key, value, false);
    }

    /// Whether the current entity defines `key`.
    pub fn entity_has(&self, memory: &CastagneMemory, key: &str) -> (r: bool)
        ensures
            r == (entity_value(memory@, self@.eid, key@) is Some),
    {
        memory.entity_has(self.eid, key)
    }

    /// Adds `value` to an integer of the current entity.
    pub fn entity_add(&mut self, memory: &mut CastagneMemory, key: &str, value: i32)
        requires
            as_i32(entity_value(old(memory)@, old(self)@.eid, key@)) matches Some(c) ==> i32::MIN <= c
                + value <= i32::MAX,
        ensures
            final(self)@ == old(self)@,
            final(memory)@ == match as_i32(entity_value(old(memory)@, old(self)@.eid, key@)) {
                Some(c) => entity_written(
                    old(memory)@,
                    old(self)@.eid,
                    key@,
                    ValueModel::Int((c + value) as i64),
                    false,
                ),
                None => old(memory)@,
            },
    {
        match self.entity_get(memory, key) {
            Some(MemoryValue::Int(n)) => {
                if -2147483648i64 <= n && n <= 2147483647i64 {
                    let c = n as i32;
                    self.entity_set(memory, key, MemoryValue::Int((c + value) as i64));
                }
            },
            _ => {},
        }
    }

    // ------------------------------------------------------------------
    // Target entity memory

    /// The value of `key` for the target entity.
    pub fn target_entity_get(&self, memory: &CastagneMemory, key: &str) -> (r: Option<MemoryValue>)
        ensures
            r.deep_view() == entity_value(memory@, self@.target_eid, key@),
    {
        memory.entity_get(self.target_eid, key)
    }

    /// Writes an existing value of the target entity.
    pub fn target_entity_set(&mut self, memory: &mut CastagneMemory, key: &str, value: MemoryValue)
        ensures
            final(self)@ == old(self)@,
            final(memory)@ == entity_written(
                old(memory)@,
                old(self)@.target_eid,
                key@,
                value.deep_view(),
                false,
            ),
    {
        memory.entity_set(self.target_eid, key, value, false);
    }

    /// Whether the target entity defines `key`.
    pub fn target_entity_has(&self, memory: &CastagneMemory, key: &str) -> (r: bool)
        ensures
            r == (entity_value(memory@, self@.target_eid, key@) is Some),
    {
        memory.entity_has(self.target_eid, key)
    }

    /// Adds `value` to an integer of the target entity.
    pub fn target_entity_add(&mut self, memory: &mut CastagneMemory, key: &str, value: i32)
        requires
            as_i32(entity_value(old(memory)@, old(self)@.target_eid, key@)) matches Some(c) ==> i32::MIN
                <= c + value <= i32::MAX,
        ensures
            final(self)@ == old(self)@,
            final(memory)@ == match as_i32(entity_value(old(memory)@, old(self)@.target_eid, key@)) {
                Some(c) => entity_written(
                    old(memory)@,
                    old(self)@.target_eid,
                    key@,
                    ValueModel::Int((c + value) as i64),
                    false,
                ),
                None => old(memory)@,
            },
    {
        match self.target_entity_get(memory, key) {
            Some(MemoryValue::Int(n)) => {
                if -2147483648i64 <= n && n <= 2147483647i64 {
                    let c = n as i32;
                    self.target_entity_set(memory, key, MemoryValue::Int((c + value) as i64));
                }
            },
            _ => {},
        }
    }

    // ------------------------------------------------------------------
    // Flags

    /// Whether the current entity's flags hold `flag`.
    pub fn entity_has_flag(&self, memory: &CastagneMemory, flag: &str) -> (r: bool)
        ensures
            r == (flags_of(memory@, self@.eid) matches Some(f) && f.contains(flag@)),
    {
        match self.entity_get(memory, "_Flags") {
            Some(MemoryValue::StringArray(flags)) => contains_flag(&flags, flag),
            _ => false,
        }
    }

    /// Sets or clears a flag of the current entity.
    pub fn entity_set_flag(&mut self, memory: &mut CastagneMemory, flag: &str, active: bool)
        ensures
            final(self)@ == old(self)@,
            final(memory)@ == match flags_of(old(memory)@, old(self)@.eid) {
                Some(f) => entity_written(
                    old(memory)@,
                    old(self)@.eid,
                    "_Flags"@,
                    ValueModel::StringArray(flags_with(f, flag@, active)),
                    false,
                ),
                None => old(memory)@,
            },
    {
        match self.entity_get(memory, "_Flags") {
            Some(MemoryValue::StringArray(flags)) => {
                let ghost f = flags.deep_view();
                let new_flags = if active {
                    if contains_flag(&flags, flag) {
                        flags
                    } else {
                        let mut flags = flags;
                        flags.push(copy_str(flag));
                        assert(flags.deep_view() =~= f.push(flag@));
                        flags
                    }
                } else {
                    let mut kept: Vec<String> = Vec::new();
                    let mut i: usize = 0;
                    while i < flags.len()
                        invariant
                            i <= flags.len(),
                            f == flags.deep_view(),
                            kept.deep_view() == f.take(i as int).filter(|x: Seq<char>| x != flag@),
                        decreases flags.len() - i,
                    {
                        proof {
                            reveal(Seq::filter);
                            assert(f.take(i as int + 1).drop_last() =~= f.take(i as int));
                            assert(f.take(i as int + 1).last() == flags@[i as int]@);
                        }
                        if !str_eq(flags[i].as_str(), flag) {
                            kept.push(flags[i].clone());
                            assert(kept.deep_view() =~= f.take(i as int).filter(
                                |x: Seq<char>| x != flag@,
                            ).push(flags@[i as int]@));
                        }
                        i = i + 1;
                    }
                    assert(f.take(f.len() as int) =~= f);
                    kept
                };
                self.entity_set(memory, "_Flags", MemoryValue::StringArray(new_flags));
            },
            _ => {},
        }
    }
}

} // verus!
