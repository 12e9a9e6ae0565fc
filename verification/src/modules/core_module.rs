//! CMCore - the core module.
//!
//! Registers the variables that every entity and the global memory have,
//! copies their initial values into memory, resets the per-frame ones, and
//! moves the flags queued for the next frame into the current flags.

use vstd::prelude::*;
use crate::memory::{
    eid_valid, entity_value, entity_written, CastagneMemory, MemoryModel, MemoryValue,
    ValueMap, ValueModel,
};
use crate::state_handle::{point_to_entity_model, CastagneStateHandle, HandleModel};
use crate::str_map::{DeepClone, StrMap};
use crate::text::copy_str;

verus! {

/// Core module providing essential functionality.
pub struct CoreModule {
    /// Variables to initialize for each entity.
    variables_entity_init: StrMap<MemoryValue>,
    /// Variables to reset each frame.
    variables_entity_reset: StrMap<MemoryValue>,
    /// Variables to initialize globally.
    variables_global_init: StrMap<MemoryValue>,
}

/// The core module, as plain values.
pub struct CoreModel {
    pub entity_init: ValueMap,
    pub entity_reset: ValueMap,
    pub global_init: ValueMap,
}

impl View for CoreModule {
    type V = CoreModel;

    closed spec fn view(&self) -> CoreModel {
        CoreModel {
            entity_init: self.variables_entity_init@,
            entity_reset: self.variables_entity_reset@,
            global_init: self.variables_global_init@,
        }
    }
}

/// An empty string array.
pub open spec fn no_strings() -> ValueModel {
    ValueModel::StringArray(Seq::empty())
}

/// An empty integer array.
pub open spec fn no_ints() -> ValueModel {
    ValueModel::IntArray(Seq::empty())
}

/// The variables that every entity starts with.
pub open spec fn core_entity_init() -> ValueMap {
    Map::empty()
        .insert("_Flags"@, no_strings())
        .insert("_FlagsNext"@, no_strings())
        .insert("_State"@, ValueModel::Str(Seq::empty()))
        .insert("_StateTransition"@, ValueModel::Bool(false))
        .insert("_EID"@, ValueModel::Int(-1i64))
        .insert("_Player"@, ValueModel::Int(-1i64))
        .insert("_TargetEID"@, ValueModel::Int(-1i64))
        .insert("_FreezeFrames"@, ValueModel::Int(0i64))
        .insert("_HaltFrames"@, ValueModel::Int(0i64))
        .insert("_Entity"@, ValueModel::Nil)
}

/// The entity variables that are reset each frame.
pub open spec fn core_entity_reset() -> ValueMap {
    Map::empty().insert("_Flags"@, no_strings()).insert("_StateTransition"@, ValueModel::Bool(false))
}

/// The global variables.
pub open spec fn core_global_init() -> ValueMap {
    Map::empty()
        .insert("_FrameID"@, ValueModel::Int(0i64))
        .insert("_TrueFrameID"@, ValueModel::Int(0i64))
        .insert("_ActiveEntities"@, no_ints())
        .insert("_ActiveFullEntities"@, no_ints())
        .insert("_ActiveSubentities"@, no_ints())
        .insert("_EntitiesToInit"@, no_ints())
        .insert("_SubentitiesToInit"@, no_ints())
        .insert("_EntitiesToDestroy"@, no_ints())
        .insert("_SkipFrame"@, ValueModel::Bool(false))
}

/// `m` with the map of entity `eid` replaced by `f` of it, when the entity
/// exists.
pub open spec fn entity_map_replaced(m: MemoryModel, eid: i32, new_map: ValueMap) -> MemoryModel {
    if eid_valid(m, eid) {
        MemoryModel { global: m.global, players: m.players, entities: m.entities.update(eid as int, Some(new_map)) }
    } else {
        m
    }
}

/// The map of entity `eid` (empty when it does not exist).
pub open spec fn entity_map(m: MemoryModel, eid: i32) -> ValueMap {
    if eid_valid(m, eid) {
        m.entities[eid as int]->0
    } else {
        Map::empty()
    }
}

/// `old` with the keys it has set from `vals`.
pub open spec fn overwrite_existing(old: ValueMap, vals: ValueMap) -> ValueMap {
    Map::new(
        |k: Seq<char>| old.contains_key(k),
        |k: Seq<char>|
            if vals.contains_key(k) {
                vals[k]
            } else {
                old[k]
            },
    )
}

/// The memory after copying entity variables: a new entity gets every
/// variable it lacks; an existing one has the variables it has reset.
pub open spec fn entity_vars_copied(m: MemoryModel, eid: i32, vals: ValueMap, new_entity: bool) -> MemoryModel {
    entity_map_replaced(
        m,
        eid,
        if new_entity {
            vals.union_prefer_right(entity_map(m, eid))
        } else {
            overwrite_existing(entity_map(m, eid), vals)
        },
    )
}

/// Resetting the per-frame variables of each entity of `eids` in turn:
/// point at it, then overwrite its reset variables.
pub open spec fn reset_all(h: HandleModel, m: MemoryModel, vals: ValueMap, eids: Seq<i32>) -> (HandleModel, MemoryModel)
    decreases eids.len(),
{
    if eids.len() == 0 {
        (h, m)
    } else {
        let prev = reset_all(h, m, vals, eids.drop_last());
        let p = point_to_entity_model(prev.0, prev.1, eids.last());
        (p.1, entity_vars_copied(p.2, eids.last(), vals, false))
    }
}

/// The string array that `key` of entity `eid` holds, if it holds one.
pub open spec fn strings_at(m: MemoryModel, eid: i32, key: Seq<char>) -> Option<Seq<Seq<char>>> {
    match entity_value(m, eid, key) {
        Some(ValueModel::StringArray(a)) => Some(a),
        _ => None,
    }
}

/// Moving the flags queued for the next frame into the current flags,
/// then emptying the queue.
pub open spec fn flags_advanced(m: MemoryModel, eid: i32) -> MemoryModel {
    match strings_at(m, eid, "_FlagsNext"@) {
        Some(next) => {
            let m1 = match strings_at(m, eid, "_Flags"@) {
                Some(f) => entity_written(m, eid, "_Flags"@, ValueModel::StringArray(f + next), false),
                None => m,
            };
            entity_written(m1, eid, "_FlagsNext"@, no_strings(), false)
        },
        None => m,
    }
}

impl CoreModule {
    /// The core module, with its entity and global variables registered.
    pub fn new() -> (r: Self)
        ensures
            r@ == (CoreModel {
                entity_init: core_entity_init(),
                entity_reset: core_entity_reset(),
                global_init: core_global_init(),
            }),
    {
        let mut module = CoreModule {
            variables_entity_init: StrMap::new(),
            variables_entity_reset: StrMap::new(),
            variables_global_init: StrMap::new(),
        };
        let no_flags: Vec<String> = Vec::new();
        let no_flags_next: Vec<String> = Vec::new();
        assert(no_flags.deep_view() =~= Seq::<Seq<char>>::empty());
        assert(no_flags_next.deep_view() =~= Seq::<Seq<char>>::empty());
        module.register_variable_entity("_Flags", MemoryValue::StringArray(no_flags), true);
        module.register_variable_entity("_FlagsNext", MemoryValue::StringArray(no_flags_next), false);
        module.register_variable_entity("_State", MemoryValue::Str(copy_str("")), false);
        module.register_variable_entity("_StateTransition", MemoryValue::Bool(false), true);
        module.register_variable_entity("_EID", MemoryValue::Int(-1), false);
        module.register_variable_entity("_Player", MemoryValue::Int(-1), false);
        module.register_variable_entity("_TargetEID", MemoryValue::Int(-1), false);
        module.register_variable_entity("_FreezeFrames", MemoryValue::Int(0), false);
        module.register_variable_entity("_HaltFrames", MemoryValue::Int(0), false);
        module.register_variable_entity("_Entity", MemoryValue::Nil, false);
        module.register_variable_global("_FrameID", MemoryValue::Int(0), false);
        module.register_variable_global("_TrueFrameID", MemoryValue::Int(0), false);
        module.register_variable_global("_ActiveEntities", MemoryValue::IntArray(Vec::new()), false);
        module.register_variable_global("_ActiveFullEntities", MemoryValue::IntArray(Vec::new()), false);
        module.register_variable_global("_ActiveSubentities", MemoryValue::IntArray(Vec::new()), false);
        module.register_variable_global("_EntitiesToInit", MemoryValue::IntArray(Vec::new()), false);
        module.register_variable_global("_SubentitiesToInit", MemoryValue::IntArray(Vec::new()), false);
        module.register_variable_global("_EntitiesToDestroy", MemoryValue::IntArray(Vec::new()), false);
        module.register_variable_global("_SkipFrame", MemoryValue::Bool(false), false);
        proof {
            reveal_strlit("");
            assert(""@ =~= Seq::<char>::empty());
        }
        assert(module@.entity_init =~= core_entity_init());
        assert(module@.entity_reset =~= core_entity_reset());
        assert(module@.global_init =~= core_global_init());
        module
    }

    /// Registers an entity variable with its initial value, and as reset
    /// each frame when `reset_each_frame`.
    fn register_variable_entity(&mut self, name: &str, default_value: MemoryValue, reset_each_frame: bool)
        ensures
            final(self)@ == (CoreModel {
                entity_init: old(self)@.entity_init.insert(name@, default_value.deep_view()),
                entity_reset: if reset_each_frame {
                    old(self)@.entity_reset.insert(name@, default_value.deep_view())
                } else {
                    old(self)@.entity_reset
                },
                global_init: old(self)@.global_init,
            }),
    {
        self.variables_entity_init.insert(copy_str(name), default_value.deep_clone());
        if reset_each_frame {
            self.variables_entity_reset.insert(copy_str(name), default_value);
        }
    }

    /// Registers a global variable with its initial value. Global variables
    /// are not reset each frame.
    fn register_variable_global(&mut self, name: &str, default_value: MemoryValue, _reset_each_frame: bool)
        ensures
            final(self)@ == (CoreModel {
                entity_init: old(self)@.entity_init,
                entity_reset: old(self)@.entity_reset,
                global_init: old(self)@.global_init.insert(name@, default_value.deep_view()),
            }),
    {
        self.variables_global_init.insert(copy_str(name), default_value);
    }

    /// The module's name.
    pub fn module_name(&self) -> (r: &str)
        ensures
            r@ == "Core"@,
    {
        "Core"
    }

    /// The module's slot.
    pub fn module_slot(&self) -> (r: Option<&str>)
        ensures
            r matches Some(s) && s@ == "Core"@,
    {
        Some("Core")
    }

    /// Writes the initial value of every global variable.
    pub fn copy_variables_global(&mut self, memory: &mut CastagneMemory)
        ensures
            final(self)@ == old(self)@,
            final(memory)@ == (MemoryModel {
                global: old(memory)@.global.union_prefer_right(old(self)@.global_init),
                players: old(memory)@.players,
                entities: old(memory)@.entities,
            }),
    {
        let vals = &self.variables_global_init;
        proof {
            use_type_invariant(vals);
            vals.lemma_entries();
        }
        let ghost m0 = memory@;
        proof {
            let none = Map::new(
                |k: Seq<char>| exists|j: int| 0 <= j < 0 && vals.ekey(j) == k,
                |k: Seq<char>| vals@[k],
            );
            assert(m0.global.union_prefer_right(none) =~= m0.global);
        }
        let mut i: usize = 0;
        while i < vals.len()
            invariant
                i <= vals.size(),
                vals.distinct_keys(),
                memory@ == (MemoryModel {
                    global: m0.global.union_prefer_right(
                        Map::new(
                            |k: Seq<char>| exists|j: int| 0 <= j < i && vals.ekey(j) == k,
                            |k: Seq<char>| vals@[k],
                        ),
                    ),
                    players: m0.players,
                    entities: m0.entities,
                }),
            decreases vals.size() - i,
        {
            proof {
                vals.lemma_entries();
            }
            memory.global_set(vals.key_at(i).as_str(), vals.value_at(i).deep_clone(), true);
            proof {
                assert(vals@.contains_key(vals.ekey(i as int)));
                let before = Map::new(
                    |k: Seq<char>| exists|j: int| 0 <= j < i && vals.ekey(j) == k,
                    |k: Seq<char>| vals@[k],
                );
                let next = Map::new(
                    |k: Seq<char>| exists|j: int| 0 <= j < i + 1 && vals.ekey(j) == k,
                    |k: Seq<char>| vals@[k],
                );
                assert forall|k: Seq<char>| #[trigger] next.contains_key(k) == (before.contains_key(k) || k == vals.ekey(i as int)) by {
                    if next.contains_key(k) {
                        let j = choose|j: int| 0 <= j < i + 1 && vals.ekey(j) == k;
                        if j < i {
                            assert(before.contains_key(k));
                        }
                    }
                    if before.contains_key(k) {
                        let j = choose|j: int| 0 <= j < i && vals.ekey(j) == k;
                        assert(0 <= j < i + 1 && vals.ekey(j) == k);
                    }
                    if k == vals.ekey(i as int) {
                        assert(0 <= i < i + 1 && vals.ekey(i as int) == k);
                    }
                }
                assert(m0.global.union_prefer_right(before).insert(vals.ekey(i as int), vals.evalue(i as int))
                    =~= m0.global.union_prefer_right(next));
            }
            i = i + 1;
        }
        proof {
            vals.lemma_entries();
            let all = Map::new(
                |k: Seq<char>| exists|j: int| 0 <= j < vals.size() && vals.ekey(j) == k,
                |k: Seq<char>| vals@[k],
            );
            assert(all =~= vals@);
        }
    }

    /// Writes the initial value of the entity variables of the current
    /// entity: a new entity gets every variable it lacks, an existing one
    /// has those it has reset.
    pub fn copy_variables_entity(
        &mut self,
        state_handle: &mut CastagneStateHandle,
        memory: &mut CastagneMemory,
        new_entity: bool,
    )
        ensures
            final(self)@ == old(self)@,
            final(state_handle)@ == old(state_handle)@,
            final(memory)@ == entity_vars_copied(
                old(memory)@,
                old(state_handle)@.eid,
                old(self)@.entity_init,
                new_entity,
            ),
    {
        copy_entity_values(&self.variables_entity_init, state_handle, memory, new_entity);
    }

    /// Resets the per-frame variables of each entity of `eids`, pointing the
    /// handle at each in turn.
    pub fn reset_variables(
        &mut self,
        state_handle: &mut CastagneStateHandle,
        memory: &mut CastagneMemory,
        eids: &[i32],
    )
        ensures
            final(self)@ == old(self)@,
            (final(state_handle)@, final(memory)@) == reset_all(
                old(state_handle)@,
                old(memory)@,
                old(self)@.entity_reset,
                eids@,
            ),
    {
        let mut i: usize = 0;
        while i < eids.len()
            invariant
                i <= eids.len(),
                self@ == old(self)@,
                (state_handle@, memory@) == reset_all(
                    old(state_handle)@,
                    old(memory)@,
                    self@.entity_reset,
                    eids@.take(i as int),
                ),
            decreases eids.len() - i,
        {
            let eid = eids[i];
            state_handle.point_to_entity(memory, eid);
            copy_entity_values(&self.variables_entity_reset, state_handle, memory, false);
            assert(eids@.take(i as int + 1).drop_last() =~= eids@.take(i as int));
            i = i + 1;
        }
        assert(eids@.take(eids@.len() as int) =~= eids@);
    }

    /// Nothing happens at the start of the action phase.
    pub fn action_phase_start(&mut self, _state_handle: &mut CastagneStateHandle)
        ensures
            final(self)@ == old(self)@,
            final(_state_handle)@ == old(_state_handle)@,
    {
    }

    /// Moves the flags queued for the next frame into the current entity's
    /// flags, and empties the queue.
    pub fn action_phase_start_entity(&mut self, state_handle: &mut CastagneStateHandle, memory: &mut CastagneMemory)
        ensures
            final(self)@ == old(self)@,
            final(state_handle)@ == old(state_handle)@,
            final(memory)@ == flags_advanced(old(memory)@, old(state_handle)@.eid),
    {
        match state_handle.entity_get(memory, "_FlagsNext") {
            Some(MemoryValue::StringArray(flags_next_array)) => {
                match state_handle.entity_get(memory, "_Flags") {
                    Some(MemoryValue::StringArray(flags_array)) => {
                        let ghost f = flags_array.deep_view();
                        let mut flags_array = flags_array;
                        let mut i: usize = 0;
                        while i < flags_next_array.len()
                            invariant
                                i <= flags_next_array.len(),
                                flags_array.deep_view() == f + flags_next_array.deep_view().take(i as int),
                            decreases flags_next_array.len() - i,
                        {
                            assert(flags_next_array.deep_view()[i as int] == flags_next_array@[i as int]@);
                            assert(flags_next_array.deep_view().take(i as int + 1)
                                =~= flags_next_array.deep_view().take(i as int).push(flags_next_array@[i as int]@));
                            let ghost before_dv = flags_array.deep_view();
                            flags_array.push(flags_next_array[i].clone());
                            assert(flags_array.deep_view() =~= before_dv.push(flags_next_array@[i as int]@));
                            assert(flags_array.deep_view() =~= f + flags_next_array.deep_view().take(i as int + 1));
                            i = i + 1;
                        }
                        assert(flags_next_array.deep_view().take(flags_next_array.len() as int)
                            =~= flags_next_array.deep_view());
                        state_handle.entity_set(memory, "_Flags", MemoryValue::StringArray(flags_array));
                    },
                    _ => {},
                }
                let empty: Vec<String> = Vec::new();
                assert(empty.deep_view() =~= Seq::<Seq<char>>::empty());
                state_handle.entity_set(memory, "_FlagsNext", MemoryValue::StringArray(empty));
            },
            _ => {},
        }
    }
}

/// Writes `vals` into the current entity: into a new entity every variable
/// it lacks, into an existing one only the variables it has.
fn copy_entity_values(
    vals: &StrMap<MemoryValue>,
    state_handle: &mut CastagneStateHandle,
    memory: &mut CastagneMemory,
    new_entity: bool,
)
    ensures
        final(state_handle)@ == old(state_handle)@,
        final(memory)@ == entity_vars_copied(old(memory)@, old(state_handle)@.eid, vals@, new_entity),
{
    proof {
        use_type_invariant(vals);
        vals.lemma_entries();
    }
    let ghost m0 = memory@;
    let ghost eid = state_handle@.eid;
    proof {
        let none = Map::new(
            |k: Seq<char>| exists|j: int| 0 <= j < 0 && vals.ekey(j) == k,
            |k: Seq<char>| vals@[k],
        );
        assert(none =~= Map::<Seq<char>, ValueModel>::empty());
        assert(none.union_prefer_right(entity_map(m0, eid)) =~= entity_map(m0, eid));
        assert(overwrite_existing(entity_map(m0, eid), none) =~= entity_map(m0, eid));
        if eid_valid(m0, eid) {
            assert(m0.entities.update(eid as int, Some(entity_map(m0, eid))) =~= m0.entities);
        }
    }
    let mut i: usize = 0;
    while i < vals.len()
        invariant
            i <= vals.size(),
            vals.distinct_keys(),
            state_handle@ == old(state_handle)@,
            eid == state_handle@.eid,
            memory@ == entity_vars_copied(
                m0,
                eid,
                Map::new(
                    |k: Seq<char>| exists|j: int| 0 <= j < i && vals.ekey(j) == k,
                    |k: Seq<char>| vals@[k],
                ),
                new_entity,
            ),
        decreases vals.size() - i,
    {
        proof {
            vals.lemma_entries();
        }
        let key = vals.key_at(i);
        proof {
            assert(vals@.contains_key(vals.ekey(i as int)));
        }
        let ghost cur = entity_map(memory@, eid);
        let ghost before = Map::new(
            |k: Seq<char>| exists|j: int| 0 <= j < i && vals.ekey(j) == k,
            |k: Seq<char>| vals@[k],
        );
        let ghost next = Map::new(
            |k: Seq<char>| exists|j: int| 0 <= j < i + 1 && vals.ekey(j) == k,
            |k: Seq<char>| vals@[k],
        );
        proof {
            assert forall|k: Seq<char>| #[trigger] next.contains_key(k) == (before.contains_key(k) || k == vals.ekey(i as int)) by {
                if next.contains_key(k) {
                    let j = choose|j: int| 0 <= j < i + 1 && vals.ekey(j) == k;
                    if j < i {
                        assert(before.contains_key(k));
                    }
                }
                if before.contains_key(k) {
                    let j = choose|j: int| 0 <= j < i && vals.ekey(j) == k;
                    assert(0 <= j < i + 1 && vals.ekey(j) == k);
                }
                if k == vals.ekey(i as int) {
                    assert(0 <= i < i + 1 && vals.ekey(i as int) == k);
                }
            }
            assert(!before.contains_key(vals.ekey(i as int))) by {
                if before.contains_key(vals.ekey(i as int)) {
                    let j = choose|j: int| 0 <= j < i && vals.ekey(j) == vals.ekey(i as int);
                    assert(j != i);
                }
            }
        }
        if new_entity {
            if !state_handle.entity_has(memory, key.as_str()) {
                memory.entity_set(state_handle.get_entity_id(), key.as_str(), vals.value_at(i).deep_clone(), true);
            }
            proof {
                if eid_valid(m0, eid) {
                    assert(entity_map(memory@, eid) =~= next.union_prefer_right(entity_map(m0, eid)));
                    assert(memory@.entities =~= m0.entities.update(
                        eid as int,
                        Some(next.union_prefer_right(entity_map(m0, eid))),
                    ));
                }
            }
        } else {
            state_handle.entity_set(memory, key.as_str(), vals.value_at(i).deep_clone());
            proof {
                if eid_valid(m0, eid) {
                    assert(entity_map(memory@, eid) =~= overwrite_existing(entity_map(m0, eid), next));
                    assert(memory@.entities =~= m0.entities.update(
                        eid as int,
                        Some(overwrite_existing(entity_map(m0, eid), next)),
                    ));
                }
            }
        }
        i = i + 1;
    }
    proof {
        vals.lemma_entries();
        let all = Map::new(
            |k: Seq<char>| exists|j: int| 0 <= j < vals.size() && vals.ekey(j) == k,
            |k: Seq<char>| vals@[k],
        );
        assert(all =~= vals@);
    }
}

} // verus!
