//! CastagneConfig - configuration data and the registry of modules.
//!
//! The configuration maps keys to values. Modules are registered in order;
//! a module that fills a slot (Core, Physics...) can be found by that slot.
//! The modules themselves are kept by the engine, in the same order.

use vstd::prelude::*;
use crate::memory::{lookup, stored, MemoryValue, ValueMap, ValueModel};
use crate::str_map::{DeepClone, StrMap};

verus! {

/// Configuration data for the engine.
#[derive(Debug)]
pub struct CastagneConfig {
    config_data: StrMap<MemoryValue>,
    default_config_data: StrMap<MemoryValue>,
    module_count: usize,
    /// Slot name -> module index.
    module_slots: StrMap<usize>,
}

/// A configuration, as plain values.
pub struct ConfigModel {
    pub data: ValueMap,
    pub defaults: ValueMap,
    pub module_count: usize,
    pub slots: Map<Seq<char>, usize>,
}

impl View for CastagneConfig {
    type V = ConfigModel;

    closed spec fn view(&self) -> ConfigModel {
        ConfigModel {
            data: self.config_data@,
            defaults: self.default_config_data@,
            module_count: self.module_count,
            slots: self.module_slots@,
        }
    }
}

/// Every slot names a registered module.
pub open spec fn slots_valid(c: ConfigModel) -> bool {
    forall|s: Seq<char>| #[trigger] c.slots.contains_key(s) ==> c.slots[s] < c.module_count
}

impl CastagneConfig {
    /// Every slot holds the index of a registered module.
    #[verifier::type_invariant]
    spec fn slots_registered(self) -> bool {
        forall|s: Seq<char>| #[trigger] self.module_slots@.contains_key(s) ==> self.module_slots@[s]
            < self.module_count
    }
}

/// `c` with new configuration data.
pub open spec fn with_data(c: ConfigModel, data: ValueMap) -> ConfigModel {
    ConfigModel { data, defaults: c.defaults, module_count: c.module_count, slots: c.slots }
}

impl CastagneConfig {
    /// An empty configuration with no module.
    pub fn new() -> (r: Self)
        ensures
            r@ == (ConfigModel {
                data: Map::empty(),
                defaults: Map::empty(),
                module_count: 0,
                slots: Map::empty(),
            }),
            slots_valid(r@),
    {
        CastagneConfig {
            config_data: StrMap::new(),
            default_config_data: StrMap::new(),
            module_count: 0,
            module_slots: StrMap::new(),
        }
    }

    /// The value of `key`, if it is set.
    pub fn get(&self, key: &str) -> (r: Option<MemoryValue>)
        ensures
            r.deep_view() == lookup(self@.data, key@),
    {
        match self.config_data.get(key) {
            Some(v) => Some(v.deep_clone()),
            None => None,
        }
    }

    /// The value of `key`, or `default` when it is not set.
    pub fn get_or(&self, key: &str, default: MemoryValue) -> (r: MemoryValue)
        ensures
            r.deep_view() == match lookup(self@.data, key@) {
                Some(v) => v,
                None => default.deep_view(),
            },
    {
        match self.config_data.get(key) {
            Some(v) => v.deep_clone(),
            None => default,
        }
    }

    /// Sets `key`; unless `new_value`, only a key that is set already.
    pub fn set(&mut self, key: &str, value: MemoryValue, new_value: bool)
        ensures
            final(self)@ == with_data(old(self)@, stored(old(self)@.data, key@, value.deep_view(), new_value)),
            slots_valid(final(self)@),
    {
        proof {
            use_type_invariant(&*self);
        }
        if new_value || self.config_data.contains_key(key) {
            let mut data = StrMap::new();
            std::mem::swap(&mut data, &mut self.config_data);
            data.insert(key.to_owned(), value);
            std::mem::swap(&mut data, &mut self.config_data);
        }
    }

    /// Whether `key` is set.
    pub fn has(&self, key: &str) -> (r: bool)
        ensures
            r == self@.data.contains_key(key@),
    {
        self.config_data.contains_key(key)
    }

    /// Every key that is set, once each, in no particular order.
    pub fn get_config_keys(&self) -> (r: Vec<String>)
        ensures
            r.deep_view().no_duplicates(),
            r.deep_view().to_set() == self@.data.dom(),
    {
        proof {
            use_type_invariant(&self.config_data);
            self.config_data.lemma_entries();
        }
        let r = self.config_data.keys();
        proof {
            let d = r.deep_view();
            let m = &self.config_data;
            assert forall|i: int, j: int| 0 <= i < d.len() && 0 <= j < d.len() && i != j implies d[i] != d[j] by {
                assert(d[i] == m.ekey(i) && d[j] == m.ekey(j));
            }
            assert forall|k: Seq<char>| d.to_set().contains(k) <==> m@.dom().contains(k) by {
                if d.to_set().contains(k) {
                    let i = choose|i: int| 0 <= i < d.len() && d[i] == k;
                    assert(m@.contains_key(m.ekey(i)));
                }
                if m@.dom().contains(k) {
                    let i = choose|i: int| 0 <= i < m.size() && m.ekey(i) == k;
                    assert(d[i] == k);
                    assert(d.contains(k));
                }
            }
            assert(d.to_set() =~= m@.dom());
        }
        r
    }

    /// Registers the next module, filling `module_slot` when it names one,
    /// and returns its index.
    pub fn register_module(&mut self, module_slot: Option<&str>) -> (r: usize)
        requires
            old(self)@.module_count < usize::MAX,
        ensures
            r == old(self)@.module_count,
            final(self)@ == (ConfigModel {
                data: old(self)@.data,
                defaults: old(self)@.defaults,
                module_count: (old(self)@.module_count + 1) as usize,
                slots: match module_slot {
                    Some(s) => old(self)@.slots.insert(s@, r),
                    None => old(self)@.slots,
                },
            }),
            slots_valid(final(self)@),
    {
        proof {
            use_type_invariant(&*self);
        }
        let module_index = self.module_count;
        let mut slots = StrMap::new();
        std::mem::swap(&mut slots, &mut self.module_slots);
        self.module_count = self.module_count + 1;
        match module_slot {
            Some(slot) => {
                slots.insert(slot.to_owned(), module_index);
            },
            None => {},
        }
        std::mem::swap(&mut slots, &mut self.module_slots);
        module_index
    }

    /// The number of registered modules.
    pub fn module_count(&self) -> (r: usize)
        ensures
            r == self@.module_count,
    {
        self.module_count
    }

    /// The index of the module that fills `slot`, if any.
    pub fn get_module_slot(&self, slot: &str) -> (r: Option<usize>)
        ensures
            r == (if self@.slots.contains_key(slot@) {
                Some(self@.slots[slot@])
            } else {
                None
            }),
            slots_valid(self@),
    {
        proof {
            use_type_invariant(self);
        }
        match self.module_slots.get(slot) {
            Some(idx) => Some(*idx),
            None => None,
        }
    }

    /// Loading configuration files is not supported: nothing is loaded.
    pub fn load_from_config_file(&mut self, _path: &str) -> (r: Result<(), String>)
        ensures
            r is Ok,
            final(self)@ == old(self)@,
    {
        Ok(())
    }

    /// Saving configuration files is not supported: nothing is saved.
    pub fn save_config_file(&self, _path: &str) -> (r: Result<(), String>)
        ensures
            r is Ok,
    {
        Ok(())
    }
}

impl Default for CastagneConfig {
    fn default() -> (r: Self)
        ensures
            r@ == (ConfigModel {
                data: Map::empty(),
                defaults: Map::empty(),
                module_count: 0,
                slots: Map::empty(),
            }),
    {
        Self::new()
    }
}

} // verus!
