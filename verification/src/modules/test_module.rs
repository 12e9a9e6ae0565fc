//! A simple example module.

use vstd::prelude::*;
use crate::memory::{global_written, CastagneMemory, MemoryValue, ValueModel};
use crate::text::copy_str;

verus! {

/// A simple test module.
pub struct TestModule {
    name: String,
}

impl TestModule {
    /// The test module, named `TestModule`.
    pub fn new() -> (r: Self)
        ensures
            r.name() == "TestModule"@,
    {
        TestModule { name: copy_str("TestModule") }
    }

    /// The module's name.
    pub closed spec fn name(&self) -> Seq<char> {
        self.name@
    }

    /// The module's name.
    pub fn module_name(&self) -> (r: &str)
        ensures
            r@ == self.name(),
    {
        self.name.as_str()
    }

    /// At the start of a battle, sets the global `TestVariable` to 42.
    pub fn battle_init(&mut self, memory: &mut CastagneMemory)
        ensures
            final(self).name() == old(self).name(),
            final(memory)@ == global_written(old(memory)@, "TestVariable"@, ValueModel::Int(42i64), true),
    {
        memory.global_set("TestVariable", MemoryValue::Int(42), true);
    }
}

} // verus!
