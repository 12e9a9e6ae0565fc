//! Data that modules declare: their variables and their script functions.

use vstd::prelude::*;
use crate::memory::MemoryValue;

verus! {

/// A variable that a module stores in memory.
#[derive(Debug, Clone)]
pub struct ModuleVariable {
    pub name: String,
    pub default_value: MemoryValue,
    pub flags: Vec<String>,
    pub reset_each_frame: bool,
}

/// A function that a module offers to character scripts.
#[derive(Debug, Clone)]
pub struct ModuleFunction {
    pub name: String,
    /// The numbers of arguments the function accepts.
    pub arg_count: Vec<usize>,
    pub description: String,
}

} // verus!
