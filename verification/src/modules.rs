//! Modules that come with the engine.

pub mod core_module;
pub mod test_module;
