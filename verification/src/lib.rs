//! Verified parser and game-state logic for Castagne character files.

pub mod text;
pub mod syntax;
pub mod numbers;
pub mod str_map;
pub mod model;
pub mod lines;
pub mod parser;
pub mod input;
pub mod memory;
pub mod state_handle;
pub mod modules;
pub mod engine;
pub mod module;
pub mod config;
pub mod global;
pub mod net;
pub mod json;
pub mod values;
