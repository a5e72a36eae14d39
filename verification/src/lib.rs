pub mod cli;
pub mod clock;
pub mod common;
pub mod config;
pub mod frame;
pub mod in_memory_store;
pub mod json;
pub mod state;
pub mod watson;
