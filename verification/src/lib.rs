//! Verified core of the LalaLM local model manager.
use vstd::prelude::*;

pub mod text;
pub mod unicode;
pub mod gguf;
pub mod sort;
pub mod hub;
pub mod config;
pub mod proxy;
pub mod listing;
pub mod downloads;
pub mod registry;
pub mod gpu;
pub mod commands;
pub mod engine;

verus! {
} // verus!
