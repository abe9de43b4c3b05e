//! A configuration-driven finite-state-machine engine.
//!
//! A machine specification (states, transitions, validation rules and actions)
//! is decoded from JSON text, checked for referential integrity and compiled
//! into an immutable transition table. A [`StateMachine`] binds such a table to
//! a current state, a key/value memory and a user context, and applies
//! event-triggered transitions: every validation runs before anything is
//! mutated, and the actions run in the order exit, transition, enter.
use vstd::prelude::*;

pub mod cache;
pub mod config;
pub mod decode;
pub mod json;
pub mod laws;
pub mod machine;
pub mod memory;
pub mod model;
pub mod parse;
pub mod table;
pub mod validation;

pub use cache::{get_cache_size, SpecCache, DEFAULT_CACHE_SIZE};
pub use config::{ConfigError, MachineConfig, StateConfig, TransitionConfig};
pub use json::{JsonNumber, JsonType, JsonValue};
pub use machine::{ActionHandler, StateMachine, TransitionPlan, TriggerError};
pub use memory::Memory;
pub use model::{Action, Condition, FieldRule, ValidationError, ValidationRule};
pub use table::CompiledSpec;
