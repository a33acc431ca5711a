//! The verified core of a bevy and luau integration layer: component layouts and field
//! encodings for components declared from scripts, string interning shared with the
//! scripts, query plans and their write-back, the bookkeeping of what scripts declare,
//! and the decisions of the engine-facing systems.

pub mod layout;
pub mod types;
pub mod pool;
pub mod fields;
pub mod schema;
pub mod query;
pub mod runtime;
pub mod systems;
pub mod commands;
pub mod native;
pub mod bridge;
pub mod loading;
