//! Hooks: their types, what a handler receives, and what it answers.

pub mod adapter;
pub mod payload;
pub mod result;
pub mod trait_def;
