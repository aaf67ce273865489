//! A behavior-tree execution engine with a generational node arena, plus a
//! small undo/redo command stack.
//!
//! The tree stores its nodes in an arena ([`pool::Pool`]) and addresses them
//! through copyable, generation-checked handles ([`pool::Handle`]). Composite
//! nodes aggregate their children under Sequence (short-circuit AND) or
//! Selector (short-circuit OR) semantics; leaf nodes delegate to user-supplied
//! behaviors. Every evaluation step is specified by the spec-level
//! interpreter in [`behavior`] and proved against it.

pub mod behavior;
pub mod command;
pub mod laws;
pub mod pool;
