//! Deterministic simulation core of a grid-based mechanical-puzzle game.
//!
//! A sparse [`grid::Grid`] places "gadgets" — small finite-state automata
//! exposing ports on their boundary — on integer coordinates with rectangular
//! footprints. A [`gadget::Gadget`] instantiates an immutable
//! [`gadget::GadgetDef`] transition table in space, and an agent token walks
//! from gadget to gadget, taking transitions whenever it crosses a port.

pub mod agent;
pub mod gadget;
pub mod grid;
pub mod math;
pub mod persist;
pub mod preset_gadgets;
pub mod ui;
