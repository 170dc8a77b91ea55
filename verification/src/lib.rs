//! Tick-by-tick action sequences for one controlled actor on an integer tile
//! grid, and their deterministic replay.
//!
//! - [`geometry`]: tiles, displacements and actor identifiers.
//! - [`movement`]: the per-tick movement resolver and the movement passes.
//! - [`attack`]: the gap between two footprints, the in-range test, the tile
//!   an attacker walks to, and the passes of range checks.
//! - [`world`]: the actors, who attacks whom, and the lists of attackers that
//!   are kept up to date with the targets.
//! - [`player`], [`npc`]: the two kinds of actors and what is done to them.
//! - [`schedule`]: the order of the steps of one tick.
//! - [`sequence`]: the recorded actions, one slot per tick, and the pruning
//!   of moves that have become redundant.
//! - [`editor`]: the state machine that replays the sequence up to the tick
//!   the editor wants to look at.
//! - [`replay`]: why a replay can be repeated.
//! - [`reach`]: when no tick of a replay fails.
//! - [`grid`], [`state`]: the laid-out part of the grid and the modes of the
//!   tool.
//!
//! The random bits that fleeing attackers use come from a seeded generator
//! of the `rand` crate. They are drawn once for each tick, when its slot is
//! made, and recorded with it, so that a replay meets them again.

pub mod attack;
pub mod editor;
pub mod geometry;
pub mod grid;
pub mod movement;
pub mod npc;
pub mod player;
pub mod reach;
mod random;
pub mod replay;
pub mod schedule;
pub mod sequence;
pub mod state;
pub mod world;
