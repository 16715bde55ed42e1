//! An interpreter for Befreak, a reversible two-dimensional stack language.
//!
//! Every instruction has an exact inverse, so the engine can run a program
//! forward to its halt and then back to its start without keeping a history.
//!
//! - `direction`: compass headings and moves on the toroidal grid.
//! - `grid`: the program grid, held in an `array2d::Array2D`.
//! - `semantics`: the meaning of each instruction and step, over a plain
//!   model of the machine.
//! - `befreak`: the executable machine, proved against `semantics`.
//! - `program`: loading program text and writing the grid back out.
//! - `laws`: inverse pairs, self-inverse opcodes, atomic failure, literals.
//! - `round_trip`: a halting program run backward returns to its start.

pub mod direction;
pub mod grid;
pub mod semantics;
pub mod befreak;
pub mod program;
pub mod laws;
pub mod round_trip;
