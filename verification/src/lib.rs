//! Conway's Game of Life on a fixed-size, non-wrapping board.
//!
//! The `rules` module holds the mathematical description of the automaton:
//! neighbor counts, the birth/survival rule, and the text rendering, all over
//! plain boolean grids. The `grid` module is the canonical dense board; the
//! `sparse` module is an alternative board kept as an explicit cell list whose
//! coordinate domain omits a border ring.

pub mod grid;
pub mod rules;
pub mod seed;
pub mod sparse;
