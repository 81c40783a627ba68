//! Tools for looking into a running simulation.

pub mod colorer;
pub mod floodfill;
pub mod objects;
