//! Tools for setting up what a simulation is to run.

pub mod scenario;
