//! A verified simulator for digital logic circuits built from voxels on a
//! three-dimensional integer grid.

pub mod components;
pub mod grid;
pub mod gates;
pub mod propagation;
pub mod simulation;
pub mod scheduler;
pub mod selector;
pub mod save;
pub mod interaction;
