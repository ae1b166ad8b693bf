//! Rewriting systems (L-systems) and a turtle interpreter for the symbol
//! strings they generate.

pub mod utility;
pub mod draws;
pub mod grammar;
pub mod lsystem;
pub mod config;
pub mod math;
pub mod turtle;
pub mod viewer;
