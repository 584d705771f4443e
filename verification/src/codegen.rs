//! Emission of the target program.

pub mod cfile;
