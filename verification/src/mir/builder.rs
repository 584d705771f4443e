//! Lowers an item.

pub mod calls;
pub mod counted;
pub mod evidence;
pub mod expressions;
pub mod ids;
pub mod items;
pub mod lambdas;
pub mod laws;
pub mod matches;
pub mod patterns;
pub mod places;
pub mod state;
pub mod steps;
pub mod variables;
