//! Checks of how values are owned, moved and referred to.

pub mod affine;
pub mod alias_laws;
pub mod binding_laws;
pub mod capture_laws;
pub mod checker;
pub mod copy_laws;
pub mod destruction_laws;
pub mod drop_calls;
pub mod drop_elaboration;
pub mod drop_impls;
pub mod drop_laws;
pub mod drop_synthesis;
pub mod escape_laws;
pub mod flow_laws;
pub mod free_variables;
pub mod impl_laws;
pub mod moves;
pub mod origin_laws;
pub mod origins;
pub mod record_laws;
pub mod scope_laws;
pub mod use_laws;
