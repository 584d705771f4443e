//! What the definitions of a source file can see.

pub mod visible_implicits;
