//! Identifiers of the entities the passes talk about.

use crate::collections::Key;
use vstd::prelude::*;

verus! {

/// A name bound somewhere in an item.
pub type NameId = u32;

/// An expression of an item.
pub type ExprId = u32;

/// A path of an item.
pub type PathId = u32;

/// A pattern of an item.
pub type PatternId = u32;

/// A type variable of the inference.
pub type TypeVariableId = u32;

/// A definition of the lowered program.
pub type DefinitionId = u32;

/// An instruction of a lowered definition.
pub type InstructionId = u32;

/// A block of a lowered definition.
pub type BlockId = u32;

/// The block a lowered definition starts in.
pub const ENTRY_BLOCK: u32 = 0;

/// The name a shared type's release function goes by in the type's item.
pub const RELEASE_FUNCTION: u32 = 0xffff_ffff;

/// The name a shared type's drop impl goes by in the type's item.
pub const DROP_IMPL: u32 = 0xffff_fffe;

/// The source file of the prelude.
pub const PRELUDE: u32 = 0;

/// How deep a walk follows its own recursion. No value that fits in memory nests this deep.
pub const NESTING_LIMIT: u64 = 0xffff_ffff_ffff_ffff;

/// A stretch of a source file.
#[derive(Clone, Copy, Debug, PartialEq, Eq, Structural)]
pub struct Location {
    pub file: u32,
    pub start: u32,
    pub end: u32,
}

impl DeepView for Location {
    type V = Location;

    open spec fn deep_view(&self) -> Location {
        *self
    }
}

/// A top-level item.
#[derive(Clone, Copy, Debug, PartialEq, Eq, Structural)]
pub struct TopLevelId {
    pub source_file: u32,
    pub index: u32,
}

/// A name of a top-level item.
#[derive(Clone, Copy, Debug, PartialEq, Eq, Structural)]
pub struct TopLevelName {
    pub top_level_item: TopLevelId,
    pub local_name_id: NameId,
}

/// What a path or a name resolved to.
#[derive(Clone, Copy, Debug, PartialEq, Eq, Structural)]
pub enum Origin {
    TopLevelDefinition(TopLevelName),
    Local(NameId),
    TypeResolution,
    Builtin(u32),
}

impl TopLevelName {
    pub fn new(top_level_item: TopLevelId, local_name_id: NameId) -> (name: TopLevelName)
        ensures
            name == (TopLevelName { top_level_item, local_name_id }),
    {
        TopLevelName { top_level_item, local_name_id }
    }
}

impl Key for TopLevelId {
    fn same(&self, other: &Self) -> (equal: bool) {
        *self == *other
    }
}

impl Key for Origin {
    fn same(&self, other: &Self) -> (equal: bool) {
        *self == *other
    }
}

impl Key for TopLevelName {
    fn same(&self, other: &Self) -> (equal: bool) {
        *self == *other
    }
}

} // verus!
