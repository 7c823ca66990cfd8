//! Typed, globally unique identifiers for every entity kind.
//!
//! Each identifier wraps a 128-bit value drawn at random, so identifiers of
//! different kinds cannot be confused at compile time and are never derived
//! from an entity's position in a collection.

use vstd::prelude::*;

verus! {

/// Identifier of a source file.
#[derive(Clone, Copy, PartialEq, Eq, Structural, Hash, Debug)]
pub struct FileId(pub u128);

/// Identifier of one text block within a file's content.
#[derive(Clone, Copy, PartialEq, Eq, Structural, Hash, Debug)]
pub struct BlockId(pub u128);

/// Identifier of a code definition.
#[derive(Clone, Copy, PartialEq, Eq, Structural, Hash, Debug)]
pub struct CodeDefId(pub u128);

/// Identifier of an applied (qualitative) code.
#[derive(Clone, Copy, PartialEq, Eq, Structural, Hash, Debug)]
pub struct QualCodeId(pub u128);

/// Identifier of a theme.
#[derive(Clone, Copy, PartialEq, Eq, Structural, Hash, Debug)]
pub struct ThemeId(pub u128);

/// Relies on `uuid::Uuid::new_v4`, which draws a fresh version-4 UUID from
/// the operating system's random source, and on `Uuid::as_u128`, which
/// returns its 128-bit value.  The result is random, so nothing is promised
/// of it.
#[verifier::external_body]
pub(crate) fn fresh_id_value() -> u128 {
    uuid::Uuid::new_v4().as_u128()
}

} // verus!
