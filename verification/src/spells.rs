//! Types of the spell-language subsystem. The language itself is
//! handled elsewhere; the turn engine only ever carries a spell's name
//! through a pending cast.

use vstd::prelude::*;

verus! {

/// A scalar value the spell language can manipulate.
#[derive(PartialEq, Eq, Structural, Clone, Copy, Debug)]
pub enum WizardScalarType {
    Integer(u32),
    Char(u32),
    Bool(bool),
}

/// A field of a spell form: a scalar, or a homogeneous collection of
/// scalars with its length.
#[derive(PartialEq, Eq, Structural, Clone, Copy, Debug)]
pub enum WizardFieldType {
    Scalar(WizardScalarType),
    List(u16, WizardScalarType),
    Tuple(u8, WizardScalarType),
}

/// A spell the players can select, by name, with its description.
#[derive(PartialEq, Debug)]
pub struct AvailableSpell {
    pub name: String,
    pub desc: String,
}

} // verus!
