//! Identifiers for players, depots and collector units.

use vstd::prelude::*;

verus! {

#[derive(PartialEq, Eq, Structural, Clone, Copy, Debug, Hash)]
pub struct PlayerId(pub usize);

#[derive(PartialEq, Eq, Structural, Clone, Copy, Debug, Hash)]
pub struct DropoffId(pub usize);

#[derive(PartialEq, Eq, Structural, Clone, Copy, Debug, Hash)]
pub struct ShipId(pub usize);

} // verus!
