//! Typed failures of compilation. The first error always wins: compilation
//! aborts on it and never returns a partial specification.

use crate::coords::{Kind, Pos, Suffix};
use crate::lookup::{Collision, CollisionModel};
use vstd::prelude::*;

verus! {

/// Failure converting one declared suffix row. No such failure exists today;
/// the type keeps the wrapping variant of `ItemError` honest.
#[derive(Debug, PartialEq)]
pub enum SuffixRowError {
    InvalidValue,
}

/// Failure converting one declared kind or position.
#[derive(Debug, PartialEq)]
pub enum ItemError {
    InvalidId(u32),
    SuffixesAndRangeDefined,
    InvalidSuffixRange(i32, i32),
    InvalidSuffixRow(SuffixRowError),
    InvalidSuffixTable(Collision<Suffix>),
}

/// Mathematical form of an `ItemError`; contracts speak of this form.
pub ghost enum ItemErrorModel {
    InvalidId(u32),
    SuffixesAndRangeDefined,
    InvalidSuffixRange(i32, i32),
    InvalidSuffixRow,
    InvalidSuffixTable(CollisionModel<Suffix>),
}

impl ItemError {
    /// The error as its mathematical form.
    pub open spec fn model(self) -> ItemErrorModel {
        match self {
            ItemError::InvalidId(v) => ItemErrorModel::InvalidId(v),
            ItemError::SuffixesAndRangeDefined => ItemErrorModel::SuffixesAndRangeDefined,
            ItemError::InvalidSuffixRange(lo, hi) => ItemErrorModel::InvalidSuffixRange(lo, hi),
            ItemError::InvalidSuffixRow(_) => ItemErrorModel::InvalidSuffixRow,
            ItemError::InvalidSuffixTable(c) => ItemErrorModel::InvalidSuffixTable(c.model()),
        }
    }
}

/// Failure compiling a whole declaration.
#[derive(Debug, PartialEq)]
pub enum Error {
    InvalidNumPlayers(u32),
    InvalidPos(ItemError),
    InvalidPosTable(Collision<Pos>),
    InvalidKind(ItemError),
    InvalidKindTable(Collision<Kind>),
}

/// Mathematical form of an `Error`; contracts speak of this form.
pub ghost enum ErrorModel {
    InvalidNumPlayers(u32),
    InvalidPos(ItemErrorModel),
    InvalidPosTable(CollisionModel<Pos>),
    InvalidKind(ItemErrorModel),
    InvalidKindTable(CollisionModel<Kind>),
}

impl Error {
    /// The error as its mathematical form.
    pub open spec fn model(self) -> ErrorModel {
        match self {
            Error::InvalidNumPlayers(v) => ErrorModel::InvalidNumPlayers(v),
            Error::InvalidPos(e) => ErrorModel::InvalidPos(e.model()),
            Error::InvalidPosTable(c) => ErrorModel::InvalidPosTable(c.model()),
            Error::InvalidKind(e) => ErrorModel::InvalidKind(e.model()),
            Error::InvalidKindTable(c) => ErrorModel::InvalidKindTable(c.model()),
        }
    }
}

} // verus!
