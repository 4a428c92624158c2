//! The failure taxonomy of the persistence core.

use vstd::prelude::*;

verus! {

/// Everything that can go wrong in this crate.
///
/// The first, second and fourth variants are fatal to process start-up; a
/// constraint violation is local to the store call that caused it.
#[derive(Clone, Copy, Debug, PartialEq, Eq, Structural)]
pub enum Error {
    /// The record at `position` of a would-be registry does not carry a
    /// version strictly above its predecessor's (or above zero, for the
    /// first record).
    RegistryInconsistency { position: usize },
    /// The payload of the record at `position`, carrying `version`, failed
    /// to execute; its transaction was rolled back.
    MigrationExecutionFailure { position: usize, version: i64 },
    /// A store call would have broken a key or reference rule.
    ConstraintViolation,
    /// The database file could not be opened.
    ConnectionFailure,
}

impl Error {
    /// Whether the process must give up starting after this error.
    pub open spec fn is_fatal(self) -> bool {
        !(self is ConstraintViolation)
    }

    /// Tells the recoverable errors from those that end start-up.
    pub fn fatal(&self) -> (fatal: bool)
        ensures
            fatal == self.is_fatal(),
    {
        match self {
            Error::ConstraintViolation => false,
            _ => true,
        }
    }
}

} // verus!
