use vstd::prelude::*;

verus! {

/// The error half of the uniform response envelope: a store that cannot be
/// reached is told apart from a request that is malformed.
#[derive(Debug, Clone, Copy, PartialEq, Eq, Structural)]
pub enum Error {
    DatabasePoisonedError(i32),
    DatabaseInvalidAmountError(i32),
}

impl Error {
    /// The same variant, carrying its canonical wire code.
    pub fn new(&self) -> (r: Self)
        ensures
            r == (match self {
                Error::DatabasePoisonedError(_) => Error::DatabasePoisonedError(0),
                Error::DatabaseInvalidAmountError(_) => Error::DatabaseInvalidAmountError(1),
            }),
    {
        match self {
            Error::DatabasePoisonedError(_) => Error::DatabasePoisonedError(0),
            Error::DatabaseInvalidAmountError(_) => Error::DatabaseInvalidAmountError(1),
        }
    }
}

/// The success half of the uniform response envelope.
#[derive(Debug, Clone, Copy, PartialEq, Eq, Structural)]
pub enum Success {
    DatabaseCleaningSuccess(),
    DatabaseClearingSuccess(),
}

} // verus!
