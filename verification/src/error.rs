use vstd::prelude::*;

verus! {

/// Where an error comes from: input data that is not valid, or the prefix store.
#[derive(Clone, Copy, Debug, PartialEq, Eq, Structural)]
pub enum ErrorKind {
    InvalidData,
    Store,
}

/// An error while loading data: where it comes from and what was wrong, in words.
#[derive(Debug)]
pub struct DataError {
    pub kind: ErrorKind,
    pub message: String,
}

impl DataError {
    /// The message of the error.
    pub fn to_string(&self) -> (s: String)
        ensures
            s@ == self.message@,
    {
        self.message.clone()
    }
}

/// An error that says the input data is invalid, with the given message.
pub fn invalid_data_error(message: String) -> (e: DataError)
    ensures
        e.kind == ErrorKind::InvalidData,
        e.message@ == message@,
{
    DataError { kind: ErrorKind::InvalidData, message }
}

/// An error that the prefix store reported, with the given message.
pub fn store_error(message: String) -> (e: DataError)
    ensures
        e.kind == ErrorKind::Store,
        e.message@ == message@,
{
    DataError { kind: ErrorKind::Store, message }
}

} // verus!
