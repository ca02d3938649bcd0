//! What the operations of the store report: what they did to the log, and
//! why they failed.

use vstd::prelude::*;

verus! {

/// What an operation that succeeded has done to the log. Whoever keeps the
/// log in a file does the same to the file.
#[derive(Debug, Clone, Copy, PartialEq, Eq, Structural)]
pub enum LogChange {
    /// One record was appended and the bytes before it are as they were. The
    /// record starts at `from`, the former length of the log.
    Appended { from: usize },
    /// The log was compacted: it is another log of the same contents.
    Replaced,
}

/// Why an operation of the store did not succeed.
#[derive(Debug, Clone, Copy, PartialEq, Eq, Structural)]
pub enum KvError {
    /// The key to remove is not bound.
    KeyNotFound,
    /// A command could not be written as a record that reads back as itself.
    Codec,
}

impl KvError {
    /// The error in words.
    pub fn message(&self) -> (text: String)
        ensures
            text@ == match *self {
                KvError::KeyNotFound => "Key not found"@,
                KvError::Codec => "Record cannot be encoded"@,
            },
    {
        match self {
            KvError::KeyNotFound => "Key not found".to_owned(),
            KvError::Codec => "Record cannot be encoded".to_owned(),
        }
    }
}

} // verus!
