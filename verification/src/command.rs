//! The commands that the log records.

use vstd::prelude::*;

verus! {

/// One logical command of the store, as it is written to the log.
#[derive(Debug, PartialEq, Eq)]
pub enum Command {
    /// Binds `key` to `value` from this record forward. In the log its
    /// document is named `Set`.
    Put { key: String, value: String },
    /// Unbinds `key` from this record forward.
    Rm { key: String },
}

/// A command as a mathematical value: its strings as sequences of characters.
pub enum Record {
    /// Binds `key` to `value`.
    Put { key: Seq<char>, value: Seq<char> },
    /// Unbinds `key`.
    Rm { key: Seq<char> },
}

impl Record {
    /// The key that the command is about.
    pub open spec fn key(self) -> Seq<char> {
        match self {
            Record::Put { key, .. } => key,
            Record::Rm { key } => key,
        }
    }
}

impl View for Command {
    type V = Record;

    open spec fn view(&self) -> Record {
        match self {
            Command::Put { key, value } => Record::Put { key: key@, value: value@ },
            Command::Rm { key } => Record::Rm { key: key@ },
        }
    }
}

impl Clone for Command {
    fn clone(&self) -> (copy: Command)
        ensures
            copy@ == self@,
    {
        match self {
            Command::Put { key, value } => Command::Put { key: key.clone(), value: value.clone() },
            Command::Rm { key } => Command::Rm { key: key.clone() },
        }
    }
}

impl Command {
    /// The key that the command is about.
    pub fn key(&self) -> (k: &String)
        ensures
            k@ == self@.key(),
    {
        match self {
            Command::Put { key, .. } => key,
            Command::Rm { key } => key,
        }
    }
}

/// Whether two commands say the same.
pub fn same_command(a: &Command, b: &Command) -> (same: bool)
    ensures
        same == (a@ == b@),
{
    match (a, b) {
        (Command::Put { key: k1, value: v1 }, Command::Put { key: k2, value: v2 }) => {
            *k1 == *k2 && *v1 == *v2
        },
        (Command::Rm { key: k1 }, Command::Rm { key: k2 }) => *k1 == *k2,
        _ => false,
    }
}

} // verus!
