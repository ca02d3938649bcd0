//! Records: the commands in the log, each in its frame.

use vstd::prelude::*;
use vstd::slice::slice_subrange;
use crate::codec::{decode, decoded, encode, encoded};
use crate::command::{same_command, Command, Record};
use crate::frame::{
    frame_len, is_frame, lemma_frame_appended, lemma_frame_cut, lemma_frame_extended,
    read_frame_len,
};

verus! {

/// The record that starts at `at`, with the length of its frame: there is a
/// frame at `at`, and its bytes decode as a command.
pub open spec fn record_at(log: Seq<u8>, at: int) -> Option<(Record, int)> {
    match frame_len(log, at) {
        Some(n) => match decoded(log.subrange(at, at + n)) {
            Some(c) => Some((c, n)),
            None => None,
        },
        None => None,
    }
}

/// The bytes that the log takes for a command: its encoding, where that
/// decodes as the same command again. `None` where the command cannot be
/// encoded or its encoding would not read back.
pub open spec fn record_bytes(c: Record) -> Option<Seq<u8>> {
    match encoded(c) {
        Some(bytes) => if decoded(bytes) == Some(c) {
            Some(bytes)
        } else {
            None
        },
        None => None,
    }
}

/// A record keeps its place and its meaning when the log grows behind it.
pub proof fn lemma_record_at_extended(log: Seq<u8>, tail: Seq<u8>, at: int)
    requires
        record_at(log, at) is Some,
    ensures
        record_at(log + tail, at) == record_at(log, at),
{
    lemma_frame_extended(log, tail, at);
}

/// The bytes of a command are one frame of at least the shortest length,
/// and appended to a log they are a record of that command at the old end of
/// the log.
pub proof fn lemma_record_at_appended(log: Seq<u8>, c: Record, bytes: Seq<u8>)
    requires
        record_bytes(c) == Some(bytes),
    ensures
        is_frame(bytes),
        bytes.len() >= 5,
        record_at(log + bytes, log.len() as int) == Some((c, bytes.len() as int)),
{
    lemma_frame_appended(log, bytes);
}

/// No record starts where fewer than four bytes are left.
pub proof fn lemma_no_record_near_end(log: Seq<u8>, at: int)
    requires
        at + 4 > log.len(),
    ensures
        record_at(log, at) is None,
{
}

/// A frame cut short, appended to a log, is no record at the old end of the
/// log.
pub proof fn lemma_no_record_at_cut(log: Seq<u8>, frame: Seq<u8>, keep: int)
    requires
        is_frame(frame),
        0 <= keep < frame.len(),
    ensures
        record_at(log + frame.subrange(0, keep), log.len() as int) is None,
{
    lemma_frame_cut(log, frame, keep);
}

/// Reads the record that starts at `at`, and the length of its frame.
pub fn read_record(log: &[u8], at: usize) -> (r: Option<(Command, usize)>)
    ensures
        match r {
            Some((cmd, n)) => record_at(log@, at as int) == Some((cmd@, n as int)),
            None => record_at(log@, at as int) is None,
        },
{
    let len = log.len();
    match read_frame_len(log, at) {
        Some(n) => {
            assert(at + n <= len);
            match decode(slice_subrange(log, at, at + n)) {
                Some(cmd) => Some((cmd, n)),
                None => None,
            }
        },
        None => None,
    }
}

/// Encodes a command for the log, and reads the bytes back before they are
/// trusted: they are handed out only if they decode as the same command.
pub fn encode_record(cmd: &Command) -> (r: Option<Vec<u8>>)
    ensures
        match r {
            Some(bytes) => record_bytes(cmd@) == Some(bytes@),
            None => record_bytes(cmd@) is None,
        },
{
    let bytes = match encode(cmd) {
        Some(bytes) => bytes,
        None => {
            return None;
        },
    };
    match decode(bytes.as_slice()) {
        Some(back) => {
            if same_command(&back, cmd) {
                Some(bytes)
            } else {
                None
            }
        },
        None => None,
    }
}

} // verus!
