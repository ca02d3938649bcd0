//! Frames: how the log is cut into records.
//!
//! A BSON document begins with its own length in bytes, as a signed 32-bit
//! little-endian number that counts these four bytes too. The log is a run
//! of such documents, so the length prefix alone delimits a record: the
//! bytes it spans are its frame. The store finds the frame itself and hands
//! the `bson` crate nothing but whole frames.

use vstd::prelude::*;

verus! {

/// The shortest frame: the length prefix and the terminator of an empty
/// document.
pub const MIN_FRAME: usize = 5;

/// The longest frame that the signed 32-bit length prefix can declare.
pub const MAX_FRAME: usize = 0x7fff_ffff;

/// The number that four bytes spell in little-endian order.
pub open spec fn le32(b0: u8, b1: u8, b2: u8, b3: u8) -> int {
    b0 as int + 256 * (b1 as int) + 65536 * (b2 as int) + 16777216 * (b3 as int)
}

/// The length that the four bytes at `at` declare.
pub open spec fn declared_len(log: Seq<u8>, at: int) -> int
    recommends
        0 <= at,
        at + 4 <= log.len(),
{
    le32(log[at], log[at + 1], log[at + 2], log[at + 3])
}

/// The length of the frame that starts at `at`: the declared length, where
/// four bytes are there to declare one, it is that of a document, and the log
/// holds that many bytes from `at` on.
pub open spec fn frame_len(log: Seq<u8>, at: int) -> Option<int> {
    if 0 <= at && at + 4 <= log.len() {
        let n = declared_len(log, at);
        if MIN_FRAME <= n <= MAX_FRAME && at + n <= log.len() {
            Some(n)
        } else {
            None
        }
    } else {
        None
    }
}

/// The bytes are exactly one frame.
pub open spec fn is_frame(bytes: Seq<u8>) -> bool {
    frame_len(bytes, 0) == Some(bytes.len() as int)
}

/// The bytes of the frame that starts at `at`; none where no frame starts
/// there.
pub open spec fn frame_at(log: Seq<u8>, at: int) -> Seq<u8> {
    match frame_len(log, at) {
        Some(n) => log.subrange(at, at + n),
        None => Seq::empty(),
    }
}

/// A frame keeps its place and its length when the log grows behind it, and
/// its bytes are a frame by themselves.
pub proof fn lemma_frame_extended(log: Seq<u8>, tail: Seq<u8>, at: int)
    requires
        frame_len(log, at) is Some,
    ensures
        frame_len(log + tail, at) == frame_len(log, at),
        (log + tail).subrange(at, at + frame_len(log, at)->0) == log.subrange(
            at,
            at + frame_len(log, at)->0,
        ),
        is_frame(log.subrange(at, at + frame_len(log, at)->0)),
        frame_at(log + tail, at) == frame_at(log, at),
{
    let ext = log + tail;
    let n = frame_len(log, at)->0;
    let frame = log.subrange(at, at + n);
    assert(ext[at] == log[at]);
    assert(ext[at + 1] == log[at + 1]);
    assert(ext[at + 2] == log[at + 2]);
    assert(ext[at + 3] == log[at + 3]);
    assert(ext.subrange(at, at + n) =~= frame);
    assert(frame[0] == log[at]);
    assert(frame[1] == log[at + 1]);
    assert(frame[2] == log[at + 2]);
    assert(frame[3] == log[at + 3]);
}

/// A frame appended to a log is a frame at the old end of the log.
pub proof fn lemma_frame_appended(log: Seq<u8>, frame: Seq<u8>)
    requires
        is_frame(frame),
    ensures
        frame_len(log + frame, log.len() as int) == Some(frame.len() as int),
        (log + frame).subrange(log.len() as int, (log + frame).len() as int) == frame,
        frame_at(log + frame, log.len() as int) == frame,
{
    let ext = log + frame;
    let at = log.len() as int;
    assert(ext[at] == frame[0]);
    assert(ext[at + 1] == frame[1]);
    assert(ext[at + 2] == frame[2]);
    assert(ext[at + 3] == frame[3]);
    assert(ext.subrange(at, at + frame.len()) =~= frame);
}

/// A frame cut short, appended to a log, is no frame at the old end of the
/// log.
pub proof fn lemma_frame_cut(log: Seq<u8>, frame: Seq<u8>, keep: int)
    requires
        is_frame(frame),
        0 <= keep < frame.len(),
    ensures
        frame_len(log + frame.subrange(0, keep), log.len() as int) is None,
{
    let ext = log + frame.subrange(0, keep);
    let at = log.len() as int;
    if keep >= 4 {
        assert(ext[at] == frame[0]);
        assert(ext[at + 1] == frame[1]);
        assert(ext[at + 2] == frame[2]);
        assert(ext[at + 3] == frame[3]);
        assert(declared_len(ext, at) == frame.len());
    }
}

/// Reads the length that the four bytes at `at` declare.
pub fn read_declared_len(log: &[u8], at: usize) -> (n: u64)
    requires
        at + 4 <= log@.len(),
    ensures
        n == declared_len(log@, at as int),
{
    log[at] as u64 + 256 * (log[at + 1] as u64) + 65536 * (log[at + 2] as u64) + 16777216 * (
    log[at + 3] as u64)
}

/// Reads the length of the frame that starts at `at`.
pub fn read_frame_len(log: &[u8], at: usize) -> (r: Option<usize>)
    ensures
        match r {
            Some(n) => frame_len(log@, at as int) == Some(n as int),
            None => frame_len(log@, at as int) is None,
        },
{
    let len = log.len();
    if at > len || len - at < 4 {
        return None;
    }
    let n: u64 = read_declared_len(log, at);
    if n < MIN_FRAME as u64 || n > MAX_FRAME as u64 {
        return None;
    }
    let n = n as usize;
    if n > len - at {
        return None;
    }
    Some(n)
}

/// Whether the bytes are exactly one frame.
pub fn is_one_frame(bytes: &[u8]) -> (ok: bool)
    ensures
        ok == is_frame(bytes@),
{
    match read_frame_len(bytes, 0) {
        Some(n) => n == bytes.len(),
        None => false,
    }
}

} // verus!
