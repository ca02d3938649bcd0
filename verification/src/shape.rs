//! The shape of a record's frame, told from its bytes alone.
//!
//! A command is a document of one entry, which holds a document of strings.
//! Before a frame is handed to the `bson` crate, the store walks the headers
//! of its elements and makes sure that it is laid out like that: the crate
//! reads embedded documents to any depth, one call inside the other, and a
//! frame that nests deep enough would exhaust the stack. A frame of another
//! layout is no record, so nothing is lost by refusing it here.
//!
//! An element is one byte that tells the type of its value, then the key up
//! to a zero byte, then the value. A string value is its length in four
//! bytes, the bytes, and a zero byte that the length counts; an embedded
//! document is a frame. A document is its length, its elements, and a zero
//! byte.

use vstd::prelude::*;
use crate::frame::{declared_len, is_frame, is_one_frame, read_declared_len};

verus! {

/// The type byte of a string element.
pub const TAG_TEXT: u8 = 0x02;

/// The type byte of an embedded document.
pub const TAG_DOCUMENT: u8 = 0x03;

/// The first byte of the keys that the `bson` crate reads as marks of its
/// extended notation rather than as names: `$`.
pub const MARK: u8 = 0x24;

/// The place of the first zero byte from `at` on and before `end`, or `end`
/// where there is none.
pub open spec fn zero_from(b: Seq<u8>, at: int, end: int) -> int
    decreases end - at,
{
    if at >= end {
        end
    } else if b[at] == 0 {
        at
    } else {
        zero_from(b, at + 1, end)
    }
}

/// From `at` to the terminator at `end`, the bytes are string elements one
/// after another, none under a key that begins with `$`.
pub open spec fn texts_until(b: Seq<u8>, at: int, end: int) -> bool
    decreases end - at,
{
    if at >= end {
        at == end
    } else {
        let z = zero_from(b, at + 1, end);
        let n = declared_len(b, z + 1);
        &&& b[at] == TAG_TEXT
        &&& b[at + 1] != MARK
        &&& at < z < end
        &&& z + 5 <= end
        &&& 1 <= n
        &&& z + 5 + n <= end
        &&& b[z + 4 + n] == 0
        &&& texts_until(b, z + 5 + n, end)
    }
}

/// The bytes are one frame laid out as the document of a command: one
/// element, an embedded document, which holds string elements only; no key
/// begins with `$`.
pub open spec fn shaped(b: Seq<u8>) -> bool {
    let n = b.len() as int;
    let z = zero_from(b, 5, n - 1);
    &&& is_frame(b)
    &&& b[n - 1] == 0
    &&& b[4] == TAG_DOCUMENT
    &&& 5 <= z < n - 1
    &&& b[5] != MARK
    &&& z + 6 <= n - 1
    &&& declared_len(b, z + 1) == n - 2 - z
    &&& b[n - 2] == 0
    &&& texts_until(b, z + 5, n - 2)
}

/// The first zero byte is no earlier than where the search starts and no
/// later than where it ends.
pub proof fn lemma_zero_from(b: Seq<u8>, at: int, end: int)
    requires
        at <= end,
    ensures
        at <= zero_from(b, at, end) <= end,
    decreases end - at,
{
    if at < end && b[at] != 0 {
        lemma_zero_from(b, at + 1, end);
    }
}

/// Finds the first zero byte from `at` on and before `end`.
fn find_zero(b: &[u8], at: usize, end: usize) -> (z: usize)
    requires
        at <= end <= b@.len(),
    ensures
        z == zero_from(b@, at as int, end as int),
        at <= z <= end,
{
    let mut i = at;
    while i < end && b[i] != 0
        invariant
            at <= i <= end <= b@.len(),
            zero_from(b@, at as int, end as int) == zero_from(b@, i as int, end as int),
        decreases end - i,
    {
        i = i + 1;
    }
    i
}

/// Whether the bytes from `at` to the terminator at `end` are string
/// elements one after another, none under a key that begins with `$`.
fn are_texts(b: &[u8], at: usize, end: usize) -> (ok: bool)
    requires
        at <= end < b@.len(),
    ensures
        ok == texts_until(b@, at as int, end as int),
{
    let mut i = at;
    while i < end
        invariant
            at <= i <= end < b@.len(),
            texts_until(b@, at as int, end as int) == texts_until(b@, i as int, end as int),
        decreases end - i,
    {
        if b[i] != TAG_TEXT || b[i + 1] == MARK {
            return false;
        }
        let z = find_zero(b, i + 1, end);
        if z >= end || end - z < 5 {
            return false;
        }
        let n = read_declared_len(b, z + 1);
        if n < 1 || n > (end - z - 5) as u64 {
            return false;
        }
        let next = z + 5 + n as usize;
        if b[next - 1] != 0 {
            return false;
        }
        i = next;
    }
    true
}

/// Whether the bytes are one frame laid out as the document of a command.
pub fn is_shaped(bytes: &[u8]) -> (ok: bool)
    ensures
        ok == shaped(bytes@),
{
    if !is_one_frame(bytes) {
        return false;
    }
    let n = bytes.len();
    if n < 12 {
        proof {
            if 5 <= n - 1 {
                lemma_zero_from(bytes@, 5, n - 1);
            }
        }
        return false;
    }
    if bytes[n - 1] != 0 || bytes[4] != TAG_DOCUMENT || bytes[5] == MARK {
        return false;
    }
    let z = find_zero(bytes, 5, n - 1);
    if z >= n - 1 || n - 1 - z < 6 {
        return false;
    }
    let m = read_declared_len(bytes, z + 1);
    if m != (n - 2 - z) as u64 || bytes[n - 2] != 0 {
        return false;
    }
    are_texts(bytes, z + 5, n - 2)
}

} // verus!
