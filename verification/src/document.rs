//! The boundary to the `bson` crate.
//!
//! Everything marked `external_body` or `uninterp` in this module is believed
//! rather than proved: the declaration of [`bson::Document`], the mathematical
//! names for what a document holds and for what the crate computes from it,
//! and one thin wrapper per `bson` function that the codec calls. The spec
//! functions with a body are ordinary definitions over those names.

use vstd::prelude::*;
use vstd::utf8::encode_utf8;
use crate::shape::shaped;

verus! {

/// What one entry of a document holds, as far as this library reads it.
pub enum Field {
    /// A UTF-8 string.
    Text(Seq<char>),
    /// An embedded document, given by its entries in order.
    Nested(Seq<(Seq<char>, Field)>),
    /// A value of any other BSON type.
    Other,
}

/// The largest number of bytes a string may have so that its length, counted
/// with the terminator BSON adds, still fits the signed 32-bit length prefix.
pub const MAX_TEXT_BYTES: usize = 0x7fff_fffe;

/// `bson::Document`, an ordered map from string keys to BSON values, taken
/// as an opaque value: what it holds is spoken of through [`doc_entries`].
#[verifier::external_type_specification]
#[verifier::external_body]
pub struct ExDocument(bson::Document);

/// The entries of a document, in insertion order. A string value stands as
/// `Text`, an embedded document as `Nested` with its own entries, anything
/// else as `Other`.
pub uninterp spec fn doc_entries(d: bson::Document) -> Seq<(Seq<char>, Field)>;

/// The bytes that `Document::to_writer` produces for a document with the
/// given entries, or `None` where it reports an error.
pub uninterp spec fn bson_bytes(entries: Seq<(Seq<char>, Field)>) -> Option<Seq<u8>>;

/// The entries of the document that `Document::from_reader` reads from the
/// given bytes, or `None` where it reports an error. The store asks this of
/// frames laid out as the document of a command only.
pub uninterp spec fn bson_parse(bytes: Seq<u8>) -> Option<Seq<(Seq<char>, Field)>>;

/// Whether some entry has the given key.
pub open spec fn has_key(entries: Seq<(Seq<char>, Field)>, key: Seq<char>) -> bool {
    exists|i: int| 0 <= i < entries.len() && (#[trigger] entries[i]).0 == key
}

/// What the first entry with the given key holds.
pub open spec fn field_at(entries: Seq<(Seq<char>, Field)>, key: Seq<char>) -> Option<Field>
    decreases entries.len(),
{
    if entries.len() == 0 {
        None
    } else if entries[0].0 == key {
        Some(entries[0].1)
    } else {
        field_at(entries.drop_first(), key)
    }
}

/// The string under the given key, if the key is there and holds a string.
pub open spec fn text_at(entries: Seq<(Seq<char>, Field)>, key: Seq<char>) -> Option<Seq<char>> {
    match field_at(entries, key) {
        Some(Field::Text(s)) => Some(s),
        _ => None,
    }
}

/// The entries of the embedded document under the given key, if the key is
/// there and holds a document.
pub open spec fn nested_at(entries: Seq<(Seq<char>, Field)>, key: Seq<char>) -> Option<Seq<(Seq<char>, Field)>> {
    match field_at(entries, key) {
        Some(Field::Nested(inner)) => Some(inner),
        _ => None,
    }
}

/// A string short enough for BSON's length prefix.
pub open spec fn text_fits(s: Seq<char>) -> bool {
    encode_utf8(s).len() <= MAX_TEXT_BYTES
}

/// Every entry holds a string that fits.
pub open spec fn all_text(entries: Seq<(Seq<char>, Field)>) -> bool {
    forall|i: int|
        0 <= i < entries.len() ==> match (#[trigger] entries[i]).1 {
            Field::Text(s) => text_fits(s),
            _ => false,
        }
}

/// Every entry holds a string that fits, or an embedded document of such
/// strings: the documents this library writes.
pub open spec fn writable(entries: Seq<(Seq<char>, Field)>) -> bool {
    forall|i: int|
        0 <= i < entries.len() ==> match (#[trigger] entries[i]).1 {
            Field::Text(s) => text_fits(s),
            Field::Nested(inner) => all_text(inner),
            Field::Other => false,
        }
}

/// `Document::new`: the new document has no entries.
#[verifier::external_body]
pub(crate) fn doc_new() -> (d: bson::Document)
    ensures
        doc_entries(d) == Seq::<(Seq<char>, Field)>::empty(),
{
    bson::Document::new()
}

/// `Document::len`: the number of entries.
#[verifier::external_body]
pub(crate) fn doc_len(d: &bson::Document) -> (n: usize)
    ensures
        n == doc_entries(*d).len(),
{
    d.len()
}

/// `Document::insert` with a string value: under a key that the document
/// does not have yet, the entry is added last and the others stay.
#[verifier::external_body]
pub(crate) fn doc_put_text(d: &mut bson::Document, key: &str, value: &str)
    requires
        !has_key(doc_entries(*old(d)), key@),
    ensures
        doc_entries(*final(d)) == doc_entries(*old(d)).push((key@, Field::Text(value@))),
{
    d.insert(key, value);
}

/// `Document::insert` with a document value: under a key that the document
/// does not have yet, the entry is added last and the others stay.
#[verifier::external_body]
pub(crate) fn doc_put_doc(d: &mut bson::Document, key: &str, value: bson::Document)
    requires
        !has_key(doc_entries(*old(d)), key@),
    ensures
        doc_entries(*final(d)) == doc_entries(*old(d)).push(
            (key@, Field::Nested(doc_entries(value))),
        ),
{
    d.insert(key, value);
}

/// `Document::get_str`: the string under the key; `None` where the key is
/// absent or holds something else.
#[verifier::external_body]
pub(crate) fn doc_get_text(d: &bson::Document, key: &str) -> (r: Option<String>)
    ensures
        match r {
            Some(s) => text_at(doc_entries(*d), key@) == Some(s@),
            None => text_at(doc_entries(*d), key@) is None,
        },
{
    match d.get_str(key) {
        Ok(s) => Some(s.to_owned()),
        Err(_) => None,
    }
}

/// `Document::get_document`: the embedded document under the key; `None`
/// where the key is absent or holds something else.
#[verifier::external_body]
pub(crate) fn doc_get_doc<'a>(d: &'a bson::Document, key: &str) -> (r: Option<&'a bson::Document>)
    ensures
        match r {
            Some(inner) => nested_at(doc_entries(*d), key@) == Some(doc_entries(*inner)),
            None => nested_at(doc_entries(*d), key@) is None,
        },
{
    match d.get_document(key) {
        Ok(inner) => Some(inner),
        Err(_) => None,
    }
}

/// `Document::to_writer` into a fresh vector: the bytes depend on the
/// entries alone. Asked only of documents whose strings fit the length
/// prefix, where the crate's length arithmetic cannot overflow.
#[verifier::external_body]
pub(crate) fn doc_to_bytes(d: &bson::Document) -> (r: Option<Vec<u8>>)
    requires
        writable(doc_entries(*d)),
    ensures
        match r {
            Some(bytes) => bson_bytes(doc_entries(*d)) == Some(bytes@),
            None => bson_bytes(doc_entries(*d)) is None,
        },
{
    let mut out: Vec<u8> = Vec::new();
    match d.to_writer(&mut out) {
        Ok(()) => Some(out),
        Err(_) => None,
    }
}

/// `Document::from_reader` on a byte slice: the document read depends on
/// the bytes alone. Asked only of frames laid out as the document of a
/// command. The crate sets aside as much memory as the first four bytes
/// declare before it reads on, and here that is the length of the slice. It
/// reads an embedded document by a call inside the call that reads the
/// document around it, and here the calls go two deep. It reads a key that
/// begins with `$` as a mark of its extended notation, and here no key does.
#[verifier::external_body]
pub(crate) fn doc_from_bytes(bytes: &[u8]) -> (r: Option<bson::Document>)
    requires
        shaped(bytes@),
    ensures
        match r {
            Some(d) => bson_parse(bytes@) == Some(doc_entries(d)),
            None => bson_parse(bytes@) is None,
        },
{
    match bson::Document::from_reader(bytes) {
        Ok(d) => Some(d),
        Err(_) => None,
    }
}

} // verus!
