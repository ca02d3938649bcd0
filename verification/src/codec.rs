//! The command codec: each command is one BSON document.
//!
//! A `Put` is written as `{ "Set": { "key": .., "value": .. } }` and a `Rm`
//! as `{ "Rm": { "key": .. } }`. The documents are built, written and read
//! by the `bson` crate; this module fixes their shape and proves that the
//! shape of a command's document reads back as that command. That the crate
//! reads back the bytes it wrote is not taken for granted: the log checks it
//! for every record before the record is written.

use vstd::prelude::*;
use crate::command::{Command, Record};
use crate::document::{
    all_text, bson_bytes, bson_parse, doc_entries, doc_from_bytes, doc_get_doc, doc_get_text,
    doc_len, doc_new, doc_put_doc, doc_put_text, doc_to_bytes, field_at, has_key, nested_at,
    text_at, text_fits, writable, Field, MAX_TEXT_BYTES,
};
use crate::shape::{is_shaped, shaped};

verus! {

/// The entries of the embedded document of a command.
pub open spec fn body_entries(c: Record) -> Seq<(Seq<char>, Field)> {
    match c {
        Record::Put { key, value } => seq![
            ("key"@, Field::Text(key)),
            ("value"@, Field::Text(value)),
        ],
        Record::Rm { key } => seq![("key"@, Field::Text(key))],
    }
}

/// The entries of the document that stands for a command: one entry, named
/// after the kind of command, which holds the command's strings.
pub open spec fn command_entries(c: Record) -> Seq<(Seq<char>, Field)> {
    match c {
        Record::Put { .. } => seq![("Set"@, Field::Nested(body_entries(c)))],
        Record::Rm { .. } => seq![("Rm"@, Field::Nested(body_entries(c)))],
    }
}

/// The command that a document with the given entries stands for, if any.
/// The document has exactly one entry, `Set` or `Rm`, which holds a document
/// with the strings of that command; further entries in there are ignored.
/// (Of a frame the codec reads only documents whose further entries are
/// strings: see [`decoded`].)
pub open spec fn entries_command(entries: Seq<(Seq<char>, Field)>) -> Option<Record> {
    if entries.len() != 1 {
        None
    } else {
        match nested_at(entries, "Set"@) {
            Some(body) => match (text_at(body, "key"@), text_at(body, "value"@)) {
                (Some(key), Some(value)) => Some(Record::Put { key, value }),
                _ => None,
            },
            None => match nested_at(entries, "Rm"@) {
                Some(body) => match text_at(body, "key"@) {
                    Some(key) => Some(Record::Rm { key }),
                    None => None,
                },
                None => None,
            },
        }
    }
}

/// Whether the strings of a command are short enough to be written.
pub open spec fn command_fits(c: Record) -> bool {
    match c {
        Record::Put { key, value } => text_fits(key) && text_fits(value),
        Record::Rm { key } => text_fits(key),
    }
}

/// The bytes of a command's document, or `None` where the command cannot be
/// written: a string is too long, or the `bson` crate reports an error.
pub open spec fn encoded(c: Record) -> Option<Seq<u8>> {
    if command_fits(c) {
        bson_bytes(command_entries(c))
    } else {
        None
    }
}

/// The command that the given bytes stand for, or `None` where they are not
/// one frame, laid out as the document of a command, that holds the
/// well-formed document of a command.
pub open spec fn decoded(bytes: Seq<u8>) -> Option<Record> {
    if shaped(bytes) {
        match bson_parse(bytes) {
            Some(entries) => entries_command(entries),
            None => None,
        }
    } else {
        None
    }
}

/// The four names that occur in a command's document differ where the codec
/// tells them apart.
proof fn lemma_names()
    ensures
        "Set"@ != "Rm"@,
        "key"@ != "value"@,
{
    reveal_strlit("Set");
    reveal_strlit("Rm");
    reveal_strlit("key");
    reveal_strlit("value");
    assert("Set"@.len() == 3);
    assert("Rm"@.len() == 2);
    assert("key"@.len() == 3);
    assert("value"@.len() == 5);
}

/// The document of a command stands for that command.
pub proof fn lemma_entries_round_trip(c: Record)
    ensures
        entries_command(command_entries(c)) == Some(c),
{
    lemma_names();
    reveal_with_fuel(field_at, 3);
    let e = command_entries(c);
    let b = body_entries(c);
    match c {
        Record::Put { key, value } => {
            assert(e[0] == ("Set"@, Field::Nested(b)));
            assert(b[0] == ("key"@, Field::Text(key)));
            assert(b.drop_first()[0] == ("value"@, Field::Text(value)));
            assert(nested_at(e, "Set"@) == Some(b));
            assert(text_at(b, "key"@) == Some(key));
            assert(text_at(b, "value"@) == Some(value));
        },
        Record::Rm { key } => {
            assert(e[0] == ("Rm"@, Field::Nested(b)));
            assert(b[0] == ("key"@, Field::Text(key)));
            assert(field_at(e, "Set"@) is None);
            assert(nested_at(e, "Rm"@) == Some(b));
            assert(text_at(b, "key"@) == Some(key));
        },
    }
}

/// The number of bytes of a string does not exceed the limit.
fn fits(s: &str) -> (b: bool)
    ensures
        b == text_fits(s@),
{
    s.as_bytes().len() <= MAX_TEXT_BYTES
}

/// Builds the document `{ name: body }`.
fn wrap(name: &str, body: bson::Document) -> (doc: bson::Document)
    ensures
        doc_entries(doc) == seq![(name@, Field::Nested(doc_entries(body)))],
{
    let mut doc = doc_new();
    doc_put_doc(&mut doc, name, body);
    assert(doc_entries(doc) =~= seq![(name@, Field::Nested(doc_entries(body)))]);
    doc
}

/// Builds the document that stands for a command.
///
/// Returns `None` where a string of the command has more than
/// [`MAX_TEXT_BYTES`] bytes.
pub fn document_of(cmd: &Command) -> (r: Option<bson::Document>)
    ensures
        match r {
            Some(doc) => command_fits(cmd@) && doc_entries(doc) == command_entries(cmd@),
            None => !command_fits(cmd@),
        },
{
    proof {
        lemma_names();
    }
    match cmd {
        Command::Put { key, value } => {
            if !fits(key.as_str()) || !fits(value.as_str()) {
                return None;
            }
            let mut body = doc_new();
            doc_put_text(&mut body, "key", key.as_str());
            assert(doc_entries(body) =~= seq![("key"@, Field::Text(key@))]);
            assert(!has_key(doc_entries(body), "value"@));
            doc_put_text(&mut body, "value", value.as_str());
            assert(doc_entries(body) =~= body_entries(cmd@));
            Some(wrap("Set", body))
        },
        Command::Rm { key } => {
            if !fits(key.as_str()) {
                return None;
            }
            let mut body = doc_new();
            doc_put_text(&mut body, "key", key.as_str());
            assert(doc_entries(body) =~= body_entries(cmd@));
            Some(wrap("Rm", body))
        },
    }
}

/// Encodes a command as one BSON document.
///
/// Returns `None` where a string of the command has more than
/// [`MAX_TEXT_BYTES`] bytes or the `bson` crate cannot write the document.
pub fn encode(cmd: &Command) -> (r: Option<Vec<u8>>)
    ensures
        match r {
            Some(bytes) => encoded(cmd@) == Some(bytes@),
            None => encoded(cmd@) is None,
        },
{
    match document_of(cmd) {
        Some(doc) => {
            assert(all_text(body_entries(cmd@)));
            assert(writable(doc_entries(doc)));
            doc_to_bytes(&doc)
        },
        None => None,
    }
}

/// Decodes one BSON document as a command.
///
/// Returns `None` where the bytes are not one frame laid out as the
/// document of a command (one embedded document of strings, no key that
/// begins with `$`), the frame does not hold a well-formed document, or the
/// document is not that of a command.
pub fn decode(bytes: &[u8]) -> (r: Option<Command>)
    ensures
        match r {
            Some(cmd) => decoded(bytes@) == Some(cmd@),
            None => decoded(bytes@) is None,
        },
{
    if !is_shaped(bytes) {
        return None;
    }
    match doc_from_bytes(bytes) {
        Some(doc) => command_of(&doc),
        None => None,
    }
}

/// Reads a document as a command.
///
/// Returns `None` where the document is not that of a command: it has
/// exactly one entry, `Set` or `Rm`, which holds a document with the strings
/// of that command.
pub fn command_of(doc: &bson::Document) -> (r: Option<Command>)
    ensures
        match r {
            Some(cmd) => entries_command(doc_entries(*doc)) == Some(cmd@),
            None => entries_command(doc_entries(*doc)) is None,
        },
{
    if doc_len(doc) != 1 {
        return None;
    }
    match doc_get_doc(doc, "Set") {
        Some(body) => match doc_get_text(body, "key") {
            Some(key) => match doc_get_text(body, "value") {
                Some(value) => Some(Command::Put { key, value }),
                None => None,
            },
            None => None,
        },
        None => match doc_get_doc(doc, "Rm") {
            Some(body) => match doc_get_text(body, "key") {
                Some(key) => Some(Command::Rm { key }),
                None => None,
            },
            None => None,
        },
    }
}

} // verus!
