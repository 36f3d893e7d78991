//! Metadata as JSON text: reading a document with `serde_json` and decoding
//! its records.
//!
//! The JSON reader is outside code. What it returns is known to this library
//! only through the names declared here; everything that is done with the
//! values (which fields are read, what shape they must have) is verified.

use crate::catalog::CommandOptions;
use crate::definition::ProgramOptionView;
use crate::error::{Error, ErrorView};
use crate::metadata::{
    load, record_views, text_field, texts_field, Field, OptionRecord, OptionRecordView,
};
use crate::ordering::is_ordered;
use crate::text::texts;
use vstd::prelude::*;
use vstd::string::*;

verus! {

/// `serde_json::Value`, a JSON value. It is opaque here and read only through
/// the functions below.
#[verifier::external_type_specification]
#[verifier::external_body]
pub struct ExJsonValue(serde_json::Value);

/// The value that `serde_json::from_slice` reads from the bytes of a
/// document, or `None` where it rejects them.
pub uninterp spec fn json_document(data: Seq<u8>) -> Option<serde_json::Value>;

/// The members of a JSON object, as `Map::iter` walks them, or `None` for a
/// value that is no object.
pub uninterp spec fn json_entries(value: serde_json::Value) -> Option<
    Seq<(Seq<char>, serde_json::Value)>,
>;

/// What `Value::get` finds under a text key: the member of an object with
/// that key, or `None`.
pub uninterp spec fn json_member(value: serde_json::Value, key: Seq<char>) -> Option<
    serde_json::Value,
>;

/// The text of a JSON string, or `None` for any other value.
pub uninterp spec fn json_text(value: serde_json::Value) -> Option<Seq<char>>;

/// The elements of a JSON array, or `None` for any other value.
pub uninterp spec fn json_items(value: serde_json::Value) -> Option<Seq<serde_json::Value>>;

/// What `Value::as_u64` gives: the number, where the value is an integer that
/// fits `u64`, or `None`.
pub uninterp spec fn json_number(value: serde_json::Value) -> Option<u64>;

/// Whether the value is JSON `null`.
pub uninterp spec fn json_is_null(value: serde_json::Value) -> bool;

/// The contents of the members that the reader handed out.
pub open spec fn entry_views(entries: Seq<(&String, &serde_json::Value)>) -> Seq<
    (Seq<char>, serde_json::Value),
> {
    entries.map_values(|entry: (&String, &serde_json::Value)| (entry.0@, *entry.1))
}

/// Calls `serde_json::from_slice` for a `Value`. The contract names the
/// outcome: the value read is `json_document` of the bytes, and the call
/// fails exactly where that is `None`. The failure is handed on as the
/// reader's message.
#[verifier::external_body]
fn read_document(data: &[u8]) -> (document: Result<serde_json::Value, String>)
    ensures
        match document {
            Ok(value) => json_document(data@) == Some(value),
            Err(_) => json_document(data@) is None,
        },
{
    serde_json::from_slice::<serde_json::Value>(data).map_err(|error| error.to_string())
}

/// Calls `Value::as_object` and collects `Map::iter`. The contract names the
/// outcome: the members in the order of the walk are `json_entries` of the
/// value, and the result is `None` exactly where that is `None`.
#[verifier::external_body]
fn entries_of<'a>(value: &'a serde_json::Value) -> (entries: Option<
    Vec<(&'a String, &'a serde_json::Value)>,
>)
    ensures
        match entries {
            Some(list) => json_entries(*value) == Some(entry_views(list@)),
            None => json_entries(*value) is None,
        },
{
    value.as_object().map(|fields| fields.iter().collect())
}

/// Calls `Value::get` with a text key. The contract names the outcome as
/// `json_member` of the value and the key.
#[verifier::external_body]
fn member_of<'a>(value: &'a serde_json::Value, key: &str) -> (member: Option<
    &'a serde_json::Value,
>)
    ensures
        match member {
            Some(found) => json_member(*value, key@) == Some(*found),
            None => json_member(*value, key@) is None,
        },
{
    value.get(key)
}

/// Calls `Value::as_str`. The contract names the outcome as `json_text` of
/// the value.
#[verifier::external_body]
fn text_of<'a>(value: &'a serde_json::Value) -> (text: Option<&'a str>)
    ensures
        match text {
            Some(found) => json_text(*value) == Some(found@),
            None => json_text(*value) is None,
        },
{
    value.as_str()
}

/// Calls `Value::as_array`. The contract names the outcome as `json_items` of
/// the value.
#[verifier::external_body]
fn items_of<'a>(value: &'a serde_json::Value) -> (items: Option<&'a Vec<serde_json::Value>>)
    ensures
        match items {
            Some(found) => json_items(*value) == Some(found@),
            None => json_items(*value) is None,
        },
{
    value.as_array()
}

/// Calls `Value::as_u64`. The contract names the outcome as `json_number` of
/// the value.
#[verifier::external_body]
fn number_of(value: &serde_json::Value) -> (number: Option<u64>)
    ensures
        number == json_number(*value),
{
    value.as_u64()
}

/// Calls `Value::is_null`. The contract names the outcome as `json_is_null`
/// of the value.
#[verifier::external_body]
fn is_null_of(value: &serde_json::Value) -> (null: bool)
    ensures
        null == json_is_null(*value),
{
    value.is_null()
}

/// The member under `key` that is there and not null.
pub open spec fn present_member(value: serde_json::Value, key: Seq<char>) -> Option<
    serde_json::Value,
> {
    match json_member(value, key) {
        Some(member) => if json_is_null(member) {
            None
        } else {
            Some(member)
        },
        None => None,
    }
}

/// The text that a value stands for: its own text, or, where `nested`, the
/// text of its member `def`.
pub open spec fn element_text(value: serde_json::Value, nested: bool) -> Option<Seq<char>> {
    if nested {
        match json_member(value, "def"@) {
            Some(def) => json_text(def),
            None => None,
        }
    } else {
        json_text(value)
    }
}

/// The texts of the elements from index `from` on, or `None` where one of
/// them stands for no text.
pub open spec fn element_texts(items: Seq<serde_json::Value>, nested: bool, from: int) -> Option<
    Seq<Seq<char>>,
>
    decreases items.len() - from,
{
    if from < 0 || from >= items.len() {
        Some(seq![])
    } else {
        match element_text(items[from], nested) {
            None => None,
            Some(text) => match element_texts(items, nested, from + 1) {
                Some(rest) => Some(seq![text] + rest),
                None => None,
            },
        }
    }
}

/// The field `key` of a record as a text: the member itself where it is a
/// string, or its member `def` where `nested`.
pub open spec fn text_at(value: serde_json::Value, key: Seq<char>, nested: bool) -> Field<
    Seq<char>,
> {
    match present_member(value, key) {
        None => Field::Missing,
        Some(member) => match element_text(member, nested) {
            Some(text) => Field::Present(text),
            None => Field::Malformed,
        },
    }
}

/// The field `key` of a record as a list of texts.
pub open spec fn texts_at(value: serde_json::Value, key: Seq<char>, nested: bool) -> Field<
    Seq<Seq<char>>,
> {
    match present_member(value, key) {
        None => Field::Missing,
        Some(member) => match json_items(member) {
            None => Field::Malformed,
            Some(items) => match element_texts(items, nested, 0) {
                Some(list) => Field::Present(list),
                None => Field::Malformed,
            },
        },
    }
}

/// The field `key` of a record as a count.
pub open spec fn count_at(value: serde_json::Value, key: Seq<char>) -> Field<usize> {
    match present_member(value, key) {
        None => Field::Missing,
        Some(member) => match json_number(member) {
            Some(number) => if number <= usize::MAX {
                Field::Present(number as usize)
            } else {
                Field::Malformed
            },
            None => Field::Malformed,
        },
    }
}

/// The record that stands under `key` in the metadata.
pub open spec fn decode_record(key: Seq<char>, value: serde_json::Value) -> OptionRecordView {
    OptionRecordView {
        key,
        raw_name: text_at(value, "!name"@, false),
        super_classes: texts_at(value, "!superclasses"@, false),
        name: text_at(value, "Name"@, false),
        kind: text_at(value, "Kind"@, true),
        num_args: count_at(value, "NumArgs"@),
        prefixes: texts_at(value, "Prefixes"@, false),
        alias: text_at(value, "Alias"@, true),
        flags: texts_at(value, "Flags"@, true),
        group: text_at(value, "Group"@, true),
    }
}

/// The records of the members of a document.
pub open spec fn decode_entries(entries: Seq<(Seq<char>, serde_json::Value)>) -> Seq<
    OptionRecordView,
> {
    entries.map_values(|entry: (Seq<char>, serde_json::Value)| decode_record(entry.0, entry.1))
}

/// The records that a document holds: it must be well-formed JSON and an
/// object, and then each member is one record.
pub open spec fn document_records(data: Seq<u8>) -> Result<Seq<OptionRecordView>, ErrorView> {
    match json_document(data) {
        None => Err(ErrorView::Json),
        Some(document) => match json_entries(document) {
            None => Err(ErrorView::JsonParse("JSON input should be an Object"@)),
            Some(entries) => Ok(decode_entries(entries)),
        },
    }
}

/// The catalog that a document gives.
pub open spec fn load_document(data: Seq<u8>) -> Result<Seq<ProgramOptionView>, ErrorView> {
    match document_records(data) {
        Err(error) => Err(error),
        Ok(records) => load(records),
    }
}

/// The member under `key` that is there and not null.
fn present_member_of<'a>(value: &'a serde_json::Value, key: &str) -> (member: Option<
    &'a serde_json::Value,
>)
    ensures
        match member {
            Some(found) => present_member(*value, key@) == Some(*found),
            None => present_member(*value, key@) is None,
        },
{
    match member_of(value, key) {
        Some(member) => if is_null_of(member) {
            None
        } else {
            Some(member)
        },
        None => None,
    }
}

/// The text that a value stands for.
fn element_text_of(value: &serde_json::Value, nested: bool) -> (text: Option<String>)
    ensures
        match text {
            Some(found) => element_text(*value, nested) == Some(found@),
            None => element_text(*value, nested) is None,
        },
{
    let holder = if nested {
        match member_of(value, "def") {
            Some(def) => def,
            None => {
                return None;
            },
        }
    } else {
        value
    };
    match text_of(holder) {
        Some(text) => Some(text.to_owned()),
        None => None,
    }
}

/// The field `key` of a record as a text.
fn text_field_of(value: &serde_json::Value, key: &str, nested: bool) -> (field: Field<String>)
    ensures
        text_field(field) == text_at(*value, key@, nested),
{
    match present_member_of(value, key) {
        None => Field::Missing,
        Some(member) => match element_text_of(member, nested) {
            Some(text) => Field::Present(text),
            None => Field::Malformed,
        },
    }
}

/// The field `key` of a record as a list of texts.
fn texts_field_of(value: &serde_json::Value, key: &str, nested: bool) -> (field: Field<
    Vec<String>,
>)
    ensures
        texts_field(field) == texts_at(*value, key@, nested),
{
    let member = match present_member_of(value, key) {
        None => {
            return Field::Missing;
        },
        Some(member) => member,
    };
    let items = match items_of(member) {
        None => {
            return Field::Malformed;
        },
        Some(items) => items,
    };
    let mut list: Vec<String> = Vec::new();
    let mut i: usize = 0;
    assert(seq![] + element_texts(items@, nested, 0)->0 =~= element_texts(items@, nested, 0)->0);
    while i < items.len()
        invariant
            i <= items@.len(),
            present_member(*value, key@) == Some(*member),
            json_items(*member) == Some(items@),
            match element_texts(items@, nested, i as int) {
                Some(rest) => element_texts(items@, nested, 0) == Some(
                    texts(list@) + rest,
                ),
                None => element_texts(items@, nested, 0) is None,
            },
        decreases items@.len() - i,
    {
        match element_text_of(&items[i], nested) {
            None => {
                return Field::Malformed;
            },
            Some(text) => {
                let ghost done = texts(list@);
                list.push(text);
                proof {
                    let rest = element_texts(items@, nested, i + 1);
                    assert(texts(list@) =~= done + seq![text@]);
                    if rest is Some {
                        assert(done + (seq![text@] + rest->0) =~= texts(list@)
                            + rest->0);
                    }
                }
            },
        }
        i += 1;
    }
    assert(texts(list@) + seq![] =~= texts(list@));
    Field::Present(list)
}

/// The field `key` of a record as a count.
fn count_field_of(value: &serde_json::Value, key: &str) -> (field: Field<usize>)
    ensures
        field == count_at(*value, key@),
{
    match present_member_of(value, key) {
        None => Field::Missing,
        Some(member) => match number_of(member) {
            Some(number) => if number <= usize::MAX as u64 {
                Field::Present(number as usize)
            } else {
                Field::Malformed
            },
            None => Field::Malformed,
        },
    }
}

/// Decodes the record that stands under `key`: each field is looked up and
/// held against the shape that it should have.
pub fn decode_record_of(key: &str, value: &serde_json::Value) -> (record: OptionRecord)
    ensures
        record@ == decode_record(key@, *value),
{
    OptionRecord {
        key: key.to_owned(),
        raw_name: text_field_of(value, "!name", false),
        super_classes: texts_field_of(value, "!superclasses", false),
        name: text_field_of(value, "Name", false),
        kind: text_field_of(value, "Kind", true),
        num_args: count_field_of(value, "NumArgs"),
        prefixes: texts_field_of(value, "Prefixes", false),
        alias: text_field_of(value, "Alias", true),
        flags: texts_field_of(value, "Flags", true),
        group: text_field_of(value, "Group", true),
    }
}

/// Reads the records of a metadata document.
///
/// Fails with `Error::Json` where the bytes are no well-formed JSON and with
/// `Error::JsonParse` where the document is no object. Otherwise every member
/// of the document gives one record, in the order in which the reader walks
/// them.
pub fn decode_metadata(data: &[u8]) -> (records: Result<Vec<OptionRecord>, Error>)
    ensures
        match document_records(data@) {
            Ok(list) => records is Ok && record_views(records->Ok_0@) == list,
            Err(error) => records is Err && records->Err_0@ == error,
        },
{
    let document = match read_document(data) {
        Ok(document) => document,
        Err(message) => {
            return Err(Error::Json(message));
        },
    };
    let entries = match entries_of(&document) {
        Some(entries) => entries,
        None => {
            return Err(Error::JsonParse(String::from_str("JSON input should be an Object")));
        },
    };
    let ghost views = entry_views(entries@);
    let mut records: Vec<OptionRecord> = Vec::new();
    let mut i: usize = 0;
    while i < entries.len()
        invariant
            i <= entries@.len(),
            views == entry_views(entries@),
            records@.len() == i,
            forall|j: int|
                0 <= j < i ==> (#[trigger] records@[j])@ == decode_record(views[j].0, views[j].1),
        decreases entries@.len() - i,
    {
        let entry = &entries[i];
        assert(views[i as int] == (entry.0@, *entry.1));
        records.push(decode_record_of(entry.0.as_str(), entry.1));
        i += 1;
    }
    assert(record_views(records@) =~= decode_entries(views));
    Ok(records)
}

impl CommandOptions {
    /// Obtain an instance by parsing JSON emitted from `llvm-tblgen`.
    ///
    /// From a LLVM+Clang source checkout, this JSON comes from something like
    /// `llvm-tblgen --dump-json clang/include/clang/Driver/Options.td -I llvm/include`.
    ///
    /// The catalog is in catalog order, and each of its definitions has at
    /// least one prefix and a display name that is not empty.
    pub fn from_json(data: &[u8]) -> (catalog: Result<CommandOptions, Error>)
        ensures
            match load_document(data@) {
                Ok(options) => catalog is Ok && catalog->Ok_0@ == options,
                Err(error) => catalog is Err && catalog->Err_0@ == error,
            },
            catalog is Ok ==> is_ordered(catalog->Ok_0@),
            catalog is Ok ==> forall|i: int|
                0 <= i < catalog->Ok_0@.len() ==> (#[trigger] catalog->Ok_0@[i]).prefixes.len() >= 1
                    && catalog->Ok_0@[i].name.len() > 0,
    {
        match decode_metadata(data) {
            Err(error) => Err(error),
            Ok(records) => CommandOptions::from_records(&records),
        }
    }
}

} // verus!
