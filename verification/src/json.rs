//! JSON documents, read and written by `serde_json`.
//!
//! What a document holds is named, not spelled out: each name below stands for
//! what `serde_json` reads out of the given bytes.

use vstd::prelude::*;
use crate::text::{clone_bytes, opt_text};

verus! {

/// The message of the error with which `serde_json::from_slice` refuses bytes,
/// or nothing where it reads them as a JSON value.
pub uninterp spec fn json_fault(doc: Seq<u8>) -> Option<Seq<char>>;

/// The compact text of the JSON value in the bytes.
pub uninterp spec fn json_compact(doc: Seq<u8>) -> Option<Seq<char>>;

/// The text, where the bytes are a JSON string.
pub uninterp spec fn json_text(doc: Seq<u8>) -> Option<Seq<char>>;

/// The truth value, where the bytes are a JSON boolean.
pub uninterp spec fn json_flag(doc: Seq<u8>) -> Option<bool>;

/// The text of a field, where the bytes are a JSON object with a string there.
pub uninterp spec fn json_field_text(doc: Seq<u8>, field: Seq<char>) -> Option<Seq<char>>;

/// The truth value of a field, where the bytes are a JSON object with a boolean
/// there.
pub uninterp spec fn json_field_flag(doc: Seq<u8>, field: Seq<char>) -> Option<bool>;

/// The text of an item of an array field, where there is a string in that place.
pub uninterp spec fn json_item_text(doc: Seq<u8>, field: Seq<char>, index: nat) -> Option<
    Seq<char>,
>;

/// The truth value of an item of an array field, where there is a boolean in
/// that place.
pub uninterp spec fn json_item_flag(doc: Seq<u8>, field: Seq<char>, index: nat) -> Option<bool>;

/// `serde_json::from_slice` into a `serde_json::Value`, for its error: the
/// message depends on the bytes alone.
#[verifier::external_body]
fn read_fault(doc: &[u8]) -> (res: Option<String>)
    ensures
        opt_text(res) == json_fault(doc@),
{
    serde_json::from_slice::<serde_json::Value>(doc).err().map(|e| e.to_string())
}

/// `serde_json::from_slice` into a `serde_json::Value`, then the value's
/// `to_string`: the compact text depends on the bytes alone, and there is one
/// exactly where reading the bytes gives no error.
#[verifier::external_body]
fn read_compact(doc: &[u8]) -> (res: Option<String>)
    ensures
        opt_text(res) == json_compact(doc@),
        res is Some <==> json_fault(doc@) is None,
{
    serde_json::from_slice::<serde_json::Value>(doc).ok().map(|v| v.to_string())
}

/// `serde_json::Value::as_str` on the value that `serde_json::from_slice` reads.
#[verifier::external_body]
fn read_text(doc: &[u8]) -> (res: Option<String>)
    ensures
        opt_text(res) == json_text(doc@),
{
    let value = serde_json::from_slice::<serde_json::Value>(doc).ok()?;
    value.as_str().map(str::to_owned)
}

/// `serde_json::Value::as_bool` on the value that `serde_json::from_slice` reads.
#[verifier::external_body]
fn read_flag(doc: &[u8]) -> (res: Option<bool>)
    ensures
        res == json_flag(doc@),
{
    serde_json::from_slice::<serde_json::Value>(doc).ok()?.as_bool()
}

/// `serde_json::Value::get` with a field's name, then `as_str`, on the value that
/// `serde_json::from_slice` reads.
#[verifier::external_body]
fn read_field_text(doc: &[u8], field: &str) -> (res: Option<String>)
    ensures
        opt_text(res) == json_field_text(doc@, field@),
{
    let value = serde_json::from_slice::<serde_json::Value>(doc).ok()?;
    value.get(field)?.as_str().map(str::to_owned)
}

/// `serde_json::Value::get` with a field's name, then `as_bool`, on the value
/// that `serde_json::from_slice` reads.
#[verifier::external_body]
fn read_field_flag(doc: &[u8], field: &str) -> (res: Option<bool>)
    ensures
        res == json_field_flag(doc@, field@),
{
    serde_json::from_slice::<serde_json::Value>(doc).ok()?.get(field)?.as_bool()
}

/// `serde_json::Value::get` with a field's name, `as_array`, the item in a place
/// and `as_str`, on the value that `serde_json::from_slice` reads.
#[verifier::external_body]
fn read_item_text(doc: &[u8], field: &str, index: usize) -> (res: Option<String>)
    ensures
        opt_text(res) == json_item_text(doc@, field@, index as nat),
{
    let value = serde_json::from_slice::<serde_json::Value>(doc).ok()?;
    value.get(field)?.as_array()?.get(index)?.as_str().map(str::to_owned)
}

/// `serde_json::Value::get` with a field's name, `as_array`, the item in a place
/// and `as_bool`, on the value that `serde_json::from_slice` reads.
#[verifier::external_body]
fn read_item_flag(doc: &[u8], field: &str, index: usize) -> (res: Option<bool>)
    ensures
        res == json_item_flag(doc@, field@, index as nat),
{
    let value = serde_json::from_slice::<serde_json::Value>(doc).ok()?;
    value.get(field)?.as_array()?.get(index)?.as_bool()
}

/// A JSON document.
#[derive(Debug)]
pub struct JsonDoc {
    raw: Vec<u8>,
}

impl View for JsonDoc {
    type V = Seq<u8>;

    closed spec fn view(&self) -> Seq<u8> {
        self.raw@
    }
}

impl JsonDoc {
    /// The bytes hold a JSON value.
    pub open spec fn wf(&self) -> bool {
        json_fault(self@) is None
    }

    /// Takes bytes that hold a JSON value; otherwise says why they do not.
    pub fn parse(raw: &[u8]) -> (res: Result<JsonDoc, String>)
        ensures
            res is Ok <==> json_fault(raw@) is None,
            res matches Ok(doc) ==> doc.wf() && doc@ == raw@,
            res matches Err(fault) ==> json_fault(raw@) == Some(fault@),
    {
        match read_fault(raw) {
            Some(fault) => Err(fault),
            None => Ok(JsonDoc { raw: clone_bytes(raw) }),
        }
    }

    /// The compact text of the value.
    pub fn compact(&self) -> (res: String)
        requires
            self.wf(),
        ensures
            json_compact(self@) == Some(res@),
    {
        match read_compact(self.raw.as_slice()) {
            Some(text) => text,
            None => String::new(),
        }
    }

    /// The text, where the value is a string.
    pub fn text(&self) -> (res: Option<String>)
        ensures
            opt_text(res) == json_text(self@),
    {
        read_text(self.raw.as_slice())
    }

    /// The truth value, where the value is a boolean.
    pub fn flag(&self) -> (res: Option<bool>)
        ensures
            res == json_flag(self@),
    {
        read_flag(self.raw.as_slice())
    }

    /// The text of a field.
    pub fn field_text(&self, field: &str) -> (res: Option<String>)
        ensures
            opt_text(res) == json_field_text(self@, field@),
    {
        read_field_text(self.raw.as_slice(), field)
    }

    /// The truth value of a field.
    pub fn field_flag(&self, field: &str) -> (res: Option<bool>)
        ensures
            res == json_field_flag(self@, field@),
    {
        read_field_flag(self.raw.as_slice(), field)
    }

    /// The text of an item of an array field.
    pub fn item_text(&self, field: &str, index: usize) -> (res: Option<String>)
        ensures
            opt_text(res) == json_item_text(self@, field@, index as nat),
    {
        read_item_text(self.raw.as_slice(), field, index)
    }

    /// The truth value of an item of an array field.
    pub fn item_flag(&self, field: &str, index: usize) -> (res: Option<bool>)
        ensures
            res == json_item_flag(self@, field@, index as nat),
    {
        read_item_flag(self.raw.as_slice(), field, index)
    }
}

/// The bytes that `serde_json::to_vec` writes for an object of two text fields.
pub uninterp spec fn json_pair_object(
    key1: Seq<char>,
    value1: Seq<char>,
    key2: Seq<char>,
    value2: Seq<char>,
) -> Seq<u8>;

/// `serde_json::to_vec` on a map of two text fields, which cannot fail: the bytes
/// depend on keys and values alone, they are JSON, and each field reads back as it
/// was given.
#[verifier::external_body]
pub(crate) fn write_pair_object(key1: &str, value1: &str, key2: &str, value2: &str) -> (res: Option<
    Vec<u8>,
>)
    requires
        key1@ != key2@,
    ensures
        res is Some,
        res->0@ == json_pair_object(key1@, value1@, key2@, value2@),
        json_fault(res->0@) is None,
        json_field_text(res->0@, key1@) == Some(value1@),
        json_field_text(res->0@, key2@) == Some(value2@),
{
    serde_json::to_vec(&std::collections::BTreeMap::from([(key1, value1), (key2, value2)])).ok()
}

/// The text that `serde_json::to_string` writes for an array of one text.
pub uninterp spec fn json_array1(item: Seq<char>) -> Seq<char>;

/// `serde_json::to_string` on an array of one text, which cannot fail.
#[verifier::external_body]
pub(crate) fn write_array1(item: &str) -> (res: Option<String>)
    ensures
        res is Some,
        res->0@ == json_array1(item@),
{
    serde_json::to_string(&[item]).ok()
}

/// The text that `serde_json::to_string` writes for an array of two texts.
pub uninterp spec fn json_array2(item1: Seq<char>, item2: Seq<char>) -> Seq<char>;

/// `serde_json::to_string` on an array of two texts, which cannot fail.
#[verifier::external_body]
pub(crate) fn write_array2(item1: &str, item2: &str) -> (res: Option<String>)
    ensures
        res is Some,
        res->0@ == json_array2(item1@, item2@),
{
    serde_json::to_string(&[item1, item2]).ok()
}

/// The text that `serde_json::to_string` writes for an array of a text and an
/// object with one text field.
pub uninterp spec fn json_text_and_field(
    item: Seq<char>,
    key: Seq<char>,
    value: Seq<char>,
) -> Seq<char>;

/// `serde_json::to_string` on a pair of a text and a map with one text field,
/// which cannot fail.
#[verifier::external_body]
pub(crate) fn write_text_and_field(item: &str, key: &str, value: &str) -> (res: Option<String>)
    ensures
        res is Some,
        res->0@ == json_text_and_field(item@, key@, value@),
{
    serde_json::to_string(&(item, std::collections::BTreeMap::from([(key, value)]))).ok()
}

/// The text that `serde_json::to_string` writes for an array of a text, a truth
/// value, a number and a text.
pub uninterp spec fn json_array4(
    item1: Seq<char>,
    item2: bool,
    item3: u64,
    item4: Seq<char>,
) -> Seq<char>;

/// `serde_json::to_string` on a text, a truth value, a number and a text, which
/// cannot fail.
#[verifier::external_body]
pub(crate) fn write_array4(item1: &str, item2: bool, item3: u64, item4: &str) -> (res: Option<
    String,
>)
    ensures
        res is Some,
        res->0@ == json_array4(item1@, item2, item3, item4@),
{
    serde_json::to_string(&(item1, item2, item3, item4)).ok()
}

} // verus!
