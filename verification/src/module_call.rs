//! Calls of methods of host modules, and the errors that their replies report.

use vstd::prelude::*;
use crate::json::{json_field_text, JsonDoc};
use crate::text::{opt_text, same_text};

verus! {

/// A call of a method of a module.
#[derive(Debug)]
pub struct ModuleCall {
    pub method: String,
    /// The arguments, a JSON array.
    pub args: String,
    pub timeout_ms: i32,
}

/// What a [`ModuleCall`] says.
#[verifier::ext_equal]
pub struct CallView {
    pub method: Seq<char>,
    pub args: Seq<char>,
    pub timeout_ms: i32,
}

impl View for ModuleCall {
    type V = CallView;

    open spec fn view(&self) -> CallView {
        CallView { method: self.method@, args: self.args@, timeout_ms: self.timeout_ms }
    }
}

/// Builds a call from written arguments.
pub(crate) fn module_call(method: &str, args: Option<String>, timeout_ms: i32) -> (res: ModuleCall)
    requires
        args is Some,
    ensures
        res@ == (CallView { method: method@, args: args->0@, timeout_ms }),
{
    let args = match args {
        Some(a) => a,
        None => String::new(),
    };
    ModuleCall { method: method.to_owned(), args, timeout_ms }
}

/// The error that a reply reports: the text `message` of a reply whose `kind` is
/// `error`, or else the text `error`.
pub open spec fn reported_error(doc: Seq<u8>) -> Option<Seq<char>> {
    if json_field_text(doc, "message"@) is Some && json_field_text(doc, "kind"@) == Some(
        "error"@,
    ) {
        json_field_text(doc, "message"@)
    } else {
        json_field_text(doc, "error"@)
    }
}

/// Pulls the error text out of a reply, if there is one.
pub fn error_message(doc: &JsonDoc) -> (res: Option<String>)
    ensures
        opt_text(res) == reported_error(doc@),
{
    let message = doc.field_text("message");
    let kind = doc.field_text("kind");
    if let Some(text) = message {
        if let Some(k) = kind {
            if same_text(k.as_str(), "error") {
                return Some(text);
            }
        }
    }
    doc.field_text("error")
}

/// A reply of the kind `error` reports its message; any other reply reports what it
/// gives as its error, and a reply with neither reports none.
pub proof fn a_reply_reports_its_error(doc: Seq<u8>, text: Seq<char>)
    ensures
        json_field_text(doc, "kind"@) == Some("error"@) && json_field_text(doc, "message"@) == Some(
            text,
        ) ==> reported_error(doc) == Some(text),
        json_field_text(doc, "kind"@) != Some("error"@) ==> reported_error(doc) == json_field_text(
            doc,
            "error"@,
        ),
        json_field_text(doc, "message"@) is None ==> reported_error(doc) == json_field_text(
            doc,
            "error"@,
        ),
{
}

} // verus!
