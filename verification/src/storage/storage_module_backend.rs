//! The backend that drives a `storage_module`: the calls of an upload and of a
//! download, and the decisions between them. Making the calls, polling for
//! events and reading files are the caller's.

use vstd::prelude::*;
use crate::codec::{base64_encode, base64_text};
use crate::json::{
    json_array1, json_array4, json_compact, json_fault, json_field_text, json_item_flag,
    json_item_text, json_text, json_text_and_field, write_array1, write_array4,
    write_text_and_field, JsonDoc,
};
use crate::module_call::{error_message, module_call, reported_error, CallView, ModuleCall};
use crate::storage::StorageError;
use crate::text::{join2, join3, opt_text, same_text};

verus! {

/// The module's name.
pub const MODULE: &'static str = "storage_module";

/// The event that ends a download.
pub const EVENT_DOWNLOAD_DONE: &'static str = "storageDownloadDone";

/// Size of an upload chunk: 1 MiB.
pub const CHUNK_BYTES: usize = 1_048_576;

/// Time limit of ordinary calls, in milliseconds.
pub const SHORT_TIMEOUT_MS: i32 = 30_000;

/// Time limit of downloads, in milliseconds.
pub const LONG_TIMEOUT_MS: i32 = 90_000;

/// The bytes of a reply.
pub open spec fn reply_bytes(text: String) -> Seq<u8> {
    vstd::utf8::encode_utf8(text@)
}

/// The message with which a reply fails to be a JSON document, or nothing.
pub open spec fn reply_fault(method: Seq<char>, raw: Result<String, String>) -> Option<Seq<char>> {
    match raw {
        Err(fault) => Some("storage_module call "@ + method + ": "@ + fault@),
        Ok(text) => match json_fault(reply_bytes(text)) {
            Some(fault) => Some("storage_module "@ + method + " bad JSON: "@ + fault),
            None => None,
        },
    }
}

/// What the module's reply to a call amounts to: a JSON document, or an error
/// that names the method.
pub fn read_reply(method: &str, raw: Result<String, String>) -> (res: Result<JsonDoc, StorageError>)
    ensures
        match reply_fault(method@, raw) {
            None => res is Ok && res->Ok_0.wf() && res->Ok_0@ == reply_bytes(raw->Ok_0),
            Some(fault) => res is Err && res->Err_0.is_http(fault),
        },
{
    match raw {
        Ok(text) => match JsonDoc::parse(text.as_str().as_bytes()) {
            Ok(doc) => Ok(doc),
            Err(fault) => Err(
                StorageError::Http(
                    join3(
                        join2("storage_module ", method).as_str(),
                        " bad JSON: ",
                        fault.as_str(),
                    ),
                ),
            ),
        },
        Err(fault) => Err(
            StorageError::Http(
                join3(join2("storage_module call ", method).as_str(), ": ", fault.as_str()),
            ),
        ),
    }
}

/// The value that a reply gives: the reply itself where it is a text, or else,
/// unless the reply reports an error, the text of a field.
pub open spec fn reply_value(doc: Seq<u8>, field: Seq<char>) -> Option<Seq<char>> {
    if json_text(doc) is Some {
        json_text(doc)
    } else if reported_error(doc) is Some {
        None
    } else {
        json_field_text(doc, field)
    }
}

/// The message with which a reply gives no value.
pub open spec fn missing_value(doc: Seq<u8>, field: Seq<char>) -> Seq<char> {
    match reported_error(doc) {
        Some(text) => text,
        None => "missing `"@ + field + "` in storage_module response: "@ + json_compact(doc)->0,
    }
}

/// Reads the value that a reply gives, or the error that it reports.
pub fn extract_value(doc: &JsonDoc, field: &str) -> (res: Result<String, StorageError>)
    requires
        doc.wf(),
    ensures
        match reply_value(doc@, field@) {
            Some(text) => res is Ok && res->Ok_0@ == text,
            None => res is Err && res->Err_0.is_http(missing_value(doc@, field@)),
        },
{
    if let Some(text) = doc.text() {
        return Ok(text);
    }
    if let Some(err) = error_message(doc) {
        return Err(StorageError::Http(err));
    }
    match doc.field_text(field) {
        Some(text) => Ok(text),
        None => Err(
            StorageError::Http(
                join3(
                    join2("missing `", field).as_str(),
                    "` in storage_module response: ",
                    doc.compact().as_str(),
                ),
            ),
        ),
    }
}

// ---- upload ----

/// The `k`-th chunk of some data.
pub open spec fn chunk(data: Seq<u8>, k: nat) -> Seq<u8> {
    data.subrange(
        k * CHUNK_BYTES,
        if (k + 1) * CHUNK_BYTES < data.len() {
            (k + 1) * CHUNK_BYTES
        } else {
            data.len() as int
        },
    )
}

/// The first `n` chunks put together.
pub open spec fn chunks_joined(data: Seq<u8>, n: nat) -> Seq<u8>
    decreases n,
{
    if n == 0 {
        seq![]
    } else {
        chunks_joined(data, (n - 1) as nat) + chunk(data, (n - 1) as nat)
    }
}

/// Where an upload stands: which reply is awaited.
#[verifier::ext_equal]
pub enum UploadStage {
    /// The reply to `uploadInit`.
    Opening,
    /// The reply to `uploadChunk` for the chunk of the given number.
    Sending { session: Seq<char>, number: nat },
    /// The reply to `uploadFinalize`.
    Closing { session: Seq<char> },
    /// None: the upload is over.
    Over,
}

/// What to do next in an upload.
#[derive(Debug)]
pub enum UploadAction {
    /// Make a call of the module.
    Call(ModuleCall),
    /// Make a call of the module, whatever comes of it, and fail.
    CancelAndFail(ModuleCall, StorageError),
    /// The upload failed.
    Fail(StorageError),
    /// The data is stored under this content identifier.
    Done(String),
}

/// What an [`UploadAction`] says.
#[verifier::ext_equal]
pub enum UploadDecision {
    Call(CallView),
    CancelAndFail(CallView, Seq<char>),
    Fail(Seq<char>),
    Done(Seq<char>),
}

impl UploadAction {
    /// Whether the action is what was decided.
    pub open spec fn is(&self, decision: UploadDecision) -> bool {
        match decision {
            UploadDecision::Call(call) => *self matches UploadAction::Call(c) && c@ == call,
            UploadDecision::CancelAndFail(call, text) => *self matches UploadAction::CancelAndFail(
                c,
                e,
            ) && c@ == call && e.is_http(text),
            UploadDecision::Fail(text) => *self matches UploadAction::Fail(e) && e.is_http(text),
            UploadDecision::Done(cid) => *self matches UploadAction::Done(t) && t@ == cid,
        }
    }
}

/// The call that opens an upload.
pub open spec fn open_call() -> CallView {
    CallView {
        method: "uploadInit"@,
        args: "[\"audit.log\", 1048576]"@,
        timeout_ms: SHORT_TIMEOUT_MS,
    }
}

/// The call that sends a chunk, in Base64.
pub open spec fn chunk_call(session: Seq<char>, bytes: Seq<u8>) -> CallView {
    CallView {
        method: "uploadChunk"@,
        args: json_text_and_field(session, "__base64__"@, base64_text(bytes)),
        timeout_ms: SHORT_TIMEOUT_MS,
    }
}

/// A call that names only the session.
pub open spec fn session_call(method: Seq<char>, session: Seq<char>) -> CallView {
    CallView { method, args: json_array1(session), timeout_ms: SHORT_TIMEOUT_MS }
}

/// What follows once `number` chunks are stored: the next chunk, or the end of
/// the session where none is left.
pub open spec fn next_upload_call(data: Seq<u8>, session: Seq<char>, number: nat) -> (
    UploadStage,
    UploadDecision,
) {
    if number * CHUNK_BYTES < data.len() {
        (
            UploadStage::Sending { session, number },
            UploadDecision::Call(chunk_call(session, chunk(data, number))),
        )
    } else {
        (
            UploadStage::Closing { session },
            UploadDecision::Call(session_call("uploadFinalize"@, session)),
        )
    }
}

/// The error that a reply to a chunk reports: only one whose `kind` is `error`
/// counts.
pub open spec fn chunk_error(doc: Seq<u8>) -> Option<Seq<char>> {
    if json_field_text(doc, "kind"@) == Some("error"@) {
        json_field_text(doc, "message"@)
    } else {
        None
    }
}

/// What follows a reply.
pub open spec fn upload_decided(
    data: Seq<u8>,
    stage: UploadStage,
    raw: Result<String, String>,
) -> (UploadStage, UploadDecision) {
    match stage {
        UploadStage::Opening => match reply_fault("uploadInit"@, raw) {
            Some(fault) => (UploadStage::Over, UploadDecision::Fail(fault)),
            None => match reply_value(reply_bytes(raw->Ok_0), "value"@) {
                Some(session) => next_upload_call(data, session, 0),
                None => (
                    UploadStage::Over,
                    UploadDecision::Fail(missing_value(reply_bytes(raw->Ok_0), "value"@)),
                ),
            },
        },
        UploadStage::Sending { session, number } => match reply_fault("uploadChunk"@, raw) {
            Some(fault) => (UploadStage::Over, UploadDecision::Fail(fault)),
            None => match chunk_error(reply_bytes(raw->Ok_0)) {
                Some(text) => (
                    UploadStage::Over,
                    UploadDecision::CancelAndFail(
                        session_call("uploadCancel"@, session),
                        "uploadChunk: "@ + text,
                    ),
                ),
                None => next_upload_call(data, session, number + 1),
            },
        },
        UploadStage::Closing { session } => match reply_fault("uploadFinalize"@, raw) {
            Some(fault) => (UploadStage::Over, UploadDecision::Fail(fault)),
            None => match reply_value(reply_bytes(raw->Ok_0), "value"@) {
                Some(cid) => (UploadStage::Over, UploadDecision::Done(cid)),
                None => (
                    UploadStage::Over,
                    UploadDecision::Fail(missing_value(reply_bytes(raw->Ok_0), "value"@)),
                ),
            },
        },
        UploadStage::Over => (UploadStage::Over, UploadDecision::Fail("upload is over"@)),
    }
}

#[derive(Debug)]
enum Awaited {
    Opening,
    Sending,
    Closing,
    Over,
}

/// An upload under way.
#[derive(Debug)]
pub struct UploadRun {
    data: Vec<u8>,
    awaited: Awaited,
    session: String,
    number: usize,
}

impl UploadRun {
    /// The data to store.
    pub closed spec fn data(&self) -> Seq<u8> {
        self.data@
    }

    /// Where the upload stands.
    pub closed spec fn stage(&self) -> UploadStage {
        match self.awaited {
            Awaited::Opening => UploadStage::Opening,
            Awaited::Sending => UploadStage::Sending {
                session: self.session@,
                number: self.number as nat,
            },
            Awaited::Closing => UploadStage::Closing { session: self.session@ },
            Awaited::Over => UploadStage::Over,
        }
    }

    /// A chunk under way is one that the data has.
    pub open spec fn wf(&self) -> bool {
        self.stage() matches UploadStage::Sending { session, number } ==> number * CHUNK_BYTES
            < self.data().len()
    }

    /// Begins an upload, and returns the call that opens it.
    pub fn begin(data: Vec<u8>) -> (res: (UploadRun, ModuleCall))
        ensures
            res.0.wf(),
            res.0.data() == data@,
            res.0.stage() == UploadStage::Opening,
            res.1@ == open_call(),
    {
        let call = module_call(
            "uploadInit",
            Some("[\"audit.log\", 1048576]".to_owned()),
            SHORT_TIMEOUT_MS,
        );
        (UploadRun { data, awaited: Awaited::Opening, session: String::new(), number: 0 }, call)
    }

    /// Takes the reply to the last call and decides what follows: after the
    /// session is open each chunk in turn, and at the end the content
    /// identifier. A refused chunk cancels the session.
    pub fn step(&mut self, raw: Result<String, String>) -> (res: UploadAction)
        requires
            old(self).wf(),
        ensures
            final(self).wf(),
            final(self).data() == old(self).data(),
            final(self).stage() == upload_decided(old(self).data(), old(self).stage(), raw).0,
            res.is(upload_decided(old(self).data(), old(self).stage(), raw).1),
    {
        match self.awaited {
            Awaited::Opening => {
                self.awaited = Awaited::Over;
                let doc = match read_reply("uploadInit", raw) {
                    Ok(d) => d,
                    Err(e) => return UploadAction::Fail(e),
                };
                match extract_value(&doc, "value") {
                    Ok(session) => {
                        self.session = session;
                        self.number = 0;
                        self.next_call()
                    },
                    Err(e) => UploadAction::Fail(e),
                }
            },
            Awaited::Sending => {
                self.awaited = Awaited::Over;
                let doc = match read_reply("uploadChunk", raw) {
                    Ok(d) => d,
                    Err(e) => return UploadAction::Fail(e),
                };
                let kind = doc.field_text("kind");
                let message = doc.field_text("message");
                if let Some(k) = kind {
                    if same_text(k.as_str(), "error") {
                        if let Some(text) = message {
                            let cancel = module_call(
                                "uploadCancel",
                                write_array1(self.session.as_str()),
                                SHORT_TIMEOUT_MS,
                            );
                            return UploadAction::CancelAndFail(
                                cancel,
                                StorageError::Http(join2("uploadChunk: ", text.as_str())),
                            );
                        }
                    }
                }
                assert((self.number + 1) * CHUNK_BYTES <= self.data.len() + CHUNK_BYTES);
                self.number = self.number + 1;
                self.next_call()
            },
            Awaited::Closing => {
                self.awaited = Awaited::Over;
                let doc = match read_reply("uploadFinalize", raw) {
                    Ok(d) => d,
                    Err(e) => return UploadAction::Fail(e),
                };
                match extract_value(&doc, "value") {
                    Ok(cid) => UploadAction::Done(cid),
                    Err(e) => UploadAction::Fail(e),
                }
            },
            Awaited::Over => UploadAction::Fail(StorageError::Http("upload is over".to_owned())),
        }
    }

    /// The call for the next chunk, or the one that ends the session.
    fn next_call(&mut self) -> (res: UploadAction)
        requires
            old(self).number == 0 || (old(self).number - 1) * CHUNK_BYTES < old(self).data@.len(),
        ensures
            final(self).wf(),
            final(self).data() == old(self).data(),
            final(self).stage() == next_upload_call(
                old(self).data(),
                old(self).session@,
                old(self).number as nat,
            ).0,
            res.is(
                next_upload_call(old(self).data(), old(self).session@, old(self).number as nat).1,
            ),
    {
        let n: usize = self.number;
        let len: usize = self.data.len();
        if n <= len / CHUNK_BYTES && n * CHUNK_BYTES < len {
            let from: usize = n * CHUNK_BYTES;
            let to: usize = if len - from > CHUNK_BYTES {
                from + CHUNK_BYTES
            } else {
                len
            };
            let piece = vstd::slice::slice_subrange(self.data.as_slice(), from, to);
            assert(piece@ =~= chunk(self.data@, n as nat));
            let encoded = base64_encode(piece);
            let args = write_text_and_field(self.session.as_str(), "__base64__", encoded.as_str());
            self.awaited = Awaited::Sending;
            UploadAction::Call(module_call("uploadChunk", args, SHORT_TIMEOUT_MS))
        } else {
            self.awaited = Awaited::Closing;
            UploadAction::Call(
                module_call(
                    "uploadFinalize",
                    write_array1(self.session.as_str()),
                    SHORT_TIMEOUT_MS,
                ),
            )
        }
    }
}

/// The chunks of an upload, put together, are the data: once the session ends,
/// every byte was sent exactly once and in order.
pub proof fn chunks_cover_the_data(data: Seq<u8>, n: nat)
    ensures
        n * CHUNK_BYTES <= data.len() ==> chunks_joined(data, n) == data.take(
            (n * CHUNK_BYTES) as int,
        ),
        n * CHUNK_BYTES >= data.len() && (n == 0 || (n - 1) * CHUNK_BYTES < data.len())
            ==> chunks_joined(data, n) == data,
    decreases n,
{
    if n == 0 {
        assert(data.take(0) =~= seq![]);
        if data.len() == 0 {
            assert(data =~= seq![]);
        }
    } else {
        chunks_cover_the_data(data, (n - 1) as nat);
        let m = ((n - 1) * CHUNK_BYTES) as int;
        assert(n * CHUNK_BYTES == m + CHUNK_BYTES);
        if m < data.len() {
            if n * CHUNK_BYTES <= data.len() {
                assert(data.take(m) + chunk(data, (n - 1) as nat) =~= data.take(
                    (n * CHUNK_BYTES) as int,
                ));
            }
            if n * CHUNK_BYTES >= data.len() {
                assert(data.take(m) + chunk(data, (n - 1) as nat) =~= data);
            }
        }
    }
}

// ---- download ----

/// Where a download stands: what is awaited.
#[derive(Debug, Clone, Copy, PartialEq, Eq, Structural)]
pub enum DownloadStage {
    /// The answer to listening for [`EVENT_DOWNLOAD_DONE`].
    Listening,
    /// A temporary file.
    MakingFile,
    /// The reply to `downloadChunks`.
    Starting,
    /// An event.
    Waiting,
    /// The contents of the file.
    Reading,
    /// Nothing: the download is over.
    Over,
}

/// What happened to a download.
#[derive(Debug)]
pub enum DownloadEvent {
    /// Listening was accepted or refused.
    Listened(Result<(), String>),
    /// The path of a temporary file.
    File(Result<String, String>),
    /// The module replied.
    Replied(Result<String, String>),
    /// An event came, or none in time.
    Polled(Result<Option<String>, String>),
    /// The file was read.
    ReadBack(Result<Vec<u8>, String>),
}

/// What to do next in a download.
#[derive(Debug)]
pub enum DownloadAction {
    /// Make a temporary file.
    MakeFile,
    /// Make a call of the module.
    Call(ModuleCall),
    /// Wait for the next event.
    Poll,
    /// Read the file.
    Read,
    /// The download failed.
    Fail(StorageError),
    /// The data.
    Done(Vec<u8>),
}

/// What a [`DownloadAction`] says.
#[verifier::ext_equal]
pub enum DownloadDecision {
    MakeFile,
    Call(CallView),
    Poll,
    Read,
    Fail(Seq<char>),
    Done(Seq<u8>),
}

impl DownloadAction {
    /// Whether the action is what was decided.
    pub open spec fn is(&self, decision: DownloadDecision) -> bool {
        match decision {
            DownloadDecision::MakeFile => *self is MakeFile,
            DownloadDecision::Call(call) => *self matches DownloadAction::Call(c) && c@ == call,
            DownloadDecision::Poll => *self is Poll,
            DownloadDecision::Read => *self is Read,
            DownloadDecision::Fail(text) => *self matches DownloadAction::Fail(e) && e.is_http(
                text,
            ),
            DownloadDecision::Done(data) => *self matches DownloadAction::Done(d) && d@ == data,
        }
    }
}

/// The call that starts a download into a file.
pub open spec fn download_call(cid: Seq<char>, path: Seq<char>) -> CallView {
    CallView {
        method: "downloadChunks"@,
        args: json_array4(cid, false, CHUNK_BYTES as u64, path),
        timeout_ms: LONG_TIMEOUT_MS,
    }
}

/// The error with which a download does not even start: the text `error`, or
/// else the text `message` of a reply whose `kind` is `error`.
pub open spec fn start_error(doc: Seq<u8>) -> Option<Seq<char>> {
    if json_field_text(doc, "error"@) is Some {
        json_field_text(doc, "error"@)
    } else {
        chunk_error(doc)
    }
}

/// What an event means to the download of `cid`: events of other kinds and of
/// other downloads are passed over; the right one ends the waiting, with the
/// outcome that it reports.
pub open spec fn event_decided(cid: Seq<char>, doc: Seq<u8>) -> (DownloadStage, DownloadDecision) {
    match json_fault(doc) {
        Some(fault) => (DownloadStage::Over, DownloadDecision::Fail("event JSON: "@ + fault)),
        None => {
            let event_cid = match json_item_text(doc, "data"@, 1) {
                Some(text) => text,
                None => ""@,
            };
            if json_field_text(doc, "event"@) != Some(EVENT_DOWNLOAD_DONE@) || event_cid != cid {
                (DownloadStage::Waiting, DownloadDecision::Poll)
            } else if json_item_flag(doc, "data"@, 0) == Some(true) {
                (DownloadStage::Reading, DownloadDecision::Read)
            } else {
                (
                    DownloadStage::Over,
                    DownloadDecision::Fail("storageDownloadDone reported failure for "@ + cid),
                )
            }
        },
    }
}

/// What follows an event in a download. An event that does not belong to the
/// stage ends it.
pub open spec fn download_decided(cid: Seq<char>, stage: DownloadStage, event: DownloadEvent) -> (
    DownloadStage,
    DownloadDecision,
) {
    match (stage, event) {
        (DownloadStage::Listening, DownloadEvent::Listened(Ok(()))) => (
            DownloadStage::MakingFile,
            DownloadDecision::MakeFile,
        ),
        (DownloadStage::Listening, DownloadEvent::Listened(Err(e))) => (
            DownloadStage::Over,
            DownloadDecision::Fail("listen: "@ + e@),
        ),
        (DownloadStage::MakingFile, DownloadEvent::File(Ok(path))) => (
            DownloadStage::Starting,
            DownloadDecision::Call(download_call(cid, path@)),
        ),
        (DownloadStage::MakingFile, DownloadEvent::File(Err(e))) => (
            DownloadStage::Over,
            DownloadDecision::Fail("tempfile: "@ + e@),
        ),
        (DownloadStage::Starting, DownloadEvent::Replied(raw)) => match reply_fault(
            "downloadChunks"@,
            raw,
        ) {
            Some(fault) => (DownloadStage::Over, DownloadDecision::Fail(fault)),
            None => match start_error(reply_bytes(raw->Ok_0)) {
                Some(text) => (
                    DownloadStage::Over,
                    DownloadDecision::Fail("downloadChunks: "@ + text),
                ),
                None => (DownloadStage::Waiting, DownloadDecision::Poll),
            },
        },
        (DownloadStage::Waiting, DownloadEvent::Polled(Err(e))) => (
            DownloadStage::Over,
            DownloadDecision::Fail("poll_event: "@ + e@),
        ),
        (DownloadStage::Waiting, DownloadEvent::Polled(Ok(None))) => (
            DownloadStage::Over,
            DownloadDecision::Fail("storageDownloadDone timed out for "@ + cid),
        ),
        (DownloadStage::Waiting, DownloadEvent::Polled(Ok(Some(json)))) => event_decided(
            cid,
            reply_bytes(json),
        ),
        (DownloadStage::Reading, DownloadEvent::ReadBack(Ok(data))) => (
            DownloadStage::Over,
            DownloadDecision::Done(data@),
        ),
        (DownloadStage::Reading, DownloadEvent::ReadBack(Err(e))) => (
            DownloadStage::Over,
            DownloadDecision::Fail("read back tempfile: "@ + e@),
        ),
        _ => (DownloadStage::Over, DownloadDecision::Fail("download is over"@)),
    }
}

fn fail_download(prefix: &str, text: &str) -> (res: (DownloadStage, DownloadAction))
    ensures
        res.0 == DownloadStage::Over,
        res.1.is(DownloadDecision::Fail(prefix@ + text@)),
{
    (
        DownloadStage::Over,
        DownloadAction::Fail(StorageError::Http(join2(prefix, text))),
    )
}

/// Reads the message of a reply whose `kind` is `error`.
fn read_chunk_error(doc: &JsonDoc) -> (res: Option<String>)
    ensures
        opt_text(res) == chunk_error(doc@),
{
    match doc.field_text("kind") {
        Some(kind) => {
            if same_text(kind.as_str(), "error") {
                doc.field_text("message")
            } else {
                None
            }
        },
        None => None,
    }
}

/// Reads what an event means to the download of `cid`.
fn read_download_event(cid: &str, json: &str) -> (res: (DownloadStage, DownloadAction))
    ensures
        res.0 == event_decided(cid@, vstd::utf8::encode_utf8(json@)).0,
        res.1.is(event_decided(cid@, vstd::utf8::encode_utf8(json@)).1),
{
    let doc = match JsonDoc::parse(json.as_bytes()) {
        Ok(d) => d,
        Err(fault) => return fail_download("event JSON: ", fault.as_str()),
    };
    let known = match doc.field_text("event") {
        Some(event) => same_text(event.as_str(), EVENT_DOWNLOAD_DONE),
        None => false,
    };
    let event_cid = match doc.item_text("data", 1) {
        Some(text) => text,
        None => "".to_owned(),
    };
    if !known || !same_text(event_cid.as_str(), cid) {
        return (DownloadStage::Waiting, DownloadAction::Poll);
    }
    let success = match doc.item_flag("data", 0) {
        Some(flag) => flag,
        None => false,
    };
    if success {
        (DownloadStage::Reading, DownloadAction::Read)
    } else {
        fail_download("storageDownloadDone reported failure for ", cid)
    }
}

/// Decides what follows an event in the download of `cid`.
pub fn download_step(cid: &str, stage: DownloadStage, event: DownloadEvent) -> (res: (
    DownloadStage,
    DownloadAction,
))
    ensures
        res.0 == download_decided(cid@, stage, event).0,
        res.1.is(download_decided(cid@, stage, event).1),
{
    match (stage, event) {
        (DownloadStage::Listening, DownloadEvent::Listened(Ok(()))) => (
            DownloadStage::MakingFile,
            DownloadAction::MakeFile,
        ),
        (DownloadStage::Listening, DownloadEvent::Listened(Err(e))) => fail_download(
            "listen: ",
            e.as_str(),
        ),
        (DownloadStage::MakingFile, DownloadEvent::File(Ok(path))) => {
            let args = write_array4(cid, false, CHUNK_BYTES as u64, path.as_str());
            let call = module_call("downloadChunks", args, LONG_TIMEOUT_MS);
            (DownloadStage::Starting, DownloadAction::Call(call))
        },
        (DownloadStage::MakingFile, DownloadEvent::File(Err(e))) => fail_download(
            "tempfile: ",
            e.as_str(),
        ),
        (DownloadStage::Starting, DownloadEvent::Replied(raw)) => {
            let doc = match read_reply("downloadChunks", raw) {
                Ok(d) => d,
                Err(e) => return (DownloadStage::Over, DownloadAction::Fail(e)),
            };
            if let Some(err) = doc.field_text("error") {
                return fail_download("downloadChunks: ", err.as_str());
            }
            if let Some(err) = read_chunk_error(&doc) {
                return fail_download("downloadChunks: ", err.as_str());
            }
            (DownloadStage::Waiting, DownloadAction::Poll)
        },
        (DownloadStage::Waiting, DownloadEvent::Polled(Err(e))) => fail_download(
            "poll_event: ",
            e.as_str(),
        ),
        (DownloadStage::Waiting, DownloadEvent::Polled(Ok(None))) => fail_download(
            "storageDownloadDone timed out for ",
            cid,
        ),
        (DownloadStage::Waiting, DownloadEvent::Polled(Ok(Some(json)))) => read_download_event(
            cid,
            json.as_str(),
        ),
        (DownloadStage::Reading, DownloadEvent::ReadBack(Ok(data))) => (
            DownloadStage::Over,
            DownloadAction::Done(data),
        ),
        (DownloadStage::Reading, DownloadEvent::ReadBack(Err(e))) => fail_download(
            "read back tempfile: ",
            e.as_str(),
        ),
        _ => (
            DownloadStage::Over,
            DownloadAction::Fail(StorageError::Http("download is over".to_owned())),
        ),
    }
}

/// A download hands out data only after the event that reports its success: from
/// the start of waiting, only such an event leads on to reading.
pub proof fn data_only_after_success(cid: Seq<char>, stage: DownloadStage, event: DownloadEvent)
    ensures
        download_decided(cid, stage, event).1 is Done ==> stage == DownloadStage::Reading,
        download_decided(cid, stage, event).0 == DownloadStage::Reading ==> {
            &&& stage == DownloadStage::Waiting
            &&& event matches DownloadEvent::Polled(Ok(Some(json))) && json_field_text(
                reply_bytes(json),
                "event"@,
            ) == Some(EVENT_DOWNLOAD_DONE@) && json_item_flag(reply_bytes(json), "data"@, 0)
                == Some(true) && (json_item_text(reply_bytes(json), "data"@, 1) == Some(cid) || (
            json_item_text(reply_bytes(json), "data"@, 1) is None && cid == ""@))
        },
{
}

/// A reply gives its text where it is one. A reply that reports an error gives no
/// value, whatever else it holds, and the error is told; any other reply gives the
/// text of the field that is asked for.
pub proof fn an_error_is_no_value(doc: Seq<u8>, field: Seq<char>)
    ensures
        json_text(doc) is Some ==> reply_value(doc, field) == json_text(doc),
        json_text(doc) is None && reported_error(doc) is Some ==> reply_value(doc, field) is None
            && missing_value(doc, field) == reported_error(doc)->0,
        json_text(doc) is None && reported_error(doc) is None ==> reply_value(doc, field)
            == json_field_text(doc, field),
{
}

/// A reply that was taken for a chunk leads to the next chunk of the data, as long as
/// there is one, and to the end of the session only once the chunks that were sent are
/// all of the data.
pub proof fn an_upload_ends_only_after_all_the_data(
    data: Seq<u8>,
    session: Seq<char>,
    number: nat,
    raw: Result<String, String>,
)
    requires
        number * CHUNK_BYTES < data.len(),
        raw is Ok,
        json_fault(reply_bytes(raw->Ok_0)) is None,
        json_field_text(reply_bytes(raw->Ok_0), "kind"@) != Some("error"@),
    ensures
        ({
            let next = upload_decided(data, UploadStage::Sending { session, number }, raw);
            &&& next.0 is Closing ==> chunks_joined(data, number + 1) == data && next
                == (
                UploadStage::Closing { session },
                UploadDecision::Call(
                    CallView {
                        method: "uploadFinalize"@,
                        args: json_array1(session),
                        timeout_ms: SHORT_TIMEOUT_MS,
                    },
                ),
            )
            &&& !(next.0 is Closing) ==> {
                &&& next.0 == UploadStage::Sending { session, number: number + 1 }
                &&& (number + 1) * CHUNK_BYTES < data.len()
                &&& next.1 == UploadDecision::Call(
                    CallView {
                        method: "uploadChunk"@,
                        args: json_text_and_field(
                            session,
                            "__base64__"@,
                            base64_text(
                                data.subrange(
                                    (number + 1) * CHUNK_BYTES,
                                    if (number + 2) * CHUNK_BYTES < data.len() {
                                        (number + 2) * CHUNK_BYTES
                                    } else {
                                        data.len() as int
                                    },
                                ),
                            ),
                        ),
                        timeout_ms: SHORT_TIMEOUT_MS,
                    },
                )
            }
        }),
{
    chunks_cover_the_data(data, number + 1);
    assert((number + 1 + 1) * CHUNK_BYTES == (number + 2) * CHUNK_BYTES);
}

/// Once the session is open, the upload starts with the first chunk of the data, or
/// ends the session at once where there is no data.
pub proof fn an_upload_starts_at_the_beginning(
    data: Seq<u8>,
    raw: Result<String, String>,
    session: Seq<char>,
)
    requires
        raw is Ok,
        json_fault(reply_bytes(raw->Ok_0)) is None,
        json_text(reply_bytes(raw->Ok_0)) == Some(session),
    ensures
        data.len() == 0 ==> upload_decided(data, UploadStage::Opening, raw).0
            == (UploadStage::Closing { session }),
        data.len() > 0 ==> upload_decided(data, UploadStage::Opening, raw) == (
            UploadStage::Sending { session, number: 0 },
            UploadDecision::Call(
                CallView {
                    method: "uploadChunk"@,
                    args: json_text_and_field(
                        session,
                        "__base64__"@,
                        base64_text(
                            data.take(
                                if CHUNK_BYTES < data.len() {
                                    CHUNK_BYTES as int
                                } else {
                                    data.len() as int
                                },
                            ),
                        ),
                    ),
                    timeout_ms: SHORT_TIMEOUT_MS,
                },
            ),
        ),
{
    if data.len() > 0 {
        assert(chunk(data, 0) =~= data.take(
            if CHUNK_BYTES < data.len() {
                CHUNK_BYTES as int
            } else {
                data.len() as int
            },
        ));
    }
}

/// Data is stored only under the identifier that the module gave when the session
/// ended.
pub proof fn an_identifier_comes_only_at_the_end(
    data: Seq<u8>,
    stage: UploadStage,
    raw: Result<String, String>,
)
    ensures
        upload_decided(data, stage, raw).1 is Done ==> {
            &&& stage is Closing
            &&& raw is Ok
            &&& reply_value(reply_bytes(raw->Ok_0), "value"@) == Some(
                upload_decided(data, stage, raw).1->Done_0,
            )
        },
        stage is Closing && raw is Ok && json_fault(reply_bytes(raw->Ok_0)) is None && reply_value(
            reply_bytes(raw->Ok_0),
            "value"@,
        ) is Some ==> upload_decided(data, stage, raw).1 is Done,
{
}

/// A refused chunk cancels the session that it belongs to and ends the upload with the
/// reason; a reply that cannot be read ends it too.
pub proof fn a_refused_chunk_cancels_its_session(
    data: Seq<u8>,
    session: Seq<char>,
    number: nat,
    raw: Result<String, String>,
    text: Seq<char>,
)
    ensures
        raw is Ok && json_fault(reply_bytes(raw->Ok_0)) is None && json_field_text(
            reply_bytes(raw->Ok_0),
            "kind"@,
        ) == Some("error"@) && json_field_text(reply_bytes(raw->Ok_0), "message"@) == Some(text)
            ==> upload_decided(data, UploadStage::Sending { session, number }, raw) == (
            UploadStage::Over,
            UploadDecision::CancelAndFail(
                CallView {
                    method: "uploadCancel"@,
                    args: json_array1(session),
                    timeout_ms: SHORT_TIMEOUT_MS,
                },
                "uploadChunk: "@ + text,
            ),
        ),
        raw is Err || json_fault(reply_bytes(raw->Ok_0)) is Some ==> {
            &&& upload_decided(data, UploadStage::Sending { session, number }, raw).0 is Over
            &&& upload_decided(data, UploadStage::Sending { session, number }, raw).1 is Fail
        },
{
}

/// A download that goes well: listening, a file, the call for this content into this
/// file, the event that reports its success, and the data that was read.
pub proof fn a_download_that_goes_well(
    cid: Seq<char>,
    path: String,
    reply: String,
    event: String,
    data: Vec<u8>,
)
    requires
        json_fault(reply_bytes(reply)) is None,
        json_field_text(reply_bytes(reply), "error"@) is None,
        json_field_text(reply_bytes(reply), "kind"@) is None,
        json_fault(reply_bytes(event)) is None,
        json_field_text(reply_bytes(event), "event"@) == Some("storageDownloadDone"@),
        json_item_text(reply_bytes(event), "data"@, 1) == Some(cid),
        json_item_flag(reply_bytes(event), "data"@, 0) == Some(true),
    ensures
        download_decided(cid, DownloadStage::Listening, DownloadEvent::Listened(Ok(()))) == (
            DownloadStage::MakingFile,
            DownloadDecision::MakeFile,
        ),
        download_decided(cid, DownloadStage::MakingFile, DownloadEvent::File(Ok(path))) == (
            DownloadStage::Starting,
            DownloadDecision::Call(
                CallView {
                    method: "downloadChunks"@,
                    args: json_array4(cid, false, 1_048_576, path@),
                    timeout_ms: 90_000,
                },
            ),
        ),
        download_decided(cid, DownloadStage::Starting, DownloadEvent::Replied(Ok(reply))) == (
            DownloadStage::Waiting,
            DownloadDecision::Poll,
        ),
        download_decided(cid, DownloadStage::Waiting, DownloadEvent::Polled(Ok(Some(event)))) == (
            DownloadStage::Reading,
            DownloadDecision::Read,
        ),
        download_decided(cid, DownloadStage::Reading, DownloadEvent::ReadBack(Ok(data))) == (
            DownloadStage::Over,
            DownloadDecision::Done(data@),
        ),
{
}

/// While it waits, a download passes over the events of other downloads and of other
/// kinds; the event of its own that does not report success ends it, and so do silence
/// and a failure to poll.
pub proof fn a_download_waits_for_its_own_event(cid: Seq<char>, event: String, e: String)
    ensures
        json_fault(reply_bytes(event)) is None && (json_field_text(reply_bytes(event), "event"@)
            != Some("storageDownloadDone"@) || (json_item_text(reply_bytes(event), "data"@, 1)
            is Some && json_item_text(reply_bytes(event), "data"@, 1) != Some(cid)))
            ==> download_decided(
            cid,
            DownloadStage::Waiting,
            DownloadEvent::Polled(Ok(Some(event))),
        ) == (DownloadStage::Waiting, DownloadDecision::Poll),
        json_fault(reply_bytes(event)) is None && json_field_text(reply_bytes(event), "event"@)
            == Some("storageDownloadDone"@) && json_item_text(reply_bytes(event), "data"@, 1)
            == Some(cid) && json_item_flag(reply_bytes(event), "data"@, 0) != Some(true)
            ==> download_decided(
            cid,
            DownloadStage::Waiting,
            DownloadEvent::Polled(Ok(Some(event))),
        ).1 is Fail,
        download_decided(cid, DownloadStage::Waiting, DownloadEvent::Polled(Ok(None))).1 is Fail,
        download_decided(cid, DownloadStage::Waiting, DownloadEvent::Polled(Err(e))).1 is Fail,
        download_decided(cid, DownloadStage::Reading, DownloadEvent::ReadBack(Err(e))).1 is Fail,
        download_decided(cid, DownloadStage::Listening, DownloadEvent::Listened(Err(e))).1 is Fail,
        download_decided(cid, DownloadStage::MakingFile, DownloadEvent::File(Err(e))).1 is Fail,
{
}

/// A download that the module refuses does not start: an error that the reply reports
/// in either form ends it.
pub proof fn a_refused_download_does_not_start(cid: Seq<char>, reply: String, text: Seq<char>)
    requires
        json_fault(reply_bytes(reply)) is None,
    ensures
        json_field_text(reply_bytes(reply), "error"@) == Some(text) ==> download_decided(
            cid,
            DownloadStage::Starting,
            DownloadEvent::Replied(Ok(reply)),
        ) == (DownloadStage::Over, DownloadDecision::Fail("downloadChunks: "@ + text)),
        json_field_text(reply_bytes(reply), "error"@) is None && json_field_text(
            reply_bytes(reply),
            "kind"@,
        ) == Some("error"@) && json_field_text(reply_bytes(reply), "message"@) == Some(text)
            ==> download_decided(
            cid,
            DownloadStage::Starting,
            DownloadEvent::Replied(Ok(reply)),
        ) == (DownloadStage::Over, DownloadDecision::Fail("downloadChunks: "@ + text)),
{
}

/// The module is told the size of the chunks that it then gets: one mebibyte.
pub proof fn the_module_is_told_the_chunk_size()
    ensures
        open_call().args == "[\"audit.log\", "@ + crate::text::decimal(CHUNK_BYTES as nat) + "]"@,
        open_call().method == "uploadInit"@,
        CHUNK_BYTES == 1024 * 1024,
{
    reveal_strlit("[\"audit.log\", 1048576]");
    reveal_strlit("[\"audit.log\", ");
    reveal_strlit("]");
    reveal_with_fuel(crate::text::decimal, 8);
    assert(crate::text::decimal(1048576) =~= seq!['1', '0', '4', '8', '5', '7', '6']);
    assert(open_call().args =~= "[\"audit.log\", "@ + crate::text::decimal(CHUNK_BYTES as nat)
        + "]"@);
}

} // verus!
