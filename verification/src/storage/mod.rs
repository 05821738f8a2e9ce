//! Storage for large payloads: errors, the backend interface and the offload
//! rule.

use vstd::prelude::*;
use crate::text::{clone_bytes, decimal, decimal_text, join2, join3};

pub mod rest;
pub mod storage_module_backend;

verus! {

/// Errors returned by storage operations.
#[derive(Debug)]
pub enum StorageError {
    /// HTTP or network-level failure.
    Http(String),
    /// Non-success status code from the storage API.
    Api {
        /// HTTP status code returned by the API.
        status: u16,
        /// Response body text describing the error.
        body: String,
    },
}

impl StorageError {
    /// The message of the error.
    pub open spec fn text(&self) -> Seq<char> {
        match self {
            StorageError::Http(msg) => "storage HTTP error: "@ + msg@,
            StorageError::Api { status, body } => "storage API error ("@ + decimal(*status as nat)
                + "): "@ + body@,
        }
    }

    /// A network-level failure with the given message.
    pub open spec fn is_http(&self, text: Seq<char>) -> bool {
        *self matches StorageError::Http(t) && t@ == text
    }

    /// A refusal with the given status and body.
    pub open spec fn is_api(&self, code: u16, text: Seq<char>) -> bool {
        *self matches StorageError::Api { status, body } && status == code && body@ == text
    }

    /// The message of the error.
    pub fn to_string(&self) -> (res: String)
        ensures
            res@ == self.text(),
    {
        match self {
            StorageError::Http(msg) => join2("storage HTTP error: ", msg.as_str()),
            StorageError::Api { status, body } => {
                let number = decimal_text(*status as u64);
                join3(
                    join2("storage API error (", number.as_str()).as_str(),
                    "): ",
                    body.as_str(),
                )
            },
        }
    }
}

/// The failure of a step, with its reason.
pub fn failed_step(what: &str, why: &str) -> (res: StorageError)
    ensures
        res.is_http(what@ + ": "@ + why@),
{
    StorageError::Http(join3(what, ": ", why))
}

/// The name of the scratch file for a download.
pub fn scratch_name(cid: &str) -> (res: String)
    ensures
        res@ == "dl-"@ + cid@,
{
    join2("dl-", cid)
}

/// Uploading and downloading binary payloads to and from content-addressed
/// storage.
pub trait StorageBackend {
    /// Uploads binary data and returns its content identifier.
    fn upload(&self, data: Vec<u8>) -> (res: Result<String, StorageError>);

    /// Downloads binary data by its content identifier.
    fn download(&self, cid: &str) -> (res: Result<Vec<u8>, StorageError>);
}

/// Default offload threshold: 100 KB.
pub const DEFAULT_OFFLOAD_THRESHOLD: usize = 100 * 1024;

/// Threshold above which a node offloads payloads, unless another is set: 64 KiB.
pub const DEFAULT_NODE_THRESHOLD: usize = 65_536;

/// Where a node offloads large payloads to, and from which size on.
#[derive(Debug)]
pub struct StorageOffloadConfig<B> {
    pub backend: B,
    /// Payloads of more bytes than this are offloaded.
    pub threshold_bytes: usize,
}

impl<B> StorageOffloadConfig<B> {
    /// Offloading from the default size on.
    pub fn new(backend: B) -> (res: StorageOffloadConfig<B>)
        ensures
            res.backend == backend,
            res.threshold_bytes == DEFAULT_NODE_THRESHOLD,
    {
        StorageOffloadConfig { backend, threshold_bytes: DEFAULT_NODE_THRESHOLD }
    }

    /// Offloading from a given size on.
    pub fn with_threshold(backend: B, threshold_bytes: usize) -> (res: StorageOffloadConfig<B>)
        ensures
            res.backend == backend,
            res.threshold_bytes == threshold_bytes,
    {
        StorageOffloadConfig { backend, threshold_bytes }
    }
}

/// Whether data is too large to travel in a message.
pub fn exceeds(data: &[u8], threshold: usize) -> (res: bool)
    ensures
        res == (data@.len() > threshold),
{
    data.len() > threshold
}

/// What comes of an offload whose upload gave `uploaded`.
pub fn offloaded(uploaded: Result<String, StorageError>) -> (res: Result<
    Option<String>,
    StorageError,
>)
    ensures
        match uploaded {
            Ok(cid) => res == Ok::<Option<String>, StorageError>(Some(cid)),
            Err(e) => res == Err::<Option<String>, StorageError>(e),
        },
{
    match uploaded {
        Ok(cid) => Ok(Some(cid)),
        Err(e) => Err(e),
    }
}

/// Uploads `data` where it exceeds `threshold` bytes and returns the content
/// identifier; otherwise uploads nothing and returns `None`. An error is the
/// backend's own.
pub fn maybe_offload<B: StorageBackend + ?Sized>(backend: &B, data: &[u8], threshold: usize) -> (res: Result<
    Option<String>,
    StorageError,
>)
    ensures
        data@.len() <= threshold ==> res == Ok::<Option<String>, StorageError>(None),
        data@.len() > threshold ==> exists|copy: Vec<u8>, uploaded: Result<String, StorageError>|
            copy@ == data@ && #[trigger] call_ensures(B::upload, (backend, copy), uploaded)
                && match uploaded {
                Ok(cid) => res == Ok::<Option<String>, StorageError>(Some(cid)),
                Err(e) => res == Err::<Option<String>, StorageError>(e),
            },
{
    if exceeds(data, threshold) {
        let copy = clone_bytes(data);
        let ghost given = copy;
        let uploaded = backend.upload(copy);
        assert(call_ensures(B::upload, (backend, given), uploaded));
        offloaded(uploaded)
    } else {
        Ok(None)
    }
}

} // verus!
