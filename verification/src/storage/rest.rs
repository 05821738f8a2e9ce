//! The REST interface of a storage node: its addresses and how its answers are
//! read.

use vstd::prelude::*;
use crate::storage::StorageError;
use crate::text::{join2, join3, trim, trim_trailing_slashes, trimmed, without_trailing_slashes};

verus! {

/// The address of a storage node on this machine.
pub const DEFAULT_LOCAL_URL: &'static str = "http://127.0.0.1:8080";

/// A storage node behind its REST interface.
///
/// - Upload: `POST {base_url}/api/storage/v1/data`
/// - Download: `GET {base_url}/api/storage/v1/data/{cid}/network/stream`
#[derive(Debug)]
pub struct LogosStorageRest {
    base_url: String,
}

impl View for LogosStorageRest {
    type V = Seq<char>;

    closed spec fn view(&self) -> Seq<char> {
        self.base_url@
    }
}

impl LogosStorageRest {
    /// The node at a base address, given with or without slashes at its end.
    pub fn new(base_url: &str) -> (res: LogosStorageRest)
        ensures
            res@ == without_trailing_slashes(base_url@),
    {
        LogosStorageRest { base_url: trim_trailing_slashes(base_url) }
    }

    /// The node on this machine.
    pub fn default_local() -> (res: LogosStorageRest)
        ensures
            res@ == DEFAULT_LOCAL_URL@,
    {
        proof {
            reveal_strlit("http://127.0.0.1:8080");
        }
        LogosStorageRest::new(DEFAULT_LOCAL_URL)
    }

    /// The base address.
    pub fn base_url(&self) -> (res: &str)
        ensures
            res@ == self@,
    {
        self.base_url.as_str()
    }

    /// Where data is uploaded to.
    pub fn upload_url(&self) -> (res: String)
        ensures
            res@ == self@ + "/api/storage/v1/data"@,
    {
        join2(self.base_url.as_str(), "/api/storage/v1/data")
    }

    /// Where data is downloaded from.
    pub fn download_url(&self, cid: &str) -> (res: String)
        ensures
            res@ == self@ + "/api/storage/v1/data/"@ + cid@ + "/network/stream"@,
    {
        join3(
            join2(self.base_url.as_str(), "/api/storage/v1/data/").as_str(),
            cid,
            "/network/stream",
        )
    }
}

/// Whether a status code reports success.
pub open spec fn success(status: u16) -> bool {
    200 <= status < 300
}

/// Whether a status code reports success.
pub fn is_success(status: u16) -> (res: bool)
    ensures
        res == success(status),
{
    200 <= status && status < 300
}

/// The body of an answer, as far as it could be read.
#[derive(Debug)]
pub enum AnswerBody {
    /// The text that explains a refusal.
    Refusal(Result<String, String>),
    /// The payload.
    Payload(Result<Vec<u8>, String>),
}

/// The text of a refusal, empty where it could not be read.
pub open spec fn refusal_text(body: Result<String, String>) -> Seq<char> {
    match body {
        Ok(text) => text@,
        Err(_) => ""@,
    }
}

/// A refusal of the storage API.
fn refused(status: u16, body: Result<String, String>) -> (res: StorageError)
    ensures
        res.is_api(status, refusal_text(body)),
{
    let body = match body {
        Ok(text) => text,
        Err(_) => "".to_owned(),
    };
    StorageError::Api { status, body }
}

/// What an upload came to: on success the content identifier, which is the text
/// of the answer without white space round it; otherwise the refusal.
pub fn finish_upload(status: u16, body: Result<String, String>) -> (res: Result<
    String,
    StorageError,
>)
    ensures
        res is Ok <==> success(status) && body is Ok,
        res matches Ok(cid) ==> cid@ == trimmed(body->Ok_0@),
        success(status) && body is Err ==> res->Err_0.is_http(body->Err_0@),
        !success(status) ==> res->Err_0.is_api(status, refusal_text(body)),
{
    if !is_success(status) {
        return Err(refused(status, body));
    }
    match body {
        Ok(text) => Ok(trim(text.as_str())),
        Err(e) => Err(StorageError::Http(e)),
    }
}

/// What a download came to: the payload, or the refusal, or the reason why the
/// payload could not be read.
pub fn finish_download(status: u16, body: AnswerBody) -> (res: Result<Vec<u8>, StorageError>)
    ensures
        match body {
            AnswerBody::Refusal(text) => res is Err && res->Err_0.is_api(
                status,
                refusal_text(text),
            ),
            AnswerBody::Payload(Ok(data)) => res == Ok::<Vec<u8>, StorageError>(data),
            AnswerBody::Payload(Err(e)) => res is Err && res->Err_0.is_http(e@),
        },
{
    match body {
        AnswerBody::Refusal(text) => Err(refused(status, text)),
        AnswerBody::Payload(Ok(data)) => Ok(data),
        AnswerBody::Payload(Err(e)) => Err(StorageError::Http(e)),
    }
}

/// However many slashes end the base address, the addresses built on it are the
/// same.
pub proof fn slashes_do_not_matter(base: Seq<char>)
    ensures
        without_trailing_slashes(base.push('/')) == without_trailing_slashes(base),
{
    assert(base.push('/').drop_last() =~= base);
}

/// Exactly the two hundreds report success.
pub proof fn the_two_hundreds_report_success(status: u16)
    ensures
        success(status) <==> status / 100 == 2,
{
}

} // verus!
