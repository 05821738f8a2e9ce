use logos_messaging_a2a::json::JsonDoc;
use logos_messaging_a2a::storage::rest::{finish_download, finish_upload, AnswerBody, LogosStorageRest};
use logos_messaging_a2a::storage::storage_module_backend::{
    download_step, extract_value, DownloadAction, DownloadEvent, DownloadStage, UploadAction,
    UploadRun, CHUNK_BYTES,
};
use logos_messaging_a2a::storage::{failed_step, scratch_name, StorageError};

fn doc(text: &str) -> JsonDoc {
    JsonDoc::parse(text.as_bytes()).unwrap()
}

fn http(e: StorageError) -> String {
    match e {
        StorageError::Http(t) => t,
        other => panic!("expected Http, got {:?}", other),
    }
}

#[test]
fn values_are_read_from_every_shape() {
    assert_eq!(extract_value(&doc("\"bare\""), "value").unwrap(), "bare");
    assert_eq!(
        extract_value(&doc(r#"{"value":"v"}"#), "value").unwrap(),
        "v"
    );
    assert_eq!(
        http(extract_value(&doc(r#"{"kind":"error","message":"m"}"#), "value").unwrap_err()),
        "m"
    );
    assert_eq!(
        http(extract_value(&doc(r#"{"error":"e","value":"v"}"#), "value").unwrap_err()),
        "e"
    );
    assert_eq!(
        http(extract_value(&doc(r#"{ "x" : 1 }"#), "value").unwrap_err()),
        "missing `value` in storage_module response: {\"x\":1}"
    );
    // A message that is no error does not stand in the way.
    assert_eq!(
        extract_value(&doc(r#"{"message":"fine","value":"v"}"#), "value").unwrap(),
        "v"
    );
}

fn expect_call(action: UploadAction, method: &str) -> String {
    match action {
        UploadAction::Call(c) => {
            assert_eq!(c.method, method);
            assert_eq!(c.timeout_ms, 30_000);
            c.args
        }
        other => panic!("expected a call of {method}, got {:?}", other),
    }
}

#[test]
fn upload_of_two_chunks() {
    let mut data = vec![1u8; CHUNK_BYTES];
    data.push(2);
    let (mut run, call) = UploadRun::begin(data);
    assert_eq!(call.method, "uploadInit");
    assert_eq!(call.args, "[\"audit.log\", 1048576]");

    let args = expect_call(run.step(Ok(r#"{"value":"s1"}"#.to_string())), "uploadChunk");
    assert!(args.starts_with("[\"s1\",{\"__base64__\":\"AQEB"));
    let args = expect_call(run.step(Ok("true".to_string())), "uploadChunk");
    assert_eq!(args, r#"["s1",{"__base64__":"Ag=="}]"#);
    let args = expect_call(run.step(Ok("true".to_string())), "uploadFinalize");
    assert_eq!(args, r#"["s1"]"#);
    match run.step(Ok(r#"{"value":"zCid"}"#.to_string())) {
        UploadAction::Done(cid) => assert_eq!(cid, "zCid"),
        other => panic!("expected the end, got {:?}", other),
    }
}

#[test]
fn upload_of_nothing_has_no_chunks() {
    let (mut run, _) = UploadRun::begin(Vec::new());
    expect_call(run.step(Ok("\"s\"".to_string())), "uploadFinalize");
}

#[test]
fn upload_of_one_full_chunk_has_one_chunk() {
    let (mut run, _) = UploadRun::begin(vec![0u8; CHUNK_BYTES]);
    expect_call(run.step(Ok("\"s\"".to_string())), "uploadChunk");
    expect_call(run.step(Ok("true".to_string())), "uploadFinalize");
}

#[test]
fn a_refused_chunk_cancels_the_session() {
    let (mut run, _) = UploadRun::begin(vec![7]);
    expect_call(run.step(Ok("\"s\"".to_string())), "uploadChunk");
    match run.step(Ok(r#"{"kind":"error","message":"disk full"}"#.to_string())) {
        UploadAction::CancelAndFail(call, e) => {
            assert_eq!(call.method, "uploadCancel");
            assert_eq!(call.args, r#"["s"]"#);
            assert_eq!(http(e), "uploadChunk: disk full");
        }
        other => panic!("expected a cancel, got {:?}", other),
    }
    assert!(matches!(
        run.step(Ok("true".to_string())),
        UploadAction::Fail(_)
    ));
}

#[test]
fn upload_faults_name_the_call() {
    let (mut run, _) = UploadRun::begin(vec![7]);
    match run.step(Err("gone".to_string())) {
        UploadAction::Fail(e) => assert_eq!(http(e), "storage_module call uploadInit: gone"),
        other => panic!("expected a failure, got {:?}", other),
    }
    let (mut run, _) = UploadRun::begin(vec![7]);
    match run.step(Ok("nonsense".to_string())) {
        UploadAction::Fail(e) => {
            assert!(http(e).starts_with("storage_module uploadInit bad JSON: "))
        }
        other => panic!("expected a failure, got {:?}", other),
    }
}

fn fail_text(action: DownloadAction) -> String {
    match action {
        DownloadAction::Fail(e) => http(e),
        other => panic!("expected a failure, got {:?}", other),
    }
}

#[test]
fn download_from_listening_to_data() {
    let (s, a) = download_step("cid", DownloadStage::Listening, DownloadEvent::Listened(Ok(())));
    assert!(matches!(a, DownloadAction::MakeFile));
    let (s, a) = download_step("cid", s, DownloadEvent::File(Ok("/tmp/f".to_string())));
    match a {
        DownloadAction::Call(c) => {
            assert_eq!(c.method, "downloadChunks");
            assert_eq!(c.args, r#"["cid",false,1048576,"/tmp/f"]"#);
            assert_eq!(c.timeout_ms, 90_000);
        }
        other => panic!("expected a call, got {:?}", other),
    }
    let (s, a) = download_step(
        "cid",
        s,
        DownloadEvent::Replied(Ok(r#"{"success":true,"value":"cid"}"#.to_string())),
    );
    assert!(matches!(a, DownloadAction::Poll));
    let polled = |text: &str| DownloadEvent::Polled(Ok(Some(text.to_string())));
    // Other events, and those of other downloads, are passed over.
    let (s, a) = download_step("cid", s, polled(r#"{"event":"other","data":[true,"cid"]}"#));
    assert!(matches!(a, DownloadAction::Poll));
    let (s, a) = download_step(
        "cid",
        s,
        polled(r#"{"event":"storageDownloadDone","data":[true,"another"]}"#),
    );
    assert!(matches!(a, DownloadAction::Poll));
    let (s, a) = download_step(
        "cid",
        s,
        polled(r#"{"event":"storageDownloadDone","data":[true,"cid",3]}"#),
    );
    assert!(matches!(a, DownloadAction::Read));
    let (s, a) = download_step("cid", s, DownloadEvent::ReadBack(Ok(vec![1, 2, 3])));
    assert_eq!(s, DownloadStage::Over);
    match a {
        DownloadAction::Done(data) => assert_eq!(data, vec![1, 2, 3]),
        other => panic!("expected data, got {:?}", other),
    }
}

#[test]
fn download_failures() {
    let (_, a) = download_step(
        "cid",
        DownloadStage::Listening,
        DownloadEvent::Listened(Err("x".to_string())),
    );
    assert_eq!(fail_text(a), "listen: x");
    let (_, a) = download_step(
        "cid",
        DownloadStage::MakingFile,
        DownloadEvent::File(Err("x".to_string())),
    );
    assert_eq!(fail_text(a), "tempfile: x");
    let (_, a) = download_step(
        "cid",
        DownloadStage::Starting,
        DownloadEvent::Replied(Ok(r#"{"error":"no such"}"#.to_string())),
    );
    assert_eq!(fail_text(a), "downloadChunks: no such");
    let (_, a) = download_step(
        "cid",
        DownloadStage::Starting,
        DownloadEvent::Replied(Ok(r#"{"kind":"error","message":"late"}"#.to_string())),
    );
    assert_eq!(fail_text(a), "downloadChunks: late");
    let (_, a) = download_step("cid", DownloadStage::Waiting, DownloadEvent::Polled(Ok(None)));
    assert_eq!(fail_text(a), "storageDownloadDone timed out for cid");
    let (_, a) = download_step(
        "cid",
        DownloadStage::Waiting,
        DownloadEvent::Polled(Err("x".to_string())),
    );
    assert_eq!(fail_text(a), "poll_event: x");
    let (_, a) = download_step(
        "cid",
        DownloadStage::Waiting,
        DownloadEvent::Polled(Ok(Some("{".to_string()))),
    );
    assert!(fail_text(a).starts_with("event JSON: "));
    let (_, a) = download_step(
        "cid",
        DownloadStage::Waiting,
        DownloadEvent::Polled(Ok(Some(
            r#"{"event":"storageDownloadDone","data":[false,"cid"]}"#.to_string(),
        ))),
    );
    assert_eq!(fail_text(a), "storageDownloadDone reported failure for cid");
    let (_, a) = download_step(
        "cid",
        DownloadStage::Reading,
        DownloadEvent::ReadBack(Err("x".to_string())),
    );
    assert_eq!(fail_text(a), "read back tempfile: x");
}

#[test]
fn rest_addresses() {
    let rest = LogosStorageRest::new("http://h:1//");
    assert_eq!(rest.upload_url(), "http://h:1/api/storage/v1/data");
    assert_eq!(
        rest.download_url("zQ"),
        "http://h:1/api/storage/v1/data/zQ/network/stream"
    );
}

#[test]
fn rest_answers() {
    assert_eq!(finish_upload(200, Ok(" \u{a0}zCid\r\n".to_string())).unwrap(), "zCid");
    assert_eq!(
        finish_upload(404, Ok("gone".to_string()))
            .unwrap_err()
            .to_string(),
        "storage API error (404): gone"
    );
    assert_eq!(
        finish_upload(500, Err("cut".to_string()))
            .unwrap_err()
            .to_string(),
        "storage API error (500): "
    );
    assert_eq!(
        http(finish_upload(299, Err("cut".to_string())).unwrap_err()),
        "cut"
    );
    assert_eq!(
        finish_download(200, AnswerBody::Payload(Ok(vec![9]))).unwrap(),
        vec![9]
    );
    assert_eq!(
        http(finish_download(200, AnswerBody::Payload(Err("cut".to_string()))).unwrap_err()),
        "cut"
    );
    match finish_download(403, AnswerBody::Refusal(Ok("no".to_string()))).unwrap_err() {
        StorageError::Api { status, body } => {
            assert_eq!(status, 403);
            assert_eq!(body, "no");
        }
        other => panic!("expected Api, got {:?}", other),
    }
}

#[test]
fn failed_steps_and_scratch_names() {
    assert_eq!(http(failed_step("upload failed", "why")), "upload failed: why");
    assert_eq!(scratch_name("zQ"), "dl-zQ");
}
