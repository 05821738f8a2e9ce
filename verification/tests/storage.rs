use std::collections::HashMap;
use std::error::Error;
use std::fmt;
use std::sync::{Arc, Mutex};

use logos_messaging_a2a::storage::rest::LogosStorageRest;
use logos_messaging_a2a::storage::{
    maybe_offload, StorageBackend, StorageError, StorageOffloadConfig, DEFAULT_OFFLOAD_THRESHOLD,
};

/// In-memory storage backend.
struct MockStorage {
    store: Mutex<HashMap<String, Vec<u8>>>,
    next_id: Mutex<u64>,
}

impl MockStorage {
    fn new() -> Self {
        Self {
            store: Mutex::new(HashMap::new()),
            next_id: Mutex::new(0),
        }
    }
}

impl StorageBackend for MockStorage {
    fn upload(&self, data: Vec<u8>) -> Result<String, StorageError> {
        let mut id = self.next_id.lock().unwrap();
        let cid = format!("zMock{}", *id);
        *id += 1;
        self.store.lock().unwrap().insert(cid.clone(), data);
        Ok(cid)
    }

    fn download(&self, cid: &str) -> Result<Vec<u8>, StorageError> {
        self.store
            .lock()
            .unwrap()
            .get(cid)
            .cloned()
            .ok_or_else(|| StorageError::Api {
                status: 404,
                body: format!("CID not found: {}", cid),
            })
    }
}

/// A storage backend that always fails, for testing error propagation.
struct FailingStorage;

impl StorageBackend for FailingStorage {
    fn upload(&self, _data: Vec<u8>) -> Result<String, StorageError> {
        Err(StorageError::Http("connection refused".to_string()))
    }
    fn download(&self, _cid: &str) -> Result<Vec<u8>, StorageError> {
        Err(StorageError::Api {
            status: 500,
            body: "internal server error".to_string(),
        })
    }
}

/// The error as callers see it behind `std::error::Error`.
#[derive(Debug)]
struct Shown(StorageError);

impl fmt::Display for Shown {
    fn fmt(&self, f: &mut fmt::Formatter<'_>) -> fmt::Result {
        f.write_str(&self.0.to_string())
    }
}

impl Error for Shown {}

#[test]
fn lib_upload_download_roundtrip() {
    let backend = MockStorage::new();
    let data = b"hello logos storage".to_vec();

    let cid = backend.upload(data.clone()).unwrap();
    assert!(cid.starts_with("zMock"));

    let downloaded = backend.download(&cid).unwrap();
    assert_eq!(data, downloaded);
}

#[test]
fn download_missing_cid_returns_error() {
    let backend = MockStorage::new();
    let result = backend.download("zNonexistent");
    assert!(result.is_err());
    match result.unwrap_err() {
        StorageError::Api { status, .. } => assert_eq!(status, 404),
        other => panic!("expected Api error, got: {:?}", other),
    }
}

#[test]
fn maybe_offload_below_threshold_returns_none() {
    let backend = MockStorage::new();
    let small_data = vec![0u8; 100];
    let result = maybe_offload(&backend, &small_data, 1024).unwrap();
    assert!(result.is_none());
}

#[test]
fn maybe_offload_above_threshold_uploads() {
    let backend = MockStorage::new();
    let big_data = vec![42u8; 2048];
    let result = maybe_offload(&backend, &big_data, 1024).unwrap();
    assert!(result.is_some());

    let cid = result.unwrap();
    let downloaded = backend.download(&cid).unwrap();
    assert_eq!(big_data, downloaded);
}

#[test]
fn maybe_offload_exact_threshold_returns_none() {
    let backend = MockStorage::new();
    let exact_data = vec![0u8; 1024];
    let result = maybe_offload(&backend, &exact_data, 1024).unwrap();
    assert!(
        result.is_none(),
        "data at exactly the threshold should not be offloaded"
    );
}

#[test]
fn storage_error_display() {
    let http_err = StorageError::Http("connection refused".to_string());
    assert!(http_err.to_string().contains("connection refused"));

    let api_err = StorageError::Api {
        status: 500,
        body: "internal".to_string(),
    };
    assert!(api_err.to_string().contains("500"));
}

#[test]
fn logos_storage_rest_url_construction() {
    let backend = LogosStorageRest::new("http://localhost:8080/");
    assert_eq!(backend.base_url(), "http://localhost:8080");

    let backend2 = LogosStorageRest::default_local();
    assert_eq!(backend2.base_url(), "http://127.0.0.1:8080");
}

#[test]
fn storage_error_is_std_error() {
    let err: Box<dyn std::error::Error> = Box::new(Shown(StorageError::Http("timeout".to_string())));
    assert!(err.to_string().contains("timeout"));
}

#[test]
fn storage_error_api_display_includes_status_and_body() {
    let err = StorageError::Api {
        status: 503,
        body: "Service Unavailable".to_string(),
    };
    let display = err.to_string();
    assert!(display.contains("503"));
    assert!(display.contains("Service Unavailable"));
}

#[test]
fn storage_error_http_display_includes_message() {
    let err = StorageError::Http("DNS resolution failed".to_string());
    assert!(err.to_string().contains("DNS resolution failed"));
    assert!(err.to_string().contains("HTTP"));
}

#[test]
fn upload_empty_data() {
    let backend = MockStorage::new();
    let cid = backend.upload(vec![]).unwrap();
    let downloaded = backend.download(&cid).unwrap();
    assert!(downloaded.is_empty());
}

#[test]
fn lib_upload_large_payload() {
    let backend = MockStorage::new();
    let data = vec![0xffu8; 1024 * 1024]; // 1 MB
    let cid = backend.upload(data.clone()).unwrap();
    let downloaded = backend.download(&cid).unwrap();
    assert_eq!(downloaded.len(), 1024 * 1024);
    assert_eq!(downloaded, data);
}

#[test]
fn multiple_uploads_produce_unique_cids() {
    let backend = MockStorage::new();
    let cid1 = backend.upload(b"data1".to_vec()).unwrap();
    let cid2 = backend.upload(b"data2".to_vec()).unwrap();
    let cid3 = backend.upload(b"data1".to_vec()).unwrap(); // same content
    assert_ne!(cid1, cid2);
    assert_ne!(cid1, cid3); // mock uses monotonic IDs, not content-addressing
    assert_ne!(cid2, cid3);
}

#[test]
fn download_after_multiple_uploads_returns_correct_data() {
    let backend = MockStorage::new();
    let cid_a = backend.upload(b"alpha".to_vec()).unwrap();
    let cid_b = backend.upload(b"beta".to_vec()).unwrap();
    let cid_c = backend.upload(b"gamma".to_vec()).unwrap();

    // Verify each CID maps to the right data
    assert_eq!(backend.download(&cid_b).unwrap(), b"beta");
    assert_eq!(backend.download(&cid_a).unwrap(), b"alpha");
    assert_eq!(backend.download(&cid_c).unwrap(), b"gamma");
}

#[test]
fn download_empty_cid_string_returns_error() {
    let backend = MockStorage::new();
    let result = backend.download("");
    assert!(result.is_err());
}

#[test]
fn maybe_offload_empty_data_below_any_threshold() {
    let backend = MockStorage::new();
    let result = maybe_offload(&backend, &[], 1).unwrap();
    assert!(result.is_none());
}

#[test]
fn maybe_offload_one_byte_above_threshold() {
    let backend = MockStorage::new();
    let data = vec![0u8; 101];
    let result = maybe_offload(&backend, &data, 100).unwrap();
    assert!(result.is_some());
    // Verify the data was actually uploaded
    let cid = result.unwrap();
    let downloaded = backend.download(&cid).unwrap();
    assert_eq!(downloaded.len(), 101);
}

#[test]
fn maybe_offload_zero_threshold_uploads_any_nonempty_data() {
    let backend = MockStorage::new();
    let data = vec![1u8];
    let result = maybe_offload(&backend, &data, 0).unwrap();
    assert!(result.is_some());
}

#[test]
fn maybe_offload_zero_threshold_empty_data_returns_none() {
    let backend = MockStorage::new();
    let result = maybe_offload(&backend, &[], 0).unwrap();
    assert!(result.is_none(), "empty data (len=0) is not > 0 threshold");
}

#[test]
fn maybe_offload_propagates_upload_error() {
    let backend = FailingStorage;
    let data = vec![0u8; 200];
    let result = maybe_offload(&backend, &data, 100);
    assert!(result.is_err());
    match result.unwrap_err() {
        StorageError::Http(msg) => assert!(msg.contains("connection refused")),
        other => panic!("expected Http error, got: {:?}", other),
    }
}

#[test]
fn failing_storage_download_returns_api_error() {
    let backend = FailingStorage;
    let result = backend.download("anyCid");
    assert!(result.is_err());
    match result.unwrap_err() {
        StorageError::Api { status, body } => {
            assert_eq!(status, 500);
            assert!(body.contains("internal server error"));
        }
        other => panic!("expected Api error, got: {:?}", other),
    }
}

#[test]
fn logos_storage_rest_trims_multiple_trailing_slashes() {
    let backend = LogosStorageRest::new("http://localhost:8080///");
    // trim_end_matches('/') removes all trailing slashes
    assert_eq!(backend.base_url(), "http://localhost:8080");
}

#[test]
fn logos_storage_rest_no_trailing_slash_unchanged() {
    let backend = LogosStorageRest::new("http://localhost:8080");
    assert_eq!(backend.base_url(), "http://localhost:8080");
}

#[test]
fn upload_same_content_twice_returns_different_cids() {
    // MockStorage uses monotonic IDs, not content-addressing
    let backend = MockStorage::new();
    let cid1 = backend.upload(b"same".to_vec()).unwrap();
    let cid2 = backend.upload(b"same".to_vec()).unwrap();
    assert_ne!(cid1, cid2);
    // But both CIDs map to the same content
    assert_eq!(backend.download(&cid1).unwrap(), b"same");
    assert_eq!(backend.download(&cid2).unwrap(), b"same");
}

#[test]
fn maybe_offload_propagates_download_verification() {
    let backend = MockStorage::new();
    let data = vec![0xab; 200];
    let result = maybe_offload(&backend, &data, 100).unwrap();
    let cid = result.unwrap();
    let downloaded = backend.download(&cid).unwrap();
    assert_eq!(downloaded, data);
}

#[test]
fn storage_error_debug_format() {
    let http_err = StorageError::Http("timeout".to_string());
    let debug = format!("{:?}", http_err);
    assert!(debug.contains("Http"));
    assert!(debug.contains("timeout"));

    let api_err = StorageError::Api {
        status: 429,
        body: "rate limited".to_string(),
    };
    let debug = format!("{:?}", api_err);
    assert!(debug.contains("Api"));
    assert!(debug.contains("429"));
}

#[test]
fn mock_storage_sequential_cid_generation() {
    let backend = MockStorage::new();
    let cid0 = backend.upload(b"a".to_vec()).unwrap();
    let cid1 = backend.upload(b"b".to_vec()).unwrap();
    let cid2 = backend.upload(b"c".to_vec()).unwrap();
    assert_eq!(cid0, "zMock0");
    assert_eq!(cid1, "zMock1");
    assert_eq!(cid2, "zMock2");
}

#[test]
fn failing_storage_upload_returns_http_error() {
    let backend = FailingStorage;
    let result = backend.upload(b"test".to_vec());
    assert!(result.is_err());
    match result.unwrap_err() {
        StorageError::Http(msg) => assert!(msg.contains("connection refused")),
        other => panic!("expected Http error, got: {:?}", other),
    }
}

#[test]
fn maybe_offload_below_threshold_does_not_upload() {
    let backend = MockStorage::new();
    let _ = maybe_offload(&backend, &[1, 2, 3], 100).unwrap();
    // Nothing should have been uploaded
    assert!(backend.download("zMock0").is_err());
}

#[test]
fn default_offload_threshold_is_100kb() {
    assert_eq!(DEFAULT_OFFLOAD_THRESHOLD, 100 * 1024);
}

#[test]
fn logos_storage_rest_empty_string_url() {
    let backend = LogosStorageRest::new("");
    assert_eq!(backend.base_url(), "");
}

#[test]
fn storage_error_source_returns_none() {
    let http_err = Shown(StorageError::Http("timeout".to_string()));
    assert!(http_err.source().is_none());

    let api_err = Shown(StorageError::Api {
        status: 404,
        body: "not found".to_string(),
    });
    assert!(api_err.source().is_none());
}

#[test]
fn storage_error_display_empty_http_message() {
    let err = StorageError::Http(String::new());
    let display = err.to_string();
    assert!(display.contains("HTTP"));
    assert_eq!(display, "storage HTTP error: ");
}

#[test]
fn storage_error_display_empty_api_body() {
    let err = StorageError::Api {
        status: 500,
        body: String::new(),
    };
    let display = err.to_string();
    assert!(display.contains("500"));
    assert_eq!(display, "storage API error (500): ");
}

#[test]
fn storage_error_api_status_zero() {
    let err = StorageError::Api {
        status: 0,
        body: "unusual".to_string(),
    };
    let display = err.to_string();
    assert!(display.contains("0"));
    assert!(display.contains("unusual"));
}

#[test]
fn storage_error_http_with_multiline_message() {
    let err = StorageError::Http("line1\nline2\nline3".to_string());
    let display = err.to_string();
    assert!(display.contains("line1\nline2\nline3"));
}

#[test]
fn storage_error_api_with_unicode_body() {
    let err = StorageError::Api {
        status: 400,
        body: "invalid: \u{1F600} emoji in error".to_string(),
    };
    let display = err.to_string();
    assert!(display.contains("400"));
    assert!(display.contains("\u{1F600}"));
}

#[test]
fn storage_error_debug_http_variant() {
    let err = StorageError::Http("debug test".to_string());
    let debug = format!("{:?}", err);
    assert!(debug.contains("Http"));
    assert!(debug.contains("debug test"));
}

#[test]
fn storage_error_debug_api_variant() {
    let err = StorageError::Api {
        status: 502,
        body: "bad gateway".to_string(),
    };
    let debug = format!("{:?}", err);
    assert!(debug.contains("Api"));
    assert!(debug.contains("502"));
    assert!(debug.contains("bad gateway"));
}

#[test]
fn maybe_offload_max_usize_threshold_never_uploads() {
    let backend = MockStorage::new();
    let data = vec![0u8; 1024];
    let result = maybe_offload(&backend, &data, usize::MAX).unwrap();
    assert!(result.is_none());
}

#[test]
fn maybe_offload_returns_valid_cid_from_backend() {
    let backend = MockStorage::new();
    let data = vec![42u8; 200];
    let result = maybe_offload(&backend, &data, 100).unwrap();
    let cid = result.expect("should have uploaded");
    assert!(cid.starts_with("zMock"));
    // Verify the CID is actually retrievable
    let downloaded = backend.download(&cid).unwrap();
    assert_eq!(downloaded, data);
}

#[test]
fn mock_storage_upload_binary_with_null_bytes() {
    let backend = MockStorage::new();
    let data = vec![0x00, 0x00, 0x01, 0x00, 0xff];
    let cid = backend.upload(data.clone()).unwrap();
    let downloaded = backend.download(&cid).unwrap();
    assert_eq!(data, downloaded);
}

#[test]
fn mock_storage_upload_all_byte_values() {
    let backend = MockStorage::new();
    let data: Vec<u8> = (0..=255).collect();
    let cid = backend.upload(data.clone()).unwrap();
    let downloaded = backend.download(&cid).unwrap();
    assert_eq!(data, downloaded);
}

#[test]
fn mock_storage_download_returns_independent_copies() {
    let backend = MockStorage::new();
    let data = b"original".to_vec();
    let cid = backend.upload(data.clone()).unwrap();

    let first = backend.download(&cid).unwrap();
    let second = backend.download(&cid).unwrap();
    assert_eq!(first, second);
    assert_eq!(first, data);
}

#[test]
fn failing_storage_upload_empty_data_still_fails() {
    let backend = FailingStorage;
    let result = backend.upload(Vec::new());
    assert!(result.is_err());
}

#[test]
fn failing_storage_download_error_contains_status() {
    let backend = FailingStorage;
    let err = backend.download("any").unwrap_err();
    match err {
        StorageError::Api { status, .. } => assert_eq!(status, 500),
        other => panic!("expected Api error, got: {:?}", other),
    }
}

#[test]
fn maybe_offload_with_failing_backend_below_threshold_succeeds() {
    // Below threshold, failing backend should never be called
    let backend = FailingStorage;
    let result = maybe_offload(&backend, &[1, 2, 3], 100).unwrap();
    assert!(result.is_none());
}

#[test]
fn logos_storage_rest_url_with_path_suffix() {
    let backend = LogosStorageRest::new("http://proxy.example.com/codex");
    assert_eq!(backend.base_url(), "http://proxy.example.com/codex");
}

#[test]
fn logos_storage_rest_url_with_port_and_trailing_slash() {
    let backend = LogosStorageRest::new("http://192.168.1.100:3000/");
    assert_eq!(backend.base_url(), "http://192.168.1.100:3000");
}

#[test]
fn logos_storage_rest_default_local_url() {
    let backend = LogosStorageRest::default_local();
    assert_eq!(backend.base_url(), "http://127.0.0.1:8080");
}

#[test]
fn logos_storage_rest_url_only_slashes() {
    let backend = LogosStorageRest::new("///");
    assert_eq!(backend.base_url(), "");
}

#[test]
fn storage_backend_as_trait_object() {
    let backend: Box<dyn StorageBackend> = Box::new(MockStorage::new());
    let cid = backend.upload(b"trait object test".to_vec()).unwrap();
    let downloaded = backend.download(&cid).unwrap();
    assert_eq!(downloaded, b"trait object test");
}

#[test]
fn storage_backend_as_arc_trait_object() {
    let backend: Arc<dyn StorageBackend> = Arc::new(MockStorage::new());
    let cid = backend.upload(b"arc test".to_vec()).unwrap();
    let downloaded = backend.download(&cid).unwrap();
    assert_eq!(downloaded, b"arc test");
}

#[test]
fn storage_backend_ref_trait_object() {
    let backend = MockStorage::new();
    let backend_ref: &dyn StorageBackend = &backend;
    let cid = backend_ref.upload(b"ref test".to_vec()).unwrap();
    let downloaded = backend_ref.download(&cid).unwrap();
    assert_eq!(downloaded, b"ref test");
}

#[test]
fn storage_offload_config_zero_threshold() {
    let storage = MockStorage::new();
    let config = StorageOffloadConfig::with_threshold(storage, 0);
    assert_eq!(config.threshold_bytes, 0);
}

#[test]
fn test_storage_offload_config_default_threshold() {
    let storage = MockStorage::new();
    let config = StorageOffloadConfig::new(storage);
    assert_eq!(config.threshold_bytes, 65_536);
}

#[test]
fn test_storage_offload_config_custom_threshold() {
    let storage = MockStorage::new();
    let config = StorageOffloadConfig::with_threshold(storage, 1024);
    assert_eq!(config.threshold_bytes, 1024);
}
