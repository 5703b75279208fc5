use std::cell::Cell;

use s3_util::backend::{HeadOutput, ListPage, S3Backend};
use s3_util::errors::{BackendError, S3Error};
use s3_util::memory::MemoryBackend;
use s3_util::util::{classify_exists, classify_fetch, classify_metadata, classify_size, S3Util};

/// A backend whose wait primitive succeeds only after a number of probes, to
/// drive the bounded existence wait under and over its deadline.
struct ProbeBackend {
    probes_until_present: Cell<u64>,
    probes_allowed_by_deadline: u64,
}

impl S3Backend for ProbeBackend {
    fn store(&self) -> s3_util::backend::StoreModel {
        panic!("specification-only state; never called at run time")
    }

    fn listing_from(
        &self,
        _bucket: s3_util::backend::KeyChars,
        _prefix: s3_util::backend::KeyChars,
        _token: Option<s3_util::backend::KeyChars>,
    ) -> s3_util::backend::KeyListing {
        panic!("specification-only state; never called at run time")
    }

    fn put_object(
        &mut self,
        _bucket: &str,
        _key: &str,
        _body: Vec<u8>,
        _metadata: Option<Vec<(String, String)>>,
    ) -> Result<(), BackendError> {
        Ok(())
    }

    fn get_object(&self, _bucket: &str, _key: &str) -> Result<Vec<u8>, BackendError> {
        Err(BackendError::NotFound)
    }

    fn head_object(&self, _bucket: &str, _key: &str) -> Result<HeadOutput, BackendError> {
        Err(BackendError::NotFound)
    }

    fn copy_object(
        &mut self,
        _bucket: &str,
        _source_key: &str,
        _target_key: &str,
    ) -> Result<(), BackendError> {
        Ok(())
    }

    fn delete_object(&mut self, _bucket: &str, _key: &str) -> Result<(), BackendError> {
        Ok(())
    }

    fn generate_presigned_url(
        &self,
        _bucket: &str,
        _key: &str,
        _expires_in_secs: u64,
    ) -> Result<String, BackendError> {
        Ok(String::new())
    }

    fn list_keys(
        &self,
        _bucket: &str,
        _prefix: &str,
        _continuation_token: Option<String>,
    ) -> Result<ListPage, BackendError> {
        Ok(ListPage {
            keys: Vec::new(),
            is_truncated: false,
            next_token: None,
        })
    }

    fn wait_until_object_exists(
        &self,
        _bucket: &str,
        _key: &str,
        _timeout_secs: u64,
    ) -> Result<(), BackendError> {
        let mut probes: u64 = 0;
        loop {
            probes += 1;
            if self.probes_until_present.get() == 0 {
                return Ok(());
            }
            self.probes_until_present
                .set(self.probes_until_present.get() - 1);
            if probes >= self.probes_allowed_by_deadline {
                return Err(BackendError::Timeout {
                    cause: "object did not appear before the deadline".to_string(),
                });
            }
        }
    }
}

/// A store whose delete calls all fail, to observe the two halves of a move.
struct FailingDeleteBackend {
    inner: MemoryBackend,
}

impl S3Backend for FailingDeleteBackend {
    fn store(&self) -> s3_util::backend::StoreModel {
        panic!("specification-only state; never called at run time")
    }

    fn listing_from(
        &self,
        _bucket: s3_util::backend::KeyChars,
        _prefix: s3_util::backend::KeyChars,
        _token: Option<s3_util::backend::KeyChars>,
    ) -> s3_util::backend::KeyListing {
        panic!("specification-only state; never called at run time")
    }

    fn put_object(
        &mut self,
        bucket: &str,
        key: &str,
        body: Vec<u8>,
        metadata: Option<Vec<(String, String)>>,
    ) -> Result<(), BackendError> {
        self.inner.put_object(bucket, key, body, metadata)
    }

    fn get_object(&self, bucket: &str, key: &str) -> Result<Vec<u8>, BackendError> {
        self.inner.get_object(bucket, key)
    }

    fn head_object(&self, bucket: &str, key: &str) -> Result<HeadOutput, BackendError> {
        self.inner.head_object(bucket, key)
    }

    fn copy_object(
        &mut self,
        bucket: &str,
        source_key: &str,
        target_key: &str,
    ) -> Result<(), BackendError> {
        self.inner.copy_object(bucket, source_key, target_key)
    }

    fn delete_object(&mut self, _bucket: &str, _key: &str) -> Result<(), BackendError> {
        Err(BackendError::Service {
            cause: "delete rejected".to_string(),
        })
    }

    fn generate_presigned_url(
        &self,
        bucket: &str,
        key: &str,
        expires_in_secs: u64,
    ) -> Result<String, BackendError> {
        self.inner.generate_presigned_url(bucket, key, expires_in_secs)
    }

    fn list_keys(
        &self,
        bucket: &str,
        prefix: &str,
        continuation_token: Option<String>,
    ) -> Result<ListPage, BackendError> {
        self.inner.list_keys(bucket, prefix, continuation_token)
    }

    fn wait_until_object_exists(
        &self,
        bucket: &str,
        key: &str,
        timeout_secs: u64,
    ) -> Result<(), BackendError> {
        self.inner.wait_until_object_exists(bucket, key, timeout_secs)
    }
}

/// A backend whose head checks fail for reasons other than absence.
struct ThrottledHeadBackend;

impl S3Backend for ThrottledHeadBackend {
    fn store(&self) -> s3_util::backend::StoreModel {
        panic!("specification-only state; never called at run time")
    }

    fn listing_from(
        &self,
        _bucket: s3_util::backend::KeyChars,
        _prefix: s3_util::backend::KeyChars,
        _token: Option<s3_util::backend::KeyChars>,
    ) -> s3_util::backend::KeyListing {
        panic!("specification-only state; never called at run time")
    }

    fn put_object(
        &mut self,
        _bucket: &str,
        _key: &str,
        _body: Vec<u8>,
        _metadata: Option<Vec<(String, String)>>,
    ) -> Result<(), BackendError> {
        Ok(())
    }

    fn get_object(&self, _bucket: &str, _key: &str) -> Result<Vec<u8>, BackendError> {
        Err(BackendError::NotFound)
    }

    fn head_object(&self, _bucket: &str, _key: &str) -> Result<HeadOutput, BackendError> {
        Err(BackendError::Service {
            cause: "throttled".to_string(),
        })
    }

    fn copy_object(
        &mut self,
        _bucket: &str,
        _source_key: &str,
        _target_key: &str,
    ) -> Result<(), BackendError> {
        Ok(())
    }

    fn delete_object(&mut self, _bucket: &str, _key: &str) -> Result<(), BackendError> {
        Ok(())
    }

    fn generate_presigned_url(
        &self,
        _bucket: &str,
        _key: &str,
        _expires_in_secs: u64,
    ) -> Result<String, BackendError> {
        Ok(String::new())
    }

    fn list_keys(
        &self,
        _bucket: &str,
        _prefix: &str,
        _continuation_token: Option<String>,
    ) -> Result<ListPage, BackendError> {
        Ok(ListPage {
            keys: Vec::new(),
            is_truncated: false,
            next_token: None,
        })
    }

    fn wait_until_object_exists(
        &self,
        _bucket: &str,
        _key: &str,
        _timeout_secs: u64,
    ) -> Result<(), BackendError> {
        Ok(())
    }
}

#[test]
fn wait_succeeds_when_object_appears_before_deadline() {
    let util = S3Util::new(
        ProbeBackend {
            probes_until_present: Cell::new(3),
            probes_allowed_by_deadline: 10,
        },
        "bucket".to_string(),
    );
    util.wait_until_key_exists("k".to_string()).unwrap();
}

#[test]
fn wait_fails_with_callout_when_object_never_appears() {
    let util = S3Util::new(
        ProbeBackend {
            probes_until_present: Cell::new(u64::MAX),
            probes_allowed_by_deadline: 10,
        },
        "bucket".to_string(),
    );
    let err = util.wait_until_key_exists("k".to_string()).unwrap_err();
    match err {
        S3Error::CalloutError { cause, .. } => {
            assert_eq!(cause, "object did not appear before the deadline");
        }
        other => panic!("expected a callout error, got {:?}", other.describe()),
    }
}

#[test]
fn failed_delete_after_copy_leaves_both_keys() {
    let mut inner = MemoryBackend::new();
    inner
        .put_object("bucket", "a", vec![7u8], None)
        .unwrap();
    let mut util = S3Util::new(FailingDeleteBackend { inner }, "bucket".to_string());
    let err = util.move_object("a".to_string(), "b".to_string()).unwrap_err();
    assert!(matches!(err, S3Error::CalloutError { .. }));
    assert!(util.key_exists("a".to_string()).unwrap());
    assert!(util.key_exists("b".to_string()).unwrap());
}

#[test]
fn key_exists_propagates_non_absence_head_failures() {
    let util = S3Util::new(ThrottledHeadBackend, "bucket".to_string());
    let err = util.key_exists("k".to_string()).unwrap_err();
    match err {
        S3Error::CalloutError { cause, .. } => assert_eq!(cause, "throttled"),
        other => panic!("expected a callout error, got {:?}", other.describe()),
    }
}

#[test]
fn metadata_probe_propagates_non_absence_head_failures() {
    let util = S3Util::new(ThrottledHeadBackend, "bucket".to_string());
    let err = util
        .get_metadata_if_key_exists("k".to_string())
        .unwrap_err();
    assert!(matches!(err, S3Error::CalloutError { .. }));
}

#[test]
fn exists_classification_maps_each_head_outcome() {
    assert_eq!(
        classify_exists(Ok(HeadOutput {
            metadata: None,
            content_length: Some(1),
        }))
        .unwrap(),
        true
    );
    assert_eq!(classify_exists(Err(BackendError::NotFound)).unwrap(), false);
    let err = classify_exists(Err(BackendError::Service {
        cause: "throttled".to_string(),
    }))
    .unwrap_err();
    assert!(matches!(err, S3Error::CalloutError { .. }));
}

#[test]
fn metadata_classification_normalizes_and_propagates() {
    let got = classify_metadata(Ok(HeadOutput {
        metadata: Some(vec![("k".to_string(), "v".to_string())]),
        content_length: None,
    }))
    .unwrap()
    .unwrap();
    assert_eq!(got, vec![("k".to_string(), "v".to_string())]);
    let bare = classify_metadata(Ok(HeadOutput {
        metadata: None,
        content_length: None,
    }))
    .unwrap()
    .unwrap();
    assert!(bare.is_empty());
    assert!(classify_metadata(Err(BackendError::NotFound)).unwrap().is_none());
    assert!(classify_metadata(Err(BackendError::Service {
        cause: "throttled".to_string(),
    }))
    .is_err());
}

#[test]
fn size_classification_reports_or_defaults() {
    assert_eq!(
        classify_size(Ok(HeadOutput {
            metadata: None,
            content_length: Some(17),
        }))
        .unwrap(),
        17
    );
    assert_eq!(
        classify_size(Ok(HeadOutput {
            metadata: None,
            content_length: None,
        }))
        .unwrap(),
        0
    );
    assert!(classify_size(Err(BackendError::NotFound)).is_err());
}

#[test]
fn fetch_classification_keeps_the_kinds_apart() {
    assert_eq!(classify_fetch(Ok(vec![1u8, 2])).unwrap(), vec![1u8, 2]);
    assert!(matches!(
        classify_fetch(Err(BackendError::NotFound)).unwrap_err(),
        S3Error::NotFound
    ));
    assert!(matches!(
        classify_fetch(Err(BackendError::Service {
            cause: "broken".to_string(),
        }))
        .unwrap_err(),
        S3Error::CalloutError { .. }
    ));
}
