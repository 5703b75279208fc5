use s3_util::backend::{HeadOutput, ListPage, S3Backend};
use s3_util::errors::{BackendError, S3Error};
use s3_util::memory::MemoryBackend;
use s3_util::util::S3Util;

/// A backend whose listing is served in two pages: one of 1000 keys with a
/// continuation token, then one of 3 keys marked untruncated.
struct TwoPageBackend;

fn page_key(i: usize) -> String {
    format!("prefix/{:04}", i)
}

impl S3Backend for TwoPageBackend {
    fn store(&self) -> s3_util::backend::StoreModel {
        panic!("specification-only state; never called at run time")
    }

    fn listing_from(
        &self,
        _bucket: s3_util::backend::KeyChars,
        _prefix: s3_util::backend::KeyChars,
        _token: Option<s3_util::backend::KeyChars>,
    ) -> s3_util::backend::KeyListing {
        panic!("specification-only state; never called at run time")
    }

    fn put_object(
        &mut self,
        _bucket: &str,
        _key: &str,
        _body: Vec<u8>,
        _metadata: Option<Vec<(String, String)>>,
    ) -> Result<(), BackendError> {
        Ok(())
    }

    fn get_object(&self, _bucket: &str, _key: &str) -> Result<Vec<u8>, BackendError> {
        Err(BackendError::NotFound)
    }

    fn head_object(&self, _bucket: &str, _key: &str) -> Result<HeadOutput, BackendError> {
        Err(BackendError::NotFound)
    }

    fn copy_object(
        &mut self,
        _bucket: &str,
        _source_key: &str,
        _target_key: &str,
    ) -> Result<(), BackendError> {
        Ok(())
    }

    fn delete_object(&mut self, _bucket: &str, _key: &str) -> Result<(), BackendError> {
        Ok(())
    }

    fn generate_presigned_url(
        &self,
        _bucket: &str,
        _key: &str,
        _expires_in_secs: u64,
    ) -> Result<String, BackendError> {
        Ok(String::new())
    }

    fn list_keys(
        &self,
        _bucket: &str,
        _prefix: &str,
        continuation_token: Option<String>,
    ) -> Result<ListPage, BackendError> {
        match continuation_token {
            None => Ok(ListPage {
                keys: (0..1000).map(page_key).collect(),
                is_truncated: true,
                next_token: Some("after-1000".to_string()),
            }),
            Some(token) => {
                assert_eq!(token, "after-1000");
                Ok(ListPage {
                    keys: (1000..1003).map(page_key).collect(),
                    is_truncated: false,
                    next_token: None,
                })
            }
        }
    }

    fn wait_until_object_exists(
        &self,
        _bucket: &str,
        _key: &str,
        _timeout_secs: u64,
    ) -> Result<(), BackendError> {
        Ok(())
    }
}

/// A backend whose single page claims truncation but carries no continuation
/// token: the listing must treat it as complete, not loop or fail.
struct TruncatedNoTokenBackend;

impl S3Backend for TruncatedNoTokenBackend {
    fn store(&self) -> s3_util::backend::StoreModel {
        panic!("specification-only state; never called at run time")
    }

    fn listing_from(
        &self,
        _bucket: s3_util::backend::KeyChars,
        _prefix: s3_util::backend::KeyChars,
        _token: Option<s3_util::backend::KeyChars>,
    ) -> s3_util::backend::KeyListing {
        panic!("specification-only state; never called at run time")
    }

    fn put_object(
        &mut self,
        _bucket: &str,
        _key: &str,
        _body: Vec<u8>,
        _metadata: Option<Vec<(String, String)>>,
    ) -> Result<(), BackendError> {
        Ok(())
    }

    fn get_object(&self, _bucket: &str, _key: &str) -> Result<Vec<u8>, BackendError> {
        Err(BackendError::NotFound)
    }

    fn head_object(&self, _bucket: &str, _key: &str) -> Result<HeadOutput, BackendError> {
        Err(BackendError::NotFound)
    }

    fn copy_object(
        &mut self,
        _bucket: &str,
        _source_key: &str,
        _target_key: &str,
    ) -> Result<(), BackendError> {
        Ok(())
    }

    fn delete_object(&mut self, _bucket: &str, _key: &str) -> Result<(), BackendError> {
        Ok(())
    }

    fn generate_presigned_url(
        &self,
        _bucket: &str,
        _key: &str,
        _expires_in_secs: u64,
    ) -> Result<String, BackendError> {
        Ok(String::new())
    }

    fn list_keys(
        &self,
        _bucket: &str,
        _prefix: &str,
        _continuation_token: Option<String>,
    ) -> Result<ListPage, BackendError> {
        Ok(ListPage {
            keys: vec!["prefix/only".to_string()],
            is_truncated: true,
            next_token: None,
        })
    }

    fn wait_until_object_exists(
        &self,
        _bucket: &str,
        _key: &str,
        _timeout_secs: u64,
    ) -> Result<(), BackendError> {
        Ok(())
    }
}

/// A backend whose every page request fails.
struct FailingListBackend;

impl S3Backend for FailingListBackend {
    fn store(&self) -> s3_util::backend::StoreModel {
        panic!("specification-only state; never called at run time")
    }

    fn listing_from(
        &self,
        _bucket: s3_util::backend::KeyChars,
        _prefix: s3_util::backend::KeyChars,
        _token: Option<s3_util::backend::KeyChars>,
    ) -> s3_util::backend::KeyListing {
        panic!("specification-only state; never called at run time")
    }

    fn put_object(
        &mut self,
        _bucket: &str,
        _key: &str,
        _body: Vec<u8>,
        _metadata: Option<Vec<(String, String)>>,
    ) -> Result<(), BackendError> {
        Ok(())
    }

    fn get_object(&self, _bucket: &str, _key: &str) -> Result<Vec<u8>, BackendError> {
        Err(BackendError::NotFound)
    }

    fn head_object(&self, _bucket: &str, _key: &str) -> Result<HeadOutput, BackendError> {
        Err(BackendError::NotFound)
    }

    fn copy_object(
        &mut self,
        _bucket: &str,
        _source_key: &str,
        _target_key: &str,
    ) -> Result<(), BackendError> {
        Ok(())
    }

    fn delete_object(&mut self, _bucket: &str, _key: &str) -> Result<(), BackendError> {
        Ok(())
    }

    fn generate_presigned_url(
        &self,
        _bucket: &str,
        _key: &str,
        _expires_in_secs: u64,
    ) -> Result<String, BackendError> {
        Ok(String::new())
    }

    fn list_keys(
        &self,
        _bucket: &str,
        _prefix: &str,
        _continuation_token: Option<String>,
    ) -> Result<ListPage, BackendError> {
        Err(BackendError::Service {
            cause: "listing rejected".to_string(),
        })
    }

    fn wait_until_object_exists(
        &self,
        _bucket: &str,
        _key: &str,
        _timeout_secs: u64,
    ) -> Result<(), BackendError> {
        Ok(())
    }
}

#[test]
fn two_pages_yield_all_keys_in_order() {
    let util = S3Util::new(TwoPageBackend, "bucket".to_string());
    let keys = util.list("prefix/".to_string()).unwrap();
    assert_eq!(keys.len(), 1003);
    for (i, key) in keys.iter().enumerate() {
        assert_eq!(*key, page_key(i));
    }
}

#[test]
fn truncated_page_without_token_ends_the_listing() {
    let util = S3Util::new(TruncatedNoTokenBackend, "bucket".to_string());
    let keys = util.list("prefix/".to_string()).unwrap();
    assert_eq!(keys, vec!["prefix/only".to_string()]);
}

#[test]
fn failed_page_request_returns_no_partial_listing() {
    let util = S3Util::new(FailingListBackend, "bucket".to_string());
    let err = util.list("prefix/".to_string()).unwrap_err();
    assert!(matches!(err, S3Error::CalloutError { .. }));
}

#[test]
fn memory_listing_filters_by_prefix_in_insertion_order() {
    let mut util = S3Util::new(MemoryBackend::new(), "bucket".to_string());
    util.upload_file("logs/a".to_string(), vec![1u8], None).unwrap();
    util.upload_file("data/b".to_string(), vec![2u8], None).unwrap();
    util.upload_file("logs/c".to_string(), vec![3u8], None).unwrap();
    let keys = util.list("logs/".to_string()).unwrap();
    assert_eq!(keys, vec!["logs/a".to_string(), "logs/c".to_string()]);
    let all = util.list("".to_string()).unwrap();
    assert_eq!(all.len(), 3);
}
