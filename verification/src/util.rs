use vstd::prelude::*;
use crate::backend::{HeadOutput, KeyListing, ListPage, ObjectModel, S3Backend, StoreModel, key_views, meta_view, opt_meta_view, opt_str_view};
use crate::errors::{BackendError, S3Error};
use crate::has_prefix;

verus! {

/// Seconds an existence wait is allowed to take before it fails.
pub const WAIT_FOR_KEY_TIMEOUT_SECS: u64 = 60;

/// The JSON value type this facade serializes and parses. Only the outside
/// serializer ever looks inside such a value; the library hands it through.
#[verifier::external_type_specification]
#[verifier::external_body]
pub struct ExJsonValue(serde_json::Value);

/// Whether a byte sequence is the UTF-8 text of one JSON value, as the
/// outside parser decides it.
pub uninterp spec fn parses_as_json(bytes: Seq<u8>) -> bool;

/// Relies on serde_json::to_vec: renders a JSON value as UTF-8 text. It
/// always succeeds: a JSON value holds nothing unserializable, and writing to
/// a byte vector cannot fail.
#[verifier::external_body]
fn serialize_json(value: &serde_json::Value) -> (r: Result<Vec<u8>, String>)
    ensures
        r is Ok,
{
    match serde_json::to_vec(value) {
        Ok(bytes) => Ok(bytes),
        Err(e) => Err(format!("{}", e)),
    }
}

/// Relies on serde_json::from_slice: parses UTF-8 text as one JSON value.
/// It succeeds exactly on the byte sequences that spell one JSON value, a
/// fact of the bytes alone, named `parses_as_json`.
#[verifier::external_body]
fn deserialize_json(bytes: &Vec<u8>) -> (r: Result<serde_json::Value, String>)
    ensures
        r is Ok <==> parses_as_json(bytes@),
{
    match serde_json::from_slice(bytes.as_slice()) {
        Ok(value) => Ok(value),
        Err(e) => Err(format!("{}", e)),
    }
}

/// What an existence probe answers for each head outcome: success means the
/// key exists, the distinguishable not-found failure means it does not, and
/// every other failure propagates as a callout error, never as an answer.
pub fn classify_exists(outcome: Result<HeadOutput, BackendError>) -> (r: Result<bool, S3Error>)
    ensures
        outcome is Ok ==> r == Ok::<bool, S3Error>(true),
        outcome matches Err(e) && e is NotFound ==> r == Ok::<bool, S3Error>(false),
        outcome matches Err(e) && !(e is NotFound) ==> (r matches Err(f) && f is CalloutError),
{
    match outcome {
        Ok(_) => Ok(true),
        Err(BackendError::NotFound) => Ok(false),
        Err(e) => Err(S3Error::callout("key_exists", e)),
    }
}

/// What a metadata probe returns for each head outcome: success yields the
/// object's metadata with a missing map normalized to an empty one, the
/// not-found failure yields the absent answer, and every other failure
/// propagates as a callout error.
pub fn classify_metadata(outcome: Result<HeadOutput, BackendError>) -> (r: Result<
    Option<Vec<(String, String)>>,
    S3Error,
>)
    ensures
        outcome matches Ok(h) ==> (r matches Ok(m) && m matches Some(entries) && (h.metadata
            matches Some(v) ==> meta_view(entries@) == meta_view(v@)) && (h.metadata is None
            ==> entries@.len() == 0)),
        outcome matches Err(e) && e is NotFound ==> (r matches Ok(m) && m is None),
        outcome matches Err(e) && !(e is NotFound) ==> (r matches Err(f) && f is CalloutError),
{
    match outcome {
        Ok(h) => match h.metadata {
            Some(m) => Ok(Some(m)),
            None => Ok(Some(Vec::new())),
        },
        Err(BackendError::NotFound) => Ok(None),
        Err(e) => Err(S3Error::callout("get_metadata_if_key_exists", e)),
    }
}

/// What a size probe returns for each head outcome: the length the backend
/// reported, zero when it omitted the field, and a callout error for every
/// failure, absence included.
pub fn classify_size(outcome: Result<HeadOutput, BackendError>) -> (r: Result<i64, S3Error>)
    ensures
        outcome matches Ok(h) ==> (h.content_length matches Some(n) ==> r == Ok::<i64, S3Error>(n))
            && (h.content_length is None ==> r == Ok::<i64, S3Error>(0)),
        outcome is Err ==> (r matches Err(f) && f is CalloutError),
{
    match outcome {
        Ok(h) => match h.content_length {
            Some(n) => Ok(n),
            None => Ok(0),
        },
        Err(e) => Err(S3Error::callout("get_size", e)),
    }
}

/// What a fetch hands on for each read outcome: the body on success, the
/// not-found kind for an absent key, and a callout error for every other
/// failure.
pub fn classify_fetch(outcome: Result<Vec<u8>, BackendError>) -> (r: Result<Vec<u8>, S3Error>)
    ensures
        outcome matches Ok(body) ==> (r matches Ok(b) && b == body),
        outcome matches Err(e) && e is NotFound ==> (r matches Err(f) && f is NotFound),
        outcome matches Err(e) && !(e is NotFound) ==> (r matches Err(f) && f is CalloutError),
{
    match outcome {
        Ok(body) => Ok(body),
        Err(BackendError::NotFound) => Err(S3Error::NotFound),
        Err(e) => Err(S3Error::callout("get_serializable", e)),
    }
}

/// The user-facing storage facade: one backend instance and the bucket every
/// operation of this facade addresses. Construction performs no calls; the
/// facade holds no state beyond the backend handle and the bucket name.
pub struct S3Util<B: S3Backend> {
    pub backend: B,
    pub bucket: String,
}

/// The continuation decision of the listing paginator: a page is followed by
/// another request exactly when it is marked truncated and supplies a token.
/// A page marked truncated without a token ends the listing like an
/// untruncated page.
pub fn next_request(page: &ListPage) -> (r: Option<String>)
    ensures
        r is Some <==> (page.is_truncated && page.next_token is Some),
        r matches Some(t) ==> page.next_token matches Some(u) && t@ == u@,
{
    if page.is_truncated {
        match &page.next_token {
            Some(t) => Some(t.clone()),
            None => None,
        }
    } else {
        None
    }
}

impl<B: S3Backend> S3Util<B> {
    /// The abstract contents of the store this facade reaches.
    pub open spec fn store(&self) -> StoreModel {
        self.backend.store()
    }

    /// The store address of a key under this facade's bucket.
    pub open spec fn addr_of(&self, key: Seq<char>) -> (Seq<char>, Seq<char>) {
        (self.bucket@, key)
    }

    /// The complete listing of a prefix under this facade's bucket: the keys a
    /// full enumeration yields, in the order the backend serves them.
    pub open spec fn listing_of(&self, prefix: Seq<char>) -> KeyListing {
        self.backend.listing_from(self.bucket@, prefix, None)
    }

    /// Combines an already-resolved backend instance with a bucket name.
    pub fn new(backend: B, bucket: String) -> (r: Self)
        ensures
            r.backend == backend,
            r.bucket == bucket,
    {
        S3Util { backend, bucket }
    }

    /// Serializes a value and stores the text at the key, overwriting whatever
    /// was there. Serializing a JSON value cannot fail, so the one failure is
    /// a failed write, a callout error, which leaves the store unchanged.
    pub fn put_serializable(&mut self, key: String, data: &serde_json::Value) -> (r: Result<
        (),
        S3Error,
    >)
        ensures
            final(self).bucket == old(self).bucket,
            r is Ok ==> exists|body: Seq<u8>|
                final(self).store() == old(self).store().insert(
                    old(self).addr_of(key@),
                    ObjectModel { body: body, metadata: None },
                ),
            r matches Err(e) ==> final(self).store() == old(self).store() && e is CalloutError,
    {
        let serialized = match serialize_json(data) {
            Ok(bytes) => bytes,
            // The serializer's contract rules this arm out; it stands so the
            // match stays total, and still reports the caller-side kind.
            Err(cause) => {
                return Err(
                    S3Error::InvalidOperation {
                        operation: "put_serializable".to_owned(),
                        cause,
                    },
                );
            },
        };
        match self.backend.put_object(self.bucket.as_str(), key.as_str(), serialized, None) {
            Ok(()) => {
                proof {
                    let chosen = ObjectModel { body: serialized@, metadata: None };
                    assert(self.store() == old(self).store().insert(
                        old(self).addr_of(key@),
                        chosen,
                    ));
                }
                Ok(())
            },
            Err(e) => Err(S3Error::callout("put_serializable", e)),
        }
    }

    /// Fetches the body at the key and parses it as one JSON value. An absent
    /// key is not-found; any other read failure is a callout error; a body
    /// that is not well-formed JSON is an item parsing failure, which can
    /// therefore only concern a key that is present.
    pub fn get_serializable(&self, key: String) -> (r: Result<serde_json::Value, S3Error>)
        ensures
            r is Ok ==> self.store().contains_key(self.addr_of(key@)) && parses_as_json(
                self.store()[self.addr_of(key@)].body,
            ),
            r matches Err(e) ==> {
                &&& !(e is InvalidOperation)
                &&& (e is NotFound ==> !self.store().contains_key(self.addr_of(key@)))
                &&& (e is ItemParsingError ==> self.store().contains_key(self.addr_of(key@))
                    && !parses_as_json(self.store()[self.addr_of(key@)].body))
            },
    {
        let outcome = self.backend.get_object(self.bucket.as_str(), key.as_str());
        let body = match classify_fetch(outcome) {
            Ok(body) => body,
            Err(e) => {
                return Err(e);
            },
        };
        match deserialize_json(&body) {
            Ok(value) => Ok(value),
            Err(cause) => Err(
                S3Error::ItemParsingError {
                    operation: "get_serializable".to_owned(),
                    cause,
                },
            ),
        }
    }

    /// Stores the contents of a local file, read by the caller, at the key,
    /// with the given metadata. A failed write is a callout error, and leaves
    /// the store unchanged.
    pub fn upload_file(
        &mut self,
        key: String,
        contents: Vec<u8>,
        metadata: Option<Vec<(String, String)>>,
    ) -> (r: Result<(), S3Error>)
        ensures
            final(self).bucket == old(self).bucket,
            r is Ok ==> final(self).store() == old(self).store().insert(
                old(self).addr_of(key@),
                ObjectModel { body: contents@, metadata: opt_meta_view(metadata) },
            ),
            r matches Err(e) ==> final(self).store() == old(self).store() && e is CalloutError,
    {
        match self.backend.put_object(self.bucket.as_str(), key.as_str(), contents, metadata) {
            Ok(()) => Ok(()),
            Err(e) => Err(S3Error::callout("upload_file", e)),
        }
    }

    /// Copies the source object to the target key, then deletes the source.
    /// The two steps run strictly in that order and the operation is not
    /// atomic: when the delete step fails after a successful copy, both keys
    /// hold the object, and the error reports it.
    pub fn move_object(&mut self, source_key: String, target_key: String) -> (r: Result<
        (),
        S3Error,
    >)
        ensures
            final(self).bucket == old(self).bucket,
            r is Ok ==> old(self).store().contains_key(old(self).addr_of(source_key@))
                && final(self).store() == old(self).store().insert(
                old(self).addr_of(target_key@),
                old(self).store()[old(self).addr_of(source_key@)],
            ).remove(old(self).addr_of(source_key@)),
            r matches Err(e) ==> e is CalloutError && (final(self).store() == old(self).store() || (
            old(self).store().contains_key(old(self).addr_of(source_key@)) && final(self).store()
                == old(self).store().insert(
                old(self).addr_of(target_key@),
                old(self).store()[old(self).addr_of(source_key@)],
            ))),
    {
        match self.backend.copy_object(
            self.bucket.as_str(),
            source_key.as_str(),
            target_key.as_str(),
        ) {
            Ok(()) => {},
            Err(e) => {
                return Err(S3Error::callout("move_object", e));
            },
        }
        match self.backend.delete_object(self.bucket.as_str(), source_key.as_str()) {
            Ok(()) => Ok(()),
            Err(e) => Err(S3Error::callout("move_object", e)),
        }
    }

    /// Removes the object at the key; deleting an absent key succeeds. A
    /// failed delete is a callout error, and leaves the store unchanged.
    pub fn delete_object(&mut self, key: String) -> (r: Result<(), S3Error>)
        ensures
            final(self).bucket == old(self).bucket,
            r is Ok ==> final(self).store() == old(self).store().remove(old(self).addr_of(key@)),
            r matches Err(e) ==> final(self).store() == old(self).store() && e is CalloutError,
    {
        match self.backend.delete_object(self.bucket.as_str(), key.as_str()) {
            Ok(()) => Ok(()),
            Err(e) => Err(S3Error::callout("delete_object", e)),
        }
    }

    /// Reports whether the key exists, by a single head check. Absence is the
    /// answer `false`, never an error; every other head failure propagates as
    /// a callout error, never as `false`.
    pub fn key_exists(&self, key: String) -> (r: Result<bool, S3Error>)
        ensures
            r matches Ok(present) ==> present == self.store().contains_key(self.addr_of(key@)),
            r matches Err(e) ==> e is CalloutError,
    {
        classify_exists(self.backend.head_object(self.bucket.as_str(), key.as_str()))
    }

    /// Returns the object's metadata when the key exists, normalizing a
    /// missing metadata map to an empty one, and `None` when the key is
    /// absent. Every other head failure propagates as a callout error.
    pub fn get_metadata_if_key_exists(&self, key: String) -> (r: Result<
        Option<Vec<(String, String)>>,
        S3Error,
    >)
        ensures
            r matches Ok(Some(m)) ==> {
                &&& self.store().contains_key(self.addr_of(key@))
                &&& (self.store()[self.addr_of(key@)].metadata matches Some(mm) ==> meta_view(m@)
                    == mm)
                &&& (self.store()[self.addr_of(key@)].metadata is None ==> m@.len() == 0)
            },
            r matches Ok(m) && m is None ==> !self.store().contains_key(self.addr_of(key@)),
            r matches Err(e) ==> e is CalloutError,
    {
        classify_metadata(self.backend.head_object(self.bucket.as_str(), key.as_str()))
    }

    /// Waits until the key exists, for at most the fixed timeout. On success
    /// the key is present; a timeout or service failure is a callout error.
    pub fn wait_until_key_exists(&self, key: String) -> (r: Result<(), S3Error>)
        ensures
            r is Ok ==> self.store().contains_key(self.addr_of(key@)),
            r matches Err(e) ==> e is CalloutError,
    {
        match self.backend.wait_until_object_exists(
            self.bucket.as_str(),
            key.as_str(),
            WAIT_FOR_KEY_TIMEOUT_SECS,
        ) {
            Ok(()) => Ok(()),
            Err(e) => Err(S3Error::callout("wait_until_key_exists", e)),
        }
    }

    /// Produces a time-bounded URL granting retrieval of the object, valid for
    /// the given positive number of seconds. Does not check that the key
    /// exists.
    pub fn generate_presigned_url(&self, key: String, expires_in_secs: u64) -> (r: Result<
        String,
        S3Error,
    >)
        requires
            expires_in_secs > 0,
        ensures
            r matches Err(e) ==> e is CalloutError,
    {
        match self.backend.generate_presigned_url(
            self.bucket.as_str(),
            key.as_str(),
            expires_in_secs,
        ) {
            Ok(url) => Ok(url),
            Err(e) => Err(S3Error::callout("generate_presigned_url", e)),
        }
    }

    /// Returns the object's size in bytes, or zero when the backend omits the
    /// field. Any head failure, absence included, is a callout error.
    pub fn get_size(&self, key: String) -> (r: Result<i64, S3Error>)
        ensures
            r matches Ok(n) ==> self.store().contains_key(self.addr_of(key@))
                && (n == self.store()[self.addr_of(key@)].body.len() as i64 || n == 0),
            r matches Err(e) ==> e is CalloutError,
    {
        classify_size(self.backend.head_object(self.bucket.as_str(), key.as_str()))
    }

    /// Lists every key under the prefix by driving the backend's paginated
    /// listing: pages are requested one at a time and their keys appended in
    /// the order received, until a page ends the listing (untruncated, or
    /// truncated without a token). A successful listing returns exactly the
    /// keys of the backend's complete listing for the prefix, in page order;
    /// each starts with the prefix and is present in the store. A failed page
    /// request discards the keys gathered so far: no partial listing is
    /// returned.
    pub fn list(&self, key_prefix: String) -> (r: Result<Vec<String>, S3Error>)
        ensures
            r matches Ok(keys) ==> {
                &&& key_views(keys@) == self.listing_of(key_prefix@)
                &&& forall|i: int|
                    0 <= i < keys@.len() ==> has_prefix(key_prefix@, #[trigger] keys@[i]@)
                        && self.store().contains_key(self.addr_of(keys@[i]@))
            },
            r matches Err(e) ==> e is CalloutError,
    {
        let ghost full = self.listing_of(key_prefix@);
        let mut keys: Vec<String> = Vec::new();
        let mut token: Option<String> = None;
        // A backend that keeps acknowledging truncation and handing out fresh
        // tokens would never end the listing; after this many pages the
        // listing gives up and reports a callout failure instead.
        let mut page_budget: u64 = u64::MAX;
        loop
            invariant
                full == self.listing_of(key_prefix@),
                key_views(keys@) + self.backend.listing_from(
                    self.bucket@,
                    key_prefix@,
                    opt_str_view(token),
                ) == full,
                forall|i: int|
                    0 <= i < keys@.len() ==> has_prefix(key_prefix@, #[trigger] keys@[i]@)
                        && self.store().contains_key(self.addr_of(keys@[i]@)),
            decreases page_budget,
        {
            if page_budget == 0 {
                return Err(
                    S3Error::CalloutError {
                        operation: "list".to_owned(),
                        cause: "listing produced an endless chain of continuation tokens".to_owned(),
                    },
                );
            }
            page_budget = page_budget - 1;
            let ghost remaining = self.backend.listing_from(
                self.bucket@,
                key_prefix@,
                opt_str_view(token),
            );
            let ghost seen = keys@;
            let mut page = match self.backend.list_keys(
                self.bucket.as_str(),
                key_prefix.as_str(),
                token,
            ) {
                Ok(page) => page,
                Err(e) => {
                    return Err(S3Error::callout("list", e));
                },
            };
            let ghost plen = page.keys@.len() as int;
            let ghost pkeys = page.keys@;
            keys.append(&mut page.keys);
            proof {
                crate::backend::lemma_key_views_append(seen, pkeys);
                assert(key_views(keys@) =~= key_views(seen) + remaining.subrange(0, plen));
                assert(forall|i: int|
                    0 <= i < keys@.len() ==> has_prefix(key_prefix@, #[trigger] keys@[i]@)
                        && self.store().contains_key(self.addr_of(keys@[i]@))) by {
                    assert forall|i: int| 0 <= i < keys@.len() implies has_prefix(
                        key_prefix@,
                        #[trigger] keys@[i]@,
                    ) && self.store().contains_key(self.addr_of(keys@[i]@)) by {
                        if i < seen.len() {
                            assert(keys@[i] == seen[i]);
                        } else {
                            assert(keys@[i] == pkeys[i - seen.len()]);
                            assert(has_prefix(key_prefix@, pkeys[i - seen.len()]@));
                        }
                    }
                }
            }
            match next_request(&page) {
                Some(t) => {
                    proof {
                        assert(self.backend.listing_from(self.bucket@, key_prefix@, Some(t@))
                            == remaining.skip(plen));
                        assert(key_views(keys@) + remaining.skip(plen) =~= key_views(seen)
                            + remaining.subrange(0, plen) + remaining.skip(plen));
                        assert(remaining.subrange(0, plen) + remaining.skip(plen) =~= remaining);
                        assert(key_views(seen) + remaining.subrange(0, plen) + remaining.skip(plen)
                            =~= key_views(seen) + remaining);
                    }
                    token = Some(t);
                },
                None => {
                    proof {
                        assert(remaining.subrange(0, plen) =~= remaining);
                        assert(key_views(keys@) =~= key_views(seen) + remaining);
                    }
                    return Ok(keys);
                },
            }
        }
    }
}

/// What a successful store leaves for the next fetch: the store then holds
/// exactly the stored object at that address, whatever was there before. This
/// is the storage half of the round trip behind `put_serializable` followed
/// by `get_serializable`; the serializer's own half, that parsing the
/// rendered text restores the value, lives in the outside serializer.
pub proof fn lemma_store_round_trip(s: StoreModel, a: (Seq<char>, Seq<char>), o: ObjectModel)
    ensures
        s.insert(a, o).contains_key(a),
        s.insert(a, o)[a] == o,
{
}

/// After a successful move between two different keys, the target address
/// holds the moved object and the source address holds nothing; after a move
/// whose delete step failed, both addresses hold it. The two outcomes are the
/// two store shapes `move_object` guarantees.
pub proof fn lemma_move_object_effect(
    s: StoreModel,
    bucket: Seq<char>,
    source_key: Seq<char>,
    target_key: Seq<char>,
)
    requires
        s.contains_key((bucket, source_key)),
        source_key != target_key,
    ensures
        s.insert((bucket, target_key), s[(bucket, source_key)]).remove(
            (bucket, source_key),
        ).contains_key((bucket, target_key)),
        !s.insert((bucket, target_key), s[(bucket, source_key)]).remove(
            (bucket, source_key),
        ).contains_key((bucket, source_key)),
        s.insert((bucket, target_key), s[(bucket, source_key)]).remove((bucket, source_key))[
            (bucket, target_key)
        ] == s[(bucket, source_key)],
        s.insert((bucket, target_key), s[(bucket, source_key)]).contains_key(
            (bucket, source_key),
        ),
        s.insert((bucket, target_key), s[(bucket, source_key)]).contains_key(
            (bucket, target_key),
        ),
        s.insert((bucket, target_key), s[(bucket, source_key)])[(bucket, target_key)] == s[
            (bucket, source_key)
        ],
        s.insert((bucket, target_key), s[(bucket, source_key)])[(bucket, source_key)] == s[
            (bucket, source_key)
        ],
{
    assert((bucket, source_key) != (bucket, target_key));
}

} // verus!
