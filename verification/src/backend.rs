use vstd::prelude::*;
use crate::errors::BackendError;
use crate::has_prefix;

verus! {

/// Mathematical model of one stored object: its body bytes and the metadata
/// map attached at write time. A missing metadata map is represented, not
/// defaulted to an empty one; the facade normalizes it on read.
#[verifier::ext_equal]
pub struct ObjectModel {
    pub body: Seq<u8>,
    pub metadata: Option<Seq<(Seq<char>, Seq<char>)>>,
}

/// The view of one metadata entry list.
pub open spec fn meta_view(m: Seq<(String, String)>) -> Seq<(Seq<char>, Seq<char>)> {
    m.map_values(|p: (String, String)| (p.0@, p.1@))
}

/// The view of an optional metadata entry list, keeping absence distinct from
/// emptiness.
pub open spec fn opt_meta_view(m: Option<Vec<(String, String)>>) -> Option<
    Seq<(Seq<char>, Seq<char>)>,
> {
    match m {
        Some(v) => Some(meta_view(v@)),
        None => None,
    }
}

/// What a head request returns: the object's metadata, if any was attached,
/// and its size in bytes, if the backend reports one.
pub struct HeadOutput {
    pub metadata: Option<Vec<(String, String)>>,
    pub content_length: Option<i64>,
}

/// One page of a paginated listing: a batch of keys, whether the backend marks
/// the listing as truncated, and the opaque token with which to request the
/// next page, if the backend supplied one.
pub struct ListPage {
    pub keys: Vec<String>,
    pub is_truncated: bool,
    pub next_token: Option<String>,
}

/// The whole remote store, modelled as a map from (bucket, key) to the stored
/// object.
pub type StoreModel = Map<(Seq<char>, Seq<char>), ObjectModel>;

/// The characters of one key.
pub type KeyChars = Seq<char>;

/// A complete listing: the keys a full enumeration yields, in the order the
/// backend serves them.
pub type KeyListing = Seq<Seq<char>>;

/// The view of an optional continuation token.
pub open spec fn opt_str_view(t: Option<String>) -> Option<Seq<char>> {
    match t {
        Some(s) => Some(s@),
        None => None,
    }
}

/// The views of a sequence of keys.
pub open spec fn key_views(keys: Seq<String>) -> Seq<Seq<char>> {
    keys.map_values(|k: String| k@)
}

/// The views of concatenated keys are the concatenated views.
pub proof fn lemma_key_views_append(a: Seq<String>, b: Seq<String>)
    ensures
        key_views(a + b) == key_views(a) + key_views(b),
{
    assert(key_views(a + b) =~= key_views(a) + key_views(b));
}

/// The minimal capability contract for a remote object store: the eight
/// primitives everything above it needs. It has exactly one production
/// implementation (an adapter over the real storage client, outside this
/// library) and is substitutable with a test double; nothing above it may
/// depend on transport-specific types.
///
/// Every implementation exposes its abstract contents through `store()`; each
/// primitive's contract says how one call reads or rewrites those contents. A
/// call may always fail with a service error; what each contract pins down is
/// what must hold of the store whenever the call reports success, and that a
/// reported failure of a writing primitive left the store as it was.
pub trait S3Backend: Sized {
    /// The abstract contents of the store this backend reaches.
    spec fn store(&self) -> StoreModel;

    /// The keys a listing of the prefix still has to yield when resumed at a
    /// continuation token, in the order the backend serves them; with no
    /// token, the complete listing. Each page the backend returns is the next
    /// segment of this sequence.
    spec fn listing_from(
        &self,
        bucket: Seq<char>,
        prefix: Seq<char>,
        token: Option<Seq<char>>,
    ) -> KeyListing;

    /// Stores or overwrites one object; an upsert, with no precondition on the
    /// key already existing.
    fn put_object(
        &mut self,
        bucket: &str,
        key: &str,
        body: Vec<u8>,
        metadata: Option<Vec<(String, String)>>,
    ) -> (r: Result<(), BackendError>)
        ensures
            r is Ok ==> final(self).store() == old(self).store().insert(
                (bucket@, key@),
                ObjectModel { body: body@, metadata: opt_meta_view(metadata) },
            ),
            r matches Err(e) ==> final(self).store() == old(self).store() && e is Service,
    ;

    /// Returns the body stored at a key, fully materialized.
    fn get_object(&self, bucket: &str, key: &str) -> (r: Result<Vec<u8>, BackendError>)
        ensures
            r matches Ok(body) ==> self.store().contains_key((bucket@, key@)) && body@
                == self.store()[(bucket@, key@)].body,
            r matches Err(e) ==> !(e is Timeout) && (e is NotFound ==> !self.store().contains_key(
                (bucket@, key@),
            )),
    ;

    /// Returns an object's metadata and size without its body. Reports a
    /// distinguishable not-found failure when the key is absent, and a service
    /// failure for anything else.
    fn head_object(&self, bucket: &str, key: &str) -> (r: Result<HeadOutput, BackendError>)
        ensures
            r matches Ok(h) ==> {
                &&& self.store().contains_key((bucket@, key@))
                &&& opt_meta_view(h.metadata) == self.store()[(bucket@, key@)].metadata
                &&& (h.content_length matches Some(n) ==> n == self.store()[(bucket@, key@)].body.len() as i64)
            },
            r matches Err(e) ==> !(e is Timeout) && (e is NotFound ==> !self.store().contains_key(
                (bucket@, key@),
            )),
    ;

    /// Server-side copy within one bucket; does not delete the source.
    fn copy_object(&mut self, bucket: &str, source_key: &str, target_key: &str) -> (r: Result<
        (),
        BackendError,
    >)
        ensures
            r is Ok ==> old(self).store().contains_key((bucket@, source_key@)) && final(self).store()
                == old(self).store().insert(
                (bucket@, target_key@),
                old(self).store()[(bucket@, source_key@)],
            ),
            r matches Err(e) ==> final(self).store() == old(self).store() && !(e is Timeout),
    ;

    /// Removes one object. Idempotent: deleting an absent key is not a
    /// failure.
    fn delete_object(&mut self, bucket: &str, key: &str) -> (r: Result<(), BackendError>)
        ensures
            r is Ok ==> final(self).store() == old(self).store().remove((bucket@, key@)),
            r matches Err(e) ==> final(self).store() == old(self).store() && e is Service,
    ;

    /// Produces a time-bounded URL granting unauthenticated retrieval of one
    /// object. A pure request-signing operation: it does not validate that the
    /// key currently exists.
    fn generate_presigned_url(&self, bucket: &str, key: &str, expires_in_secs: u64) -> (r: Result<
        String,
        BackendError,
    >)
        requires
            expires_in_secs > 0,
        ensures
            r matches Err(e) ==> e is Service,
    ;

    /// Requests one page of a paginated listing, given the continuation token
    /// of the previous page, or none for the first page. Every key of the page
    /// starts with the prefix and is present in the store; the page is the
    /// next segment of what the listing still has to yield, a token it hands
    /// out resumes right after that segment, and a page that ends the listing
    /// (untruncated, or truncated without a token) is the last segment.
    fn list_keys(&self, bucket: &str, prefix: &str, continuation_token: Option<String>) -> (r:
        Result<ListPage, BackendError>)
        ensures
            r matches Ok(p) ==> {
                let remaining = self.listing_from(bucket@, prefix@, opt_str_view(
                    continuation_token,
                ));
                &&& p.keys@.len() <= remaining.len()
                &&& key_views(p.keys@) == remaining.subrange(0, p.keys@.len() as int)
                &&& (p.next_token matches Some(t) ==> (p.is_truncated ==> self.listing_from(
                    bucket@,
                    prefix@,
                    Some(t@),
                ) == remaining.skip(p.keys@.len() as int)))
                &&& (!(p.is_truncated && p.next_token is Some) ==> p.keys@.len()
                    == remaining.len())
                &&& forall|i: int|
                    0 <= i < p.keys@.len() ==> has_prefix(prefix@, #[trigger] p.keys@[i]@)
                        && self.store().contains_key((bucket@, p.keys@[i]@))
            },
            r matches Err(e) ==> e is Service,
    ;

    /// Blocks until the key exists, or until the timeout elapses. On success
    /// the key is present; on failure it reports a timeout or service error.
    fn wait_until_object_exists(&self, bucket: &str, key: &str, timeout_secs: u64) -> (r: Result<
        (),
        BackendError,
    >)
        ensures
            r is Ok ==> self.store().contains_key((bucket@, key@)),
            r matches Err(e) ==> !(e is NotFound),
    ;
}

} // verus!
