use vstd::prelude::*;
use crate::backend::{HeadOutput, KeyListing, ListPage, ObjectModel, S3Backend, StoreModel, key_views, opt_meta_view};
use crate::errors::BackendError;
use crate::{has_prefix, str_has_prefix};

verus! {

/// One object held by the in-memory backend: its address within the store and
/// what was written there.
pub struct StoredObject {
    pub bucket: String,
    pub key: String,
    pub body: Vec<u8>,
    pub metadata: Option<Vec<(String, String)>>,
}

impl StoredObject {
    /// The address of this object: its bucket and key.
    pub open spec fn addr(&self) -> (Seq<char>, Seq<char>) {
        (self.bucket@, self.key@)
    }

    /// The abstract object stored at that address.
    pub open spec fn model(&self) -> ObjectModel {
        ObjectModel { body: self.body@, metadata: opt_meta_view(self.metadata) }
    }
}

/// The store described by a sequence of entries; a later entry for the same
/// address overrides an earlier one.
pub open spec fn assoc_map(s: Seq<StoredObject>) -> StoreModel
    decreases s.len(),
{
    if s.len() == 0 {
        Map::empty()
    } else {
        assoc_map(s.drop_last()).insert(s.last().addr(), s.last().model())
    }
}

/// The keys of the entries in a bucket that carry a prefix, in entry order:
/// what a complete listing of the in-memory store yields.
pub open spec fn matching_keys(s: Seq<StoredObject>, bucket: Seq<char>, prefix: Seq<char>) -> Seq<
    Seq<char>,
>
    decreases s.len(),
{
    if s.len() == 0 {
        Seq::empty()
    } else {
        matching_keys(s.drop_last(), bucket, prefix) + (if s.last().bucket@ == bucket
            && has_prefix(prefix, s.last().key@) {
            seq![s.last().key@]
        } else {
            Seq::empty()
        })
    }
}

/// No two entries share an address.
pub open spec fn distinct_addrs(s: Seq<StoredObject>) -> bool {
    forall|i: int, j: int| 0 <= i < j < s.len() ==> s[i].addr() != s[j].addr()
}

/// The store of an entry sequence holds an address exactly when some entry has
/// that address.
pub proof fn lemma_assoc_contains(s: Seq<StoredObject>, a: (Seq<char>, Seq<char>))
    ensures
        assoc_map(s).contains_key(a) <==> exists|i: int| 0 <= i < s.len() && s[i].addr() == a,
    decreases s.len(),
{
    if s.len() > 0 {
        lemma_assoc_contains(s.drop_last(), a);
        if s.last().addr() == a {
            assert(s[s.len() - 1].addr() == a);
        } else {
            assert(forall|i: int| 0 <= i < s.len() - 1 ==> s.drop_last()[i] == s[i]);
            if exists|i: int| 0 <= i < s.len() && s[i].addr() == a {
                let i = choose|i: int| 0 <= i < s.len() && s[i].addr() == a;
                assert(i < s.len() - 1);
                assert(s.drop_last()[i].addr() == a);
            }
        }
    }
}

/// With distinct addresses, the store maps an entry's address to that entry's
/// object.
pub proof fn lemma_assoc_lookup(s: Seq<StoredObject>, i: int)
    requires
        distinct_addrs(s),
        0 <= i < s.len(),
    ensures
        assoc_map(s).contains_key(s[i].addr()),
        assoc_map(s)[s[i].addr()] == s[i].model(),
    decreases s.len(),
{
    if i == s.len() - 1 {
        assert(s.last() == s[i]);
    } else {
        assert(distinct_addrs(s.drop_last())) by {
            assert(forall|p: int| 0 <= p < s.len() - 1 ==> s.drop_last()[p] == s[p]);
        }
        assert(s.drop_last()[i] == s[i]);
        lemma_assoc_lookup(s.drop_last(), i);
        assert(s.last().addr() != s[i].addr());
    }
}

/// With distinct addresses, removing the entry that holds an address removes
/// exactly that address from the store.
pub proof fn lemma_assoc_remove(s: Seq<StoredObject>, i: int)
    requires
        distinct_addrs(s),
        0 <= i < s.len(),
    ensures
        assoc_map(s.remove(i)) == assoc_map(s).remove(s[i].addr()),
    decreases s.len(),
{
    let a = s[i].addr();
    if i == s.len() - 1 {
        assert(s.remove(i) =~= s.drop_last());
        lemma_assoc_contains(s.drop_last(), a);
        assert(forall|p: int| 0 <= p < s.len() - 1 ==> s.drop_last()[p] == s[p]);
        assert(!assoc_map(s.drop_last()).contains_key(a));
        assert(assoc_map(s.drop_last()).insert(a, s.last().model()).remove(a) =~= assoc_map(
            s.drop_last(),
        ));
    } else {
        assert(forall|p: int| 0 <= p < s.len() - 1 ==> s.drop_last()[p] == s[p]);
        assert(distinct_addrs(s.drop_last()));
        assert(s.drop_last()[i] == s[i]);
        lemma_assoc_remove(s.drop_last(), i);
        assert(s.remove(i).drop_last() =~= s.drop_last().remove(i));
        assert(s.remove(i).last() == s.last());
        assert(s.last().addr() != a);
        assert(assoc_map(s.drop_last()).remove(a).insert(s.last().addr(), s.last().model())
            =~= assoc_map(s.drop_last()).insert(s.last().addr(), s.last().model()).remove(a));
        assert(assoc_map(s.remove(i)) == assoc_map(s.remove(i).drop_last()).insert(
            s.remove(i).last().addr(),
            s.remove(i).last().model(),
        ));
    }
}

/// A backend double holding its objects in process memory: the substitutable
/// test variant of the capability interface, with no network dependency.
pub struct MemoryBackend {
    objects: Vec<StoredObject>,
}

impl MemoryBackend {
    #[verifier::type_invariant]
    spec fn wf(&self) -> bool {
        distinct_addrs(self.objects@)
    }

    /// An empty store.
    pub fn new() -> (r: MemoryBackend)
        ensures
            r.store() == Map::<(Seq<char>, Seq<char>), ObjectModel>::empty(),
    {
        MemoryBackend { objects: Vec::new() }
    }

    /// The index of the entry at an address, if one exists.
    fn find_entry(&self, bucket: &str, key: &str) -> (r: Option<usize>)
        ensures
            r matches Some(i) ==> i < self.objects@.len() && self.objects@[i as int].addr() == (
                bucket@,
                key@,
            ),
            r is None ==> forall|i: int|
                0 <= i < self.objects@.len() ==> self.objects@[i].addr() != (bucket@, key@),
    {
        let mut i: usize = 0;
        while i < self.objects.len()
            invariant
                0 <= i <= self.objects@.len(),
                forall|j: int| 0 <= j < i ==> self.objects@[j].addr() != (bucket@, key@),
            decreases self.objects@.len() - i,
        {
            let o = &self.objects[i];
            if str_eq(o.bucket.as_str(), bucket) && str_eq(o.key.as_str(), key) {
                return Some(i);
            }
            i += 1;
        }
        None
    }

    /// Stores an entry, overriding any entry already at its address.
    fn upsert(&mut self, entry: StoredObject)
        ensures
            final(self).store() == old(self).store().insert(entry.addr(), entry.model()),
    {
        proof {
            use_type_invariant(&*self);
        }
        let ghost a = entry.addr();
        let found = self.find_entry(entry.bucket.as_str(), entry.key.as_str());
        let mut objs: Vec<StoredObject> = Vec::new();
        core::mem::swap(&mut objs, &mut self.objects);
        let ghost s0 = objs@;
        if let Some(i) = found {
            objs.remove(i);
            proof {
                lemma_assoc_remove(s0, i as int);
                assert(distinct_addrs(objs@));
                lemma_assoc_contains(objs@, a);
                assert(forall|j: int| 0 <= j < objs@.len() ==> objs@[j].addr() != a) by {
                    assert(forall|j: int|
                        0 <= j < objs@.len() ==> objs@[j] == if j < i as int {
                            s0[j]
                        } else {
                            s0[j + 1]
                        });
                }
            }
        }
        let ghost s1 = objs@;
        proof {
            lemma_assoc_contains(s1, a);
            assert(!assoc_map(s1).contains_key(a));
        }
        objs.push(entry);
        proof {
            assert(objs@.drop_last() =~= s1);
            assert(objs@.last() == entry);
            assert(distinct_addrs(objs@)) by {
                assert(forall|j: int| 0 <= j < s1.len() ==> objs@[j] == s1[j]);
            }
            assert(assoc_map(objs@) == assoc_map(s1).insert(a, entry.model()));
            assert(assoc_map(s1).insert(a, entry.model()) =~= assoc_map(s0).insert(
                a,
                entry.model(),
            ));
        }
        self.objects = objs;
    }
}

impl S3Backend for MemoryBackend {
    closed spec fn store(&self) -> StoreModel {
        assoc_map(self.objects@)
    }

    closed spec fn listing_from(
        &self,
        bucket: Seq<char>,
        prefix: Seq<char>,
        token: Option<Seq<char>>,
    ) -> KeyListing {
        matching_keys(self.objects@, bucket, prefix)
    }

    fn put_object(
        &mut self,
        bucket: &str,
        key: &str,
        body: Vec<u8>,
        metadata: Option<Vec<(String, String)>>,
    ) -> (r: Result<(), BackendError>) {
        let entry = StoredObject { bucket: bucket.to_owned(), key: key.to_owned(), body, metadata };
        self.upsert(entry);
        Ok(())
    }

    fn get_object(&self, bucket: &str, key: &str) -> (r: Result<Vec<u8>, BackendError>) {
        proof {
            use_type_invariant(&*self);
        }
        match self.find_entry(bucket, key) {
            Some(i) => {
                proof {
                    lemma_assoc_lookup(self.objects@, i as int);
                }
                Ok(clone_bytes(&self.objects[i].body))
            },
            None => {
                proof {
                    lemma_assoc_contains(self.objects@, (bucket@, key@));
                }
                Err(BackendError::NotFound)
            },
        }
    }

    fn head_object(&self, bucket: &str, key: &str) -> (r: Result<HeadOutput, BackendError>) {
        proof {
            use_type_invariant(&*self);
        }
        match self.find_entry(bucket, key) {
            Some(i) => {
                proof {
                    lemma_assoc_lookup(self.objects@, i as int);
                }
                let o = &self.objects[i];
                Ok(
                    HeadOutput {
                        metadata: clone_metadata(&o.metadata),
                        content_length: Some(o.body.len() as i64),
                    },
                )
            },
            None => {
                proof {
                    lemma_assoc_contains(self.objects@, (bucket@, key@));
                }
                Err(BackendError::NotFound)
            },
        }
    }

    fn copy_object(&mut self, bucket: &str, source_key: &str, target_key: &str) -> (r: Result<
        (),
        BackendError,
    >) {
        proof {
            use_type_invariant(&*self);
        }
        match self.find_entry(bucket, source_key) {
            Some(i) => {
                proof {
                    lemma_assoc_lookup(self.objects@, i as int);
                }
                let src = &self.objects[i];
                let entry = StoredObject {
                    bucket: bucket.to_owned(),
                    key: target_key.to_owned(),
                    body: clone_bytes(&src.body),
                    metadata: clone_metadata(&src.metadata),
                };
                proof {
                    assert(entry.model() =~= self.store()[(bucket@, source_key@)]);
                }
                self.upsert(entry);
                Ok(())
            },
            None => {
                Err(
                    BackendError::Service {
                        cause: "copy source does not exist".to_owned(),
                    },
                )
            },
        }
    }

    fn delete_object(&mut self, bucket: &str, key: &str) -> (r: Result<(), BackendError>) {
        proof {
            use_type_invariant(&*self);
        }
        let found = self.find_entry(bucket, key);
        match found {
            Some(i) => {
                let mut objs: Vec<StoredObject> = Vec::new();
                core::mem::swap(&mut objs, &mut self.objects);
                let ghost s0 = objs@;
                objs.remove(i);
                proof {
                    lemma_assoc_remove(s0, i as int);
                    assert(distinct_addrs(objs@)) by {
                        assert(forall|j: int|
                            0 <= j < objs@.len() ==> objs@[j] == if j < i as int {
                                s0[j]
                            } else {
                                s0[j + 1]
                            });
                    }
                }
                self.objects = objs;
                Ok(())
            },
            None => {
                proof {
                    lemma_assoc_contains(self.objects@, (bucket@, key@));
                    assert(self.store().remove((bucket@, key@)) =~= self.store());
                }
                Ok(())
            },
        }
    }

    fn generate_presigned_url(&self, bucket: &str, key: &str, expires_in_secs: u64) -> (r: Result<
        String,
        BackendError,
    >) {
        let mut url = bucket.to_owned();
        url.append("/");
        url.append(key);
        Ok(url)
    }

    fn list_keys(&self, bucket: &str, prefix: &str, _continuation_token: Option<String>) -> (r:
        Result<ListPage, BackendError>) {
        proof {
            use_type_invariant(&*self);
        }
        let mut keys: Vec<String> = Vec::new();
        let mut i: usize = 0;
        while i < self.objects.len()
            invariant
                0 <= i <= self.objects@.len(),
                distinct_addrs(self.objects@),
                key_views(keys@) == matching_keys(
                    self.objects@.subrange(0, i as int),
                    bucket@,
                    prefix@,
                ),
                forall|j: int|
                    0 <= j < keys@.len() ==> has_prefix(prefix@, #[trigger] keys@[j]@)
                        && assoc_map(self.objects@).contains_key((bucket@, keys@[j]@)),
            decreases self.objects@.len() - i,
        {
            let ghost pre = self.objects@.subrange(0, i as int);
            let o = &self.objects[i];
            if str_eq(o.bucket.as_str(), bucket) && str_has_prefix(prefix, o.key.as_str()) {
                proof {
                    lemma_assoc_lookup(self.objects@, i as int);
                    assert(self.objects@[i as int].addr() == (bucket@, o.key@));
                }
                keys.push(o.key.clone());
            }
            i += 1;
            proof {
                let cur = self.objects@.subrange(0, i as int);
                assert(cur.drop_last() =~= pre);
                assert(cur.last() == self.objects@[i - 1]);
                assert(key_views(keys@) =~= matching_keys(cur, bucket@, prefix@));
            }
        }
        proof {
            assert(self.objects@.subrange(0, self.objects@.len() as int) =~= self.objects@);
            let listing = matching_keys(self.objects@, bucket@, prefix@);
            assert(keys@.len() == listing.len());
            assert(key_views(keys@) == listing.subrange(0, keys@.len() as int)) by {
                assert(listing.subrange(0, listing.len() as int) =~= listing);
            }
        }
        Ok(ListPage { keys, is_truncated: false, next_token: None })
    }

    fn wait_until_object_exists(&self, bucket: &str, key: &str, timeout_secs: u64) -> (r: Result<
        (),
        BackendError,
    >) {
        proof {
            use_type_invariant(&*self);
        }
        match self.find_entry(bucket, key) {
            Some(i) => {
                proof {
                    lemma_assoc_lookup(self.objects@, i as int);
                }
                Ok(())
            },
            None => {
                Err(
                    BackendError::Timeout {
                        cause: "object did not appear before the deadline".to_owned(),
                    },
                )
            },
        }
    }
}

/// Copies a byte vector.
pub fn clone_bytes(v: &Vec<u8>) -> (r: Vec<u8>)
    ensures
        r@ == v@,
{
    let mut r: Vec<u8> = Vec::new();
    let mut i: usize = 0;
    while i < v.len()
        invariant
            0 <= i <= v@.len(),
            r@ == v@.subrange(0, i as int),
        decreases v@.len() - i,
    {
        r.push(v[i]);
        proof {
            assert(r@ =~= v@.subrange(0, i + 1));
        }
        i += 1;
    }
    proof {
        assert(v@.subrange(0, v@.len() as int) =~= v@);
    }
    r
}

/// Copies an optional metadata entry list, preserving its view.
pub fn clone_metadata(m: &Option<Vec<(String, String)>>) -> (r: Option<Vec<(String, String)>>)
    ensures
        opt_meta_view(r) == opt_meta_view(*m),
{
    match m {
        None => None,
        Some(entries) => {
            let mut r: Vec<(String, String)> = Vec::new();
            let mut i: usize = 0;
            while i < entries.len()
                invariant
                    0 <= i <= entries@.len(),
                    r@.len() == i,
                    forall|j: int|
                        0 <= j < i ==> (#[trigger] r@[j]).0@ == entries@[j].0@ && r@[j].1@
                            == entries@[j].1@,
                decreases entries@.len() - i,
            {
                let e = &entries[i];
                r.push((e.0.clone(), e.1.clone()));
                i += 1;
            }
            proof {
                assert(crate::backend::meta_view(r@) =~= crate::backend::meta_view(entries@));
            }
            Some(r)
        },
    }
}

/// Compares two strings character by character.
pub fn str_eq(a: &str, b: &str) -> (r: bool)
    ensures
        r == (a@ == b@),
{
    let n = a.unicode_len();
    let m = b.unicode_len();
    if n != m {
        return false;
    }
    let mut i: usize = 0;
    while i < n
        invariant
            0 <= i <= n,
            n == a@.len(),
            n == b@.len(),
            forall|j: int| 0 <= j < i ==> a@[j] == b@[j],
        decreases n - i,
    {
        if a.get_char(i) != b.get_char(i) {
            return false;
        }
        i += 1;
    }
    assert(a@ =~= b@);
    true
}

} // verus!
