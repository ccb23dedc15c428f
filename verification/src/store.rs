//! The persistence layer: each canonical body is kept, at most once, under
//! the SHA-1 digest of its bytes, and the digest's hexadecimal rendering
//! gives the two-level relative path for the on-disk layout.

use vstd::prelude::*;
use vstd::slice::slice_subrange;
use crate::digest::hash_data;
use crate::digest::hex_encode;
use crate::digest::hex_of;
use crate::digest::lemma_hex_of_concat;
use crate::digest::lemma_hex_of_injective;
use crate::digest::lemma_hex_of_len;
use crate::digest::sha1_of;
use crate::objects::Serializable;

verus! {

/// The digest-keyed contents of a sequence of stored (digest, body) pairs,
/// later pairs winning (no two pairs ever share a digest here).
spec fn map_of(s: Seq<(Vec<u8>, Vec<u8>)>) -> Map<Seq<u8>, Seq<u8>>
    decreases s.len(),
{
    if s.len() == 0 {
        Map::empty()
    } else {
        map_of(s.drop_last()).insert(s.last().0@, s.last().1@)
    }
}

/// No two pairs share a digest.
spec fn distinct_keys(s: Seq<(Vec<u8>, Vec<u8>)>) -> bool {
    forall|i: int, j: int| 0 <= i < j < s.len() ==> s[i].0@ != s[j].0@
}

proof fn lemma_map_of_contains(s: Seq<(Vec<u8>, Vec<u8>)>, k: Seq<u8>)
    ensures
        map_of(s).contains_key(k) <==> exists|i: int| 0 <= i < s.len() && s[i].0@ == k,
    decreases s.len(),
{
    if s.len() > 0 {
        lemma_map_of_contains(s.drop_last(), k);
        if s.last().0@ == k {
            assert(s[s.len() - 1].0@ == k);
        } else if map_of(s).contains_key(k) {
            let i = choose|i: int| 0 <= i < s.drop_last().len() && s.drop_last()[i].0@ == k;
            assert(s[i].0@ == k);
        } else if exists|i: int| 0 <= i < s.len() && s[i].0@ == k {
            let i = choose|i: int| 0 <= i < s.len() && s[i].0@ == k;
            assert(s.drop_last()[i].0@ == k);
        }
    }
}

proof fn lemma_map_of_index(s: Seq<(Vec<u8>, Vec<u8>)>, i: int)
    requires
        distinct_keys(s),
        0 <= i < s.len(),
    ensures
        map_of(s).contains_key(s[i].0@),
        map_of(s)[s[i].0@] == s[i].1@,
    decreases s.len(),
{
    if i < s.len() - 1 {
        assert(distinct_keys(s.drop_last())) by {
            assert(forall|x: int, y: int|
                0 <= x < y < s.drop_last().len() ==> s.drop_last()[x].0@ != s.drop_last()[y].0@);
        }
        lemma_map_of_index(s.drop_last(), i);
        assert(s.drop_last()[i] == s[i]);
        assert(s[i].0@ != s.last().0@);
    }
}

proof fn lemma_map_of_dom_len(s: Seq<(Vec<u8>, Vec<u8>)>)
    requires
        distinct_keys(s),
    ensures
        map_of(s).dom().finite(),
        map_of(s).dom().len() == s.len(),
    decreases s.len(),
{
    if s.len() == 0 {
        assert(map_of(s).dom() =~= Set::<Seq<u8>>::empty());
    } else {
        let rest = s.drop_last();
        assert(distinct_keys(rest)) by {
            assert(forall|x: int, y: int|
                0 <= x < y < rest.len() ==> rest[x].0@ != rest[y].0@);
        }
        lemma_map_of_dom_len(rest);
        lemma_map_of_contains(rest, s.last().0@);
        if map_of(rest).contains_key(s.last().0@) {
            let i = choose|i: int| 0 <= i < rest.len() && rest[i].0@ == s.last().0@;
            assert(s[i].0@ == s[s.len() - 1].0@);
            assert(false);
        }
        assert(map_of(s).dom() =~= map_of(rest).dom().insert(s.last().0@));
    }
}

/// Whether two byte slices hold the same bytes.
fn bytes_eq(a: &[u8], b: &[u8]) -> (r: bool)
    ensures
        r == (a@ == b@),
{
    if a.len() != b.len() {
        return false;
    }
    let mut i: usize = 0;
    while i < a.len()
        invariant
            i <= a@.len(),
            a@.len() == b@.len(),
            forall|j: int| 0 <= j < i ==> a@[j] == b@[j],
        decreases a@.len() - i,
    {
        if a[i] != b[i] {
            return false;
        }
        i = i + 1;
    }
    proof {
        assert(a@ =~= b@);
    }
    true
}

/// Finds the position of a digest among the stored pairs, if any.
fn find_digest(objects: &Vec<(Vec<u8>, Vec<u8>)>, digest: &[u8]) -> (r: Option<usize>)
    ensures
        match r {
            Some(i) => i < objects@.len() && objects@[i as int].0@ == digest@,
            None => forall|j: int| 0 <= j < objects@.len() ==> objects@[j].0@ != digest@,
        },
{
    let mut i: usize = 0;
    while i < objects.len()
        invariant
            i <= objects@.len(),
            forall|j: int| 0 <= j < i ==> objects@[j].0@ != digest@,
        decreases objects@.len() - i,
    {
        if bytes_eq(objects[i].0.as_slice(), digest) {
            return Some(i);
        }
        i = i + 1;
    }
    None
}

/// An in-memory image of the object store: each saved body, keyed by the
/// SHA-1 digest of its bytes. The view is that digest-to-body map.
pub struct ObjectStore {
    objects: Vec<(Vec<u8>, Vec<u8>)>,
}

impl View for ObjectStore {
    type V = Map<Seq<u8>, Seq<u8>>;

    closed spec fn view(&self) -> Map<Seq<u8>, Seq<u8>> {
        map_of(self.objects@)
    }
}

impl ObjectStore {
    /// Each digest is held at most once.
    pub closed spec fn wf(&self) -> bool {
        distinct_keys(self.objects@)
    }

    /// An empty store.
    pub fn new() -> (s: ObjectStore)
        ensures
            s@ == Map::<Seq<u8>, Seq<u8>>::empty(),
            s.wf(),
    {
        ObjectStore { objects: Vec::new() }
    }

    /// How many objects the store holds.
    pub fn count(&self) -> (n: usize)
        requires
            self.wf(),
        ensures
            n == self@.dom().len(),
    {
        proof {
            lemma_map_of_dom_len(self.objects@);
        }
        self.objects.len()
    }

    /// Whether a body is stored under the given digest.
    pub fn contains_digest(&self, digest: &[u8]) -> (r: bool)
        ensures
            r == self@.contains_key(digest@),
    {
        proof {
            lemma_map_of_contains(self.objects@, digest@);
        }
        match find_digest(&self.objects, digest) {
            Some(_) => true,
            None => false,
        }
    }

    /// The body stored under the given digest, if any.
    pub fn body_at(&self, digest: &[u8]) -> (r: Option<&Vec<u8>>)
        requires
            self.wf(),
        ensures
            match r {
                Some(b) => self@.contains_key(digest@) && b@ == self@[digest@],
                None => !self@.contains_key(digest@),
            },
    {
        proof {
            lemma_map_of_contains(self.objects@, digest@);
        }
        match find_digest(&self.objects, digest) {
            Some(i) => {
                proof {
                    lemma_map_of_index(self.objects@, i as int);
                }
                Some(&self.objects[i].1)
            },
            None => None,
        }
    }
}

/// The store contents after a body is saved: unchanged if its digest is
/// already present (the stored bytes are then identical by content
/// addressing), else extended by the body under its digest.
pub open spec fn store_after(m: Map<Seq<u8>, Seq<u8>>, body: Seq<u8>) -> Map<Seq<u8>, Seq<u8>> {
    if m.contains_key(sha1_of(body)) {
        m
    } else {
        m.insert(sha1_of(body), body)
    }
}

/// The fixed subdirectory, under a store root, that holds every object.
pub fn objects_subdir() -> (r: &'static str)
    ensures
        r@ == ".git/objects"@,
{
    ".git/objects"
}

/// The two-level relative path for a body: the first hexadecimal character
/// pair of its digest as the directory, the remaining 38 as the file name.
pub fn generate_object_path(data: &[u8]) -> (r: (String, String))
    ensures
        r.0@ + r.1@ == hex_of(sha1_of(data@)),
        r.0@ == hex_of(sha1_of(data@).subrange(0, 1)),
        r.1@ == hex_of(sha1_of(data@).subrange(1, 20)),
        r.0@.len() == 2,
        r.1@.len() == 38,
{
    let digest = hash_data(data);
    let dir = hex_encode(slice_subrange(digest.as_slice(), 0, 1));
    let file = hex_encode(slice_subrange(digest.as_slice(), 1, 20));
    proof {
        let d = sha1_of(data@);
        assert(d =~= d.subrange(0, 1) + d.subrange(1, 20));
        lemma_hex_of_concat(d.subrange(0, 1), d.subrange(1, 20));
        lemma_hex_of_len(d.subrange(0, 1));
        lemma_hex_of_len(d.subrange(1, 20));
    }
    (dir, file)
}

/// Saves an object's canonical body under its digest, writing nothing when a
/// body with that digest is already stored, and returns the relative path
/// (directory, file name) derived from the digest.
pub fn save_object<T: Serializable>(store: &mut ObjectStore, object: &T) -> (r: (String, String))
    ensures
        final(store)@ == store_after(old(store)@, object.body()),
        old(store).wf() ==> final(store).wf(),
        r.0@ + r.1@ == hex_of(sha1_of(object.body())),
        r.0@.len() == 2,
        r.1@.len() == 38,
{
    let body = object.serialize();
    let digest = hash_data(body.as_slice());
    let r = generate_object_path(body.as_slice());
    let ghost dg = digest@;
    proof {
        lemma_map_of_contains(store.objects@, dg);
    }
    match find_digest(&store.objects, digest.as_slice()) {
        Some(_) => r,
        None => {
            let ghost before = store.objects@;
            store.objects.push((digest, body));
            proof {
                assert(store.objects@.drop_last() =~= before);
                assert(store@ == map_of(before).insert(dg, object.body()));
            }
            r
        },
    }
}

/// Saving is idempotent: saving a body into contents that already hold it
/// changes nothing, so saving the same object twice stores it once.
pub proof fn lemma_save_idempotent(m: Map<Seq<u8>, Seq<u8>>, body: Seq<u8>)
    ensures
        store_after(store_after(m, body), body) == store_after(m, body),
{
}

/// Bodies with distinct digests never collide: saving both leaves both in
/// the store, each under its own digest, keeping its own bytes, and their
/// derived paths differ because distinct digests render to distinct hex.
pub proof fn lemma_save_distinct(m: Map<Seq<u8>, Seq<u8>>, b1: Seq<u8>, b2: Seq<u8>)
    requires
        sha1_of(b1) != sha1_of(b2),
        !m.contains_key(sha1_of(b1)),
        !m.contains_key(sha1_of(b2)),
    ensures
        store_after(store_after(m, b1), b2)[sha1_of(b1)] == b1,
        store_after(store_after(m, b1), b2)[sha1_of(b2)] == b2,
        hex_of(sha1_of(b1)) != hex_of(sha1_of(b2)),
{
    if hex_of(sha1_of(b1)) == hex_of(sha1_of(b2)) {
        lemma_hex_of_injective(sha1_of(b1), sha1_of(b2));
    }
}

} // verus!
