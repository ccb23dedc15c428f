//! Content kinds — blobs, trees, tree entries — and their canonical bodies.

use vstd::prelude::*;
use vstd::slice::slice_to_vec;
use vstd::utf8::encode_utf8;
use crate::digest::hash_data;
use crate::digest::sha1_of;
use crate::encoding::blob_tag;
use crate::encoding::body_header;
use crate::encoding::dec_digits;
use crate::encoding::decimal_bytes;
use crate::encoding::tree_tag;

verus! {

/// A content value with a canonical byte encoding, its object body: `body`
/// says what the encoding is, and `serialize` produces exactly it. The store
/// never inspects a value's internals, only this body.
pub trait Serializable {
    /// The canonical object body of this value.
    spec fn body(&self) -> Seq<u8>;

    /// Produces the canonical object body.
    fn serialize(&self) -> (r: Vec<u8>)
        ensures
            r@ == self.body(),
    ;
}

/// Raw file bytes; immutable once constructed. Its body is `blob <n>\0<bytes>`.
pub struct Blob {
    data: Vec<u8>,
}

impl View for Blob {
    type V = Seq<u8>;

    closed spec fn view(&self) -> Seq<u8> {
        self.data@
    }
}

impl Blob {
    /// Wraps a copy of the given bytes.
    pub fn from_data(raw_data: &[u8]) -> (b: Blob)
        ensures
            b@ == raw_data@,
    {
        Blob { data: slice_to_vec(raw_data) }
    }
}

/// A named, moded reference to another object. The entry owns the referenced
/// object; the object's digest is computed when the entry is serialized.
pub struct TreeEntry {
    pub mode: u32,
    pub name: String,
    pub data: Object,
}

/// An ordered sequence of entries, preserved in encoding order. Its body is
/// `tree <n>\0<concatenated entry encodings>`.
pub struct Tree {
    pub entries: Vec<TreeEntry>,
}

/// A closed set of content kinds, dispatched purely through [`Serializable`].
pub enum Object {
    Blob(Blob),
    Tree(Tree),
}

/// The body of a blob with the given payload.
pub open spec fn blob_body(data: Seq<u8>) -> Seq<u8> {
    body_header(blob_tag(), data.len()) + data
}

/// The body of any object.
pub open spec fn object_body(o: Object) -> Seq<u8>
    decreases o, 1int,
{
    match o {
        Object::Blob(b) => blob_body(b@),
        Object::Tree(t) => tree_body(t),
    }
}

/// The body of a tree: the header over the concatenated entry encodings,
/// then those encodings.
pub open spec fn tree_body(t: Tree) -> Seq<u8>
    decreases t, 0int,
{
    body_header(tree_tag(), entries_encoding(t.entries, 0).len()) + entries_encoding(t.entries, 0)
}

/// The concatenated encodings of the entries from index `i` on.
pub open spec fn entries_encoding(entries: Vec<TreeEntry>, i: int) -> Seq<u8>
    decreases entries, entries.len() - i,
{
    if 0 <= i < entries.len() {
        entry_encoding(entries[i]) + entries_encoding(entries, i + 1)
    } else {
        Seq::empty()
    }
}

/// The encoding of one entry: `<mode> <name>\0` followed by the raw 20-byte
/// digest of the referenced object's body.
pub open spec fn entry_encoding(e: TreeEntry) -> Seq<u8>
    decreases e, 0int,
{
    dec_digits(e.mode as nat) + seq![32u8] + encode_utf8(e.name@) + seq![0u8]
        + sha1_of(object_body(e.data))
}

/// Appends all of `src` to `dst`.
fn push_bytes(dst: &mut Vec<u8>, src: &[u8])
    ensures
        final(dst)@ == old(dst)@ + src@,
{
    let mut i: usize = 0;
    while i < src.len()
        invariant
            i <= src.len(),
            dst@ == old(dst)@ + src@.subrange(0, i as int),
        decreases src.len() - i,
    {
        let b = src[i];
        dst.push(b);
        proof {
            assert(dst@ =~= old(dst)@ + src@.subrange(0, i as int + 1));
        }
        i = i + 1;
    }
    proof {
        assert(src@.subrange(0, i as int) =~= src@);
    }
}

/// Serializes a blob: `blob <n>\0<bytes>`.
fn serialize_blob(b: &Blob) -> (r: Vec<u8>)
    ensures
        r@ == blob_body(b@),
{
    let mut out: Vec<u8> = Vec::new();
    out.push(98);
    out.push(108);
    out.push(111);
    out.push(98);
    out.push(32);
    let len_bytes = decimal_bytes(b.data.len() as u64);
    push_bytes(&mut out, len_bytes.as_slice());
    out.push(0);
    push_bytes(&mut out, b.data.as_slice());
    proof {
        assert(out@ =~= blob_body(b@));
    }
    out
}

/// Serializes one entry: `<mode> <name>\0<digest of the referenced body>`.
fn serialize_entry(e: &TreeEntry) -> (r: Vec<u8>)
    ensures
        r@ == entry_encoding(*e),
    decreases *e, 0int,
{
    let mut out = decimal_bytes(e.mode as u64);
    out.push(32);
    push_bytes(&mut out, e.name.as_str().as_bytes());
    out.push(0);
    let obj_bytes = serialize_object(&e.data);
    let digest = hash_data(obj_bytes.as_slice());
    push_bytes(&mut out, digest.as_slice());
    proof {
        assert(out@ =~= entry_encoding(*e));
    }
    out
}

/// Serializes a tree: the concatenated entry encodings, in entry order,
/// behind the `tree <n>\0` header.
fn serialize_tree(t: &Tree) -> (r: Vec<u8>)
    ensures
        r@ == tree_body(*t),
    decreases *t, 0int,
{
    let mut inner: Vec<u8> = Vec::new();
    let n = t.entries.len();
    let mut i: usize = 0;
    while i < n
        invariant
            i <= n,
            n == t.entries.len(),
            entries_encoding(t.entries, 0) == inner@ + entries_encoding(t.entries, i as int),
        decreases n - i,
    {
        proof {
            assert(decreases_to!(t.entries => t.entries[i as int]));
        }
        let enc = serialize_entry(&t.entries[i]);
        push_bytes(&mut inner, enc.as_slice());
        proof {
            assert(entries_encoding(t.entries, 0) =~= inner@ + entries_encoding(
                t.entries,
                i as int + 1,
            ));
        }
        i = i + 1;
    }
    proof {
        assert(inner@ =~= entries_encoding(t.entries, 0));
    }
    let mut out: Vec<u8> = Vec::new();
    out.push(116);
    out.push(114);
    out.push(101);
    out.push(101);
    out.push(32);
    let len_bytes = decimal_bytes(inner.len() as u64);
    push_bytes(&mut out, len_bytes.as_slice());
    out.push(0);
    push_bytes(&mut out, inner.as_slice());
    proof {
        assert(out@ =~= tree_body(*t));
    }
    out
}

/// Serializes any object, by its kind.
pub fn serialize_object(o: &Object) -> (r: Vec<u8>)
    ensures
        r@ == object_body(*o),
    decreases *o, 1int,
{
    match o {
        Object::Blob(b) => serialize_blob(b),
        Object::Tree(t) => serialize_tree(t),
    }
}

impl Serializable for Blob {
    open spec fn body(&self) -> Seq<u8> {
        blob_body(self@)
    }

    fn serialize(&self) -> (r: Vec<u8>) {
        serialize_blob(self)
    }
}

impl Serializable for TreeEntry {
    open spec fn body(&self) -> Seq<u8> {
        entry_encoding(*self)
    }

    fn serialize(&self) -> (r: Vec<u8>) {
        serialize_entry(self)
    }
}

impl Serializable for Tree {
    open spec fn body(&self) -> Seq<u8> {
        tree_body(*self)
    }

    fn serialize(&self) -> (r: Vec<u8>) {
        serialize_tree(self)
    }
}

impl Serializable for Object {
    open spec fn body(&self) -> Seq<u8> {
        object_body(*self)
    }

    fn serialize(&self) -> (r: Vec<u8>) {
        serialize_object(self)
    }
}

/// A blob's body is the text `blob `, the decimal payload length, a NUL, and
/// then the payload unchanged — `len("blob ") + digits(n) + 1 + n` bytes.
pub proof fn lemma_blob_body_shape(data: Seq<u8>)
    ensures
        blob_body(data).len() == 5 + dec_digits(data.len()).len() + 1 + data.len(),
        blob_body(data).subrange(0, 5) == seq![98u8, 108u8, 111u8, 98u8, 32u8],
        blob_body(data).subrange(5, 5 + dec_digits(data.len()).len() as int) == dec_digits(
            data.len(),
        ),
        blob_body(data)[5 + dec_digits(data.len()).len() as int] == 0u8,
        blob_body(data).subrange(
            6 + dec_digits(data.len()).len() as int,
            blob_body(data).len() as int,
        ) == data,
{
    let d = dec_digits(data.len());
    assert(blob_body(data).subrange(0, 5) =~= seq![98u8, 108u8, 111u8, 98u8, 32u8]);
    assert(blob_body(data).subrange(5, 5 + d.len() as int) =~= d);
    assert(blob_body(data).subrange(6 + d.len() as int, blob_body(data).len() as int) =~= data);
}

} // verus!
