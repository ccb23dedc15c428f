//! A minimal content-addressable object store: content is serialized into a
//! canonical byte encoding (`<tag> <len>\0<bytes>`), addressed by the SHA-1
//! digest of that encoding, and recorded under a two-level path derived from
//! the digest's hexadecimal form, so that identical content is stored at most
//! once and distinct content never collides.

pub mod digest;
pub mod encoding;
pub mod objects;
pub mod store;

pub use digest::hash_data;
pub use objects::Blob;
pub use objects::Object;
pub use objects::Serializable;
pub use objects::Tree;
pub use objects::TreeEntry;
pub use store::ObjectStore;
pub use store::generate_object_path;
pub use store::objects_subdir;
pub use store::save_object;
