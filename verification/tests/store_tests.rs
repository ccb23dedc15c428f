use objstore::Blob;
use objstore::Object;
use objstore::ObjectStore;
use objstore::Serializable;
use objstore::Tree;
use objstore::TreeEntry;
use objstore::generate_object_path;
use objstore::hash_data;
use objstore::objects_subdir;
use objstore::save_object;

#[test]
fn test_tree_serialization() {
    let blob1 = Blob::from_data(b"123");
    let blob2 = Blob::from_data(b"second");

    let mut serialized_blobs = Vec::new();
    serialized_blobs.extend_from_slice(b"4445 Blob1\x00");
    serialized_blobs.extend_from_slice(&hash_data(blob1.serialize().as_slice()));
    serialized_blobs.extend_from_slice(b"12 second\x00");
    serialized_blobs.extend_from_slice(&hash_data(blob2.serialize().as_slice()));

    let mut expected = Vec::from(format!("tree {}\x00", serialized_blobs.len()));
    expected.append(serialized_blobs.as_mut());

    let tree = Tree {
        entries: vec![
            TreeEntry {
                mode: 4445,
                name: String::from("Blob1"),
                data: Object::Blob(blob1),
            },
            TreeEntry {
                mode: 12,
                name: String::from("second"),
                data: Object::Blob(blob2),
            },
        ],
    };

    assert_eq!(expected, tree.serialize());
}

#[test]
fn test_save_blob() {
    let data = vec![1, 2, 3];
    let blob = Blob::from_data(data.as_slice());
    let serialized = blob.serialize();
    let mut store = ObjectStore::new();
    let (dir, file) = save_object(&mut store, &blob);
    let (dir2, file2) = generate_object_path(serialized.as_slice());
    assert_eq!(dir, dir2);
    assert_eq!(file, file2);
    let digest = hash_data(serialized.as_slice());
    assert!(store.contains_digest(digest.as_slice()));
    assert_eq!(store.body_at(digest.as_slice()).unwrap(), &serialized);
}

#[test]
fn hash_is_deterministic() {
    let fixtures: [&[u8]; 4] = [b"", b"abc", b"blob 3\x00123", b"\x00\xff"];
    for input in fixtures {
        assert_eq!(hash_data(input), hash_data(input));
        assert_eq!(hash_data(input).len(), 20);
    }
}

#[test]
fn hash_differs_across_fixtures() {
    let fixtures: [&[u8]; 7] = [
        b"",
        b"\x01",
        b"\x02",
        b"\x01\x02",
        b"123",
        b"second",
        b"blob 0\x00",
    ];
    for i in 0..fixtures.len() {
        for j in (i + 1)..fixtures.len() {
            assert_ne!(hash_data(fixtures[i]), hash_data(fixtures[j]));
        }
    }
}

#[test]
fn blob_encoding_shape() {
    let payloads: [&[u8]; 4] = [b"", b"1", b"123", b"0123456789"];
    for p in payloads {
        let s = Blob::from_data(p).serialize();
        let digits = p.len().to_string();
        assert_eq!(s.len(), 5 + digits.len() + 1 + p.len());
        let mut expected = Vec::new();
        expected.extend_from_slice(b"blob ");
        expected.extend_from_slice(digits.as_bytes());
        expected.push(0);
        expected.extend_from_slice(p);
        assert_eq!(s, expected);
    }
}

#[test]
fn empty_tree_serializes() {
    let tree = Tree { entries: vec![] };
    assert_eq!(tree.serialize(), b"tree 0\x00".to_vec());
}

#[test]
fn nested_tree_serializes() {
    let blob = Blob::from_data(b"123");
    let inner = Tree {
        entries: vec![TreeEntry {
            mode: 100644,
            name: String::from("a.txt"),
            data: Object::Blob(blob),
        }],
    };
    let inner_digest = hash_data(inner.serialize().as_slice());
    let outer = Tree {
        entries: vec![TreeEntry {
            mode: 40000,
            name: String::from("sub"),
            data: Object::Tree(inner),
        }],
    };
    let mut expected_entries = Vec::new();
    expected_entries.extend_from_slice(b"40000 sub\x00");
    expected_entries.extend_from_slice(&inner_digest);
    let mut expected = Vec::from(format!("tree {}\x00", expected_entries.len()));
    expected.append(&mut expected_entries);
    assert_eq!(outer.serialize(), expected);
}

#[test]
fn entry_with_multibyte_name_serializes() {
    let blob = Blob::from_data(b"x");
    let digest = hash_data(blob.serialize().as_slice());
    let entry = TreeEntry {
        mode: 7,
        name: String::from("na\u{ef}ve"),
        data: Object::Blob(blob),
    };
    let mut expected = Vec::new();
    expected.extend_from_slice(b"7 ");
    expected.extend_from_slice("na\u{ef}ve".as_bytes());
    expected.push(0);
    expected.extend_from_slice(&digest);
    assert_eq!(entry.serialize(), expected);
}

#[test]
fn objects_subdir_is_fixed() {
    assert_eq!(objects_subdir(), ".git/objects");
}

#[test]
fn path_derivation_splits_hex() {
    let body: &[u8] = b"blob 3\x00\x01\x02\x03";
    let (dir, file) = generate_object_path(body);
    let digest = hash_data(body);
    let full = hex::encode(&digest);
    assert_eq!(dir.len(), 2);
    assert_eq!(file.len(), 38);
    assert_eq!(dir, &full[0..2]);
    assert_eq!(file, &full[2..]);
    let reparsed = hex::decode(format!("{}{}", dir, file)).unwrap();
    assert_eq!(reparsed, digest);
}

#[test]
fn saving_twice_stores_once() {
    let blob = Blob::from_data(b"same content");
    let serialized = blob.serialize();
    let mut store = ObjectStore::new();
    let p1 = save_object(&mut store, &blob);
    let p2 = save_object(&mut store, &blob);
    assert_eq!(p1, p2);
    assert_eq!(store.count(), 1);
    let digest = hash_data(serialized.as_slice());
    assert_eq!(store.body_at(digest.as_slice()).unwrap(), &serialized);
}

#[test]
fn distinct_payloads_never_collide() {
    let b1 = Blob::from_data(b"123");
    let b2 = Blob::from_data(b"second");
    let mut store = ObjectStore::new();
    let p1 = save_object(&mut store, &b1);
    let p2 = save_object(&mut store, &b2);
    assert_ne!(p1, p2);
    assert_eq!(store.count(), 2);
    let d1 = hash_data(b1.serialize().as_slice());
    let d2 = hash_data(b2.serialize().as_slice());
    assert_eq!(store.body_at(d1.as_slice()).unwrap(), &b1.serialize());
    assert_eq!(store.body_at(d2.as_slice()).unwrap(), &b2.serialize());
}

#[test]
fn end_to_end_blob_save() {
    let blob = Blob::from_data(&[1u8, 2, 3]);
    let mut store = ObjectStore::new();
    let (dir, file) = save_object(&mut store, &blob);
    assert_eq!(dir, "ae");
    assert_eq!(file, "d2973e4b8a7ff1b30ff5c4751e5a2b38989e74");
    let digest = hex::decode("aed2973e4b8a7ff1b30ff5c4751e5a2b38989e74").unwrap();
    let body = store.body_at(digest.as_slice()).unwrap();
    assert_eq!(body.as_slice(), b"blob 3\x00\x01\x02\x03");
    assert_eq!(body.len(), 10);
}

#[test]
fn saving_tree_and_blob_addresses_both() {
    let blob = Blob::from_data(b"123");
    let tree = Tree {
        entries: vec![TreeEntry {
            mode: 100644,
            name: String::from("file"),
            data: Object::Blob(Blob::from_data(b"123")),
        }],
    };
    let mut store = ObjectStore::new();
    save_object(&mut store, &blob);
    let (dir, file) = save_object(&mut store, &tree);
    assert_eq!(store.count(), 2);
    let (dir2, file2) = generate_object_path(tree.serialize().as_slice());
    assert_eq!(dir, dir2);
    assert_eq!(file, file2);
}
