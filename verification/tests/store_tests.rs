use objstore::codec::GitObject;
use objstore::errors::GitError;
use objstore::repo::GitRepository;
use objstore::store::object_find;
use objstore::store::object_path;
use objstore::store::object_read;
use objstore::store::object_write;

fn fresh_repo() -> GitRepository {
    GitRepository::new("/tmp/x", true, false, None).unwrap()
}

#[test]
fn known_vector_empty_blob_hash() {
    let repo = fresh_repo();
    let (hash, written) = object_write(&repo, &GitObject::Blob(Vec::new()), false);
    assert_eq!(hash, "e69de29bb2d1d6434b8b29ae775ad8c2e48c5391");
    assert!(written.is_none());
}

#[test]
fn write_lays_out_the_fanout_path() {
    let repo = fresh_repo();
    let (hash, written) = object_write(&repo, &GitObject::Blob(Vec::new()), true);
    let w = written.unwrap();
    assert_eq!(w.dir, "/tmp/x/.git/objects/e6");
    assert_eq!(w.file, "/tmp/x/.git/objects/e6/9de29bb2d1d6434b8b29ae775ad8c2e48c5391");
    assert_eq!(hash.len(), 40);
}

#[test]
fn write_compresses_rather_than_copies() {
    let repo = fresh_repo();
    let (_, written) = object_write(&repo, &GitObject::Blob(b"abc".to_vec()), true);
    let w = written.unwrap();
    // A zlib stream starts with the 0x78 method byte; the canonical
    // encoding starts with the letter b.
    assert_ne!(w.data, b"blob 3\x00abc".to_vec());
    assert_eq!(w.data[0], 0x78);
}

#[test]
fn same_blob_twice_same_hash_same_file() {
    let repo = fresh_repo();
    let (h1, w1) = object_write(&repo, &GitObject::Blob(b"dup".to_vec()), true);
    let (h2, w2) = object_write(&repo, &GitObject::Blob(b"dup".to_vec()), true);
    assert_eq!(h1, h2);
    let w1 = w1.unwrap();
    let w2 = w2.unwrap();
    assert_eq!(w1.file, w2.file);
    assert_eq!(w1.data, w2.data);
    // A create-if-absent store keeps a single entry for the pair.
    let mut disk: std::collections::HashMap<String, Vec<u8>> = std::collections::HashMap::new();
    for w in [w1, w2] {
        disk.entry(w.file).or_insert(w.data);
    }
    assert_eq!(disk.len(), 1);
}

#[test]
fn different_payloads_different_hashes() {
    let repo = fresh_repo();
    let (h1, _) = object_write(&repo, &GitObject::Blob(b"a".to_vec()), false);
    let (h2, _) = object_write(&repo, &GitObject::Blob(b"b".to_vec()), false);
    let (h3, _) = object_write(&repo, &GitObject::Tree(b"a".to_vec()), false);
    assert_ne!(h1, h2);
    assert_ne!(h1, h3);
}

#[test]
fn store_round_trip_through_compression() {
    let repo = fresh_repo();
    let obj = GitObject::Commit(b"tree deadbeef\nauthor someone\n".to_vec());
    let (_, written) = object_write(&repo, &obj, true);
    let w = written.unwrap();
    let back = object_read(Some(&w.data)).unwrap();
    assert_eq!(back, obj);
}

#[test]
fn read_missing_file_is_object_not_found() {
    assert_eq!(object_read(None), Err(GitError::ObjectNotFound));
}

#[test]
fn read_garbage_is_corrupt_object() {
    let garbage = b"this is not a zlib stream".to_vec();
    assert_eq!(object_read(Some(&garbage)), Err(GitError::CorruptObject));
}

#[test]
fn object_path_splits_the_hash() {
    let repo = fresh_repo();
    let (dir, file) = object_path(&repo, "e69de29bb2d1d6434b8b29ae775ad8c2e48c5391");
    assert_eq!(dir, "/tmp/x/.git/objects/e6");
    assert_eq!(file, "/tmp/x/.git/objects/e6/9de29bb2d1d6434b8b29ae775ad8c2e48c5391");
}

#[test]
fn object_find_is_identity_on_full_hashes() {
    let repo = fresh_repo();
    let name = "e69de29bb2d1d6434b8b29ae775ad8c2e48c5391";
    assert_eq!(object_find(&repo, name, "blob", true), name);
}

#[test]
fn error_messages_identify_the_failure() {
    assert_eq!(GitError::LengthMismatch.message(), "malformed object: bad length");
    assert_eq!(GitError::NotARepository.message(), "not a git repository");
}
