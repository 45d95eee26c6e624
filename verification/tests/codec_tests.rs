use objstore::codec::GitObject;
use objstore::codec::ObjType;
use objstore::codec::decode;
use objstore::codec::encode;
use objstore::errors::GitError;

#[test]
fn known_vector_empty_blob_encoding() {
    let blob = GitObject::Blob(Vec::new());
    let enc = encode(&blob);
    assert_eq!(enc, b"blob 0\x00".to_vec());
}

#[test]
fn encode_blob_with_payload() {
    let blob = GitObject::Blob(b"hello".to_vec());
    let enc = encode(&blob);
    assert_eq!(enc, b"blob 5\x00hello".to_vec());
}

#[test]
fn encode_each_type_tag() {
    assert_eq!(encode(&GitObject::Tree(b"x".to_vec())), b"tree 1\x00x".to_vec());
    assert_eq!(encode(&GitObject::Commit(b"xy".to_vec())), b"commit 2\x00xy".to_vec());
    assert_eq!(encode(&GitObject::Tag(b"".to_vec())), b"tag 0\x00".to_vec());
}

#[test]
fn round_trip_blob() {
    let blob = GitObject::Blob(b"some file contents\n".to_vec());
    let enc = encode(&blob);
    let back = decode(&enc).unwrap();
    assert_eq!(back, blob);
}

#[test]
fn round_trip_all_types() {
    let objects = vec![
        GitObject::Blob(b"".to_vec()),
        GitObject::Tree(b"entries".to_vec()),
        GitObject::Commit(b"tree abc\n".to_vec()),
        GitObject::Tag(b"v1".to_vec()),
    ];
    for obj in objects {
        let enc = encode(&obj);
        let back = decode(&enc).unwrap();
        assert_eq!(back, obj);
    }
}

#[test]
fn round_trip_payload_with_nul_and_space() {
    let blob = GitObject::Blob(b"a \x00 b \x00".to_vec());
    let back = decode(&encode(&blob)).unwrap();
    assert_eq!(back, blob);
}

#[test]
fn decode_no_space_is_malformed_header() {
    assert_eq!(decode(b"xyzzy"), Err(GitError::MalformedHeader));
    assert_eq!(decode(b"blob0\x00abc"), Err(GitError::MalformedHeader));
    assert_eq!(decode(b""), Err(GitError::MalformedHeader));
}

#[test]
fn decode_nul_before_any_space_is_malformed_header() {
    assert_eq!(decode(b"ab\x00cd ef"), Err(GitError::MalformedHeader));
}

#[test]
fn decode_no_nul_is_malformed_header() {
    assert_eq!(decode(b"blob 3abc"), Err(GitError::MalformedHeader));
}

#[test]
fn decode_bad_digits_is_malformed_length() {
    assert_eq!(decode(b"blob x\x00abc"), Err(GitError::MalformedLength));
    assert_eq!(decode(b"blob \x00abc"), Err(GitError::MalformedLength));
    assert_eq!(decode(b"blob -1\x00abc"), Err(GitError::MalformedLength));
}

#[test]
fn decode_wrong_length_is_length_mismatch() {
    assert_eq!(decode(b"blob 5\x00abc"), Err(GitError::LengthMismatch));
    assert_eq!(decode(b"blob 0\x00abc"), Err(GitError::LengthMismatch));
    assert_eq!(decode(b"blob 99999999999999999999\x00abc"), Err(GitError::LengthMismatch));
}

#[test]
fn decode_unknown_tag_is_unknown_object_type() {
    assert_eq!(decode(b"blobx 3\x00abc"), Err(GitError::UnknownObjectType));
    assert_eq!(decode(b"BLOB 3\x00abc"), Err(GitError::UnknownObjectType));
    assert_eq!(decode(b" 3\x00abc"), Err(GitError::UnknownObjectType));
}

#[test]
fn decode_accepts_leading_zero_lengths() {
    let back = decode(b"blob 007\x00payload").unwrap();
    assert_eq!(back, GitObject::Blob(b"payload".to_vec()));
}

#[test]
fn serialize_returns_payload_verbatim() {
    let obj = GitObject::Commit(b"tree 123\n".to_vec());
    assert_eq!(obj.serialize(), b"tree 123\n".to_vec());
}

#[test]
fn deserialize_builds_the_tagged_object() {
    let obj = GitObject::deserialize(ObjType::Tag, b"data".to_vec());
    assert_eq!(obj, GitObject::Tag(b"data".to_vec()));
}

#[test]
fn fmt_names_the_type() {
    assert_eq!(GitObject::Blob(Vec::new()).fmt(), b"blob".to_vec());
    assert_eq!(GitObject::Tree(Vec::new()).fmt(), b"tree".to_vec());
    assert_eq!(GitObject::Commit(Vec::new()).fmt(), b"commit".to_vec());
    assert_eq!(GitObject::Tag(Vec::new()).fmt(), b"tag".to_vec());
}
