use vstd::prelude::*;

use crate::codec::GitObject;
use crate::codec::ObjType;
use crate::codec::decode;
use crate::codec::decode_spec;
use crate::codec::encode;
use crate::codec::encoding;
use crate::codec::obj_result_view;
use crate::errors::GitError;
use crate::hashing::hex_of;
use crate::hashing::lemma_hex_append;
use crate::hashing::lemma_hex_len;
use crate::hashing::sha1_digest;
use crate::hashing::sha1_of;
use crate::hashing::to_hex;
use crate::repo::GitRepository;
use crate::zlib::zlib_compress;
use crate::zlib::zlib_decompress;
use crate::zlib::zlib_deflate;
use vstd::string::StrSliceExecFns;
use vstd::string::StringExecFns;

verus! {

/// The content address of an object: the lowercase hexadecimal SHA-1
/// digest of its canonical encoding.
pub open spec fn object_hash_spec(t: ObjType, p: Seq<u8>) -> Seq<char> {
    hex_of(sha1_of(encoding(t, p)))
}

/// One loose object file the caller is asked to store: the fan-out
/// directory, the file inside it, and the compressed bytes. The file
/// need not be written when it already exists: its content is a
/// function of its name.
pub struct LooseWrite {
    pub dir: String,
    pub file: String,
    pub data: Vec<u8>,
}

/// Hash an object and, when `actually_write` is set, lay out the loose
/// file that stores it: `objects/` then the first two hash digits,
/// then the remaining thirty-eight, holding the compressed canonical
/// encoding. The hash is always returned, so a caller can hash
/// without writing.
pub fn object_write(repo: &GitRepository, obj: &GitObject, actually_write: bool) -> (r: (
    String,
    Option<LooseWrite>,
))
    ensures
        r.0@ == object_hash_spec(obj.obj_type(), obj.payload()),
        r.0@.len() == 40,
        !actually_write ==> r.1 is None,
        actually_write ==> (r.1 matches Some(w) && w.dir@ == repo.gitdir@ + "/objects/"@
            + r.0@.take(2) && w.file@ == w.dir@ + "/"@ + r.0@.skip(2) && w.data@ == zlib_deflate(
            encoding(obj.obj_type(), obj.payload()),
        )),
{
    let enc = encode(obj);
    let digest = sha1_digest(enc.as_slice());
    let hash = to_hex(digest.as_slice());
    proof {
        lemma_hex_len(digest@);
    }
    if !actually_write {
        return (hash, None);
    }
    let head = to_hex(vstd::slice::slice_subrange(digest.as_slice(), 0, 1));
    let tail = to_hex(vstd::slice::slice_subrange(digest.as_slice(), 1, digest.len()));
    proof {
        lemma_hex_append(digest@.subrange(0, 1), digest@.subrange(1, digest@.len() as int));
        assert(digest@.subrange(0, 1) + digest@.subrange(1, digest@.len() as int) =~= digest@);
        lemma_hex_len(digest@.subrange(0, 1));
        assert(head@ + tail@ =~= hash@);
        assert(head@ =~= hash@.take(2));
        assert(tail@ =~= hash@.skip(2));
    }
    let dir = repo.gitdir.clone().concat("/objects/").concat(head.as_str());
    let file = dir.clone().concat("/").concat(tail.as_str());
    let data = zlib_compress(enc.as_slice());
    (hash, Some(LooseWrite { dir, file, data }))
}

/// Reconstruct an object from the bytes of its loose file. `None`
/// stands for a file that does not exist and yields `ObjectNotFound`;
/// bytes that do not decompress yield `CorruptObject`; anything the
/// decompressor returns is decoded exactly as `decode_spec` says, so
/// in particular the compressed canonical encoding of any object
/// yields back that object.
pub fn object_read(file: Option<&Vec<u8>>) -> (r: Result<GitObject, GitError>)
    ensures
        file is None ==> r == Err::<GitObject, GitError>(GitError::ObjectNotFound),
        file matches Some(raw) ==> (forall|b: Seq<u8>|
            #[trigger] zlib_deflate(b) == raw@ ==> obj_result_view(r) == decode_spec(b)),
{
    match file {
        None => Err(GitError::ObjectNotFound),
        Some(raw) => {
            match zlib_decompress(raw.as_slice()) {
                None => Err(GitError::CorruptObject),
                Some(d) => decode(d.as_slice()),
            }
        },
    }
}

/// The loose file that stores the object named by a 40-character
/// hash: the fan-out directory and the file inside it.
pub fn object_path(repo: &GitRepository, sha: &str) -> (r: (String, String))
    requires
        sha@.len() == 40,
        vstd::string::is_ascii(sha),
    ensures
        r.0@ == repo.gitdir@ + "/objects/"@ + sha@.take(2),
        r.1@ == r.0@ + "/"@ + sha@.skip(2),
{
    let head = sha.substring_ascii(0, 2);
    let tail = sha.substring_ascii(2, 40);
    let dir = repo.gitdir.clone().concat("/objects/").concat(head);
    let file = dir.clone().concat("/").concat(tail);
    (dir, file)
}

/// Name resolution over full 40-character hashes: in this store, a
/// name resolves to itself (short hashes and symbolic refs are out of
/// scope).
pub fn object_find<'a>(repo: &GitRepository, name: &'a str, fmt: &str, follow: bool) -> (r: &'a str)
    ensures
        r@ == name@,
{
    name
}

/// Content addressing is deterministic: two objects of the same kind
/// with the same payload have the same hash, hence the same loose
/// file, so writing the same object twice stores one file.
pub proof fn lemma_content_addressing(o1: &GitObject, o2: &GitObject)
    requires
        o1.obj_type() == o2.obj_type(),
        o1.payload() == o2.payload(),
    ensures
        object_hash_spec(o1.obj_type(), o1.payload()) == object_hash_spec(
            o2.obj_type(),
            o2.payload(),
        ),
{
}

} // verus!
