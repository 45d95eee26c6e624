use vstd::prelude::*;

use crate::errors::GitError;

verus! {

/// The four recognized object kinds.
#[derive(Clone, Copy, Debug, PartialEq, Eq, Structural)]
pub enum ObjType {
    Blob,
    Tree,
    Commit,
    Tag,
}

/// A typed object: a type tag and an opaque payload. Only the blob
/// payload carries meaning in this core; the other three kinds hold
/// their payload as uninterpreted bytes pending structural parsing.
#[derive(Debug, PartialEq)]
pub enum GitObject {
    Blob(Vec<u8>),
    Tree(Vec<u8>),
    Commit(Vec<u8>),
    Tag(Vec<u8>),
}

/// The ASCII name of an object kind, as it appears in the header.
pub open spec fn tag_bytes(t: ObjType) -> Seq<u8> {
    match t {
        ObjType::Blob => seq![98u8, 108u8, 111u8, 98u8],
        ObjType::Tree => seq![116u8, 114u8, 101u8, 101u8],
        ObjType::Commit => seq![99u8, 111u8, 109u8, 109u8, 105u8, 116u8],
        ObjType::Tag => seq![116u8, 97u8, 103u8],
    }
}

/// Which kind a header tag names, if any.
pub open spec fn tag_of(s: Seq<u8>) -> Option<ObjType> {
    if s == tag_bytes(ObjType::Blob) {
        Some(ObjType::Blob)
    } else if s == tag_bytes(ObjType::Tree) {
        Some(ObjType::Tree)
    } else if s == tag_bytes(ObjType::Commit) {
        Some(ObjType::Commit)
    } else if s == tag_bytes(ObjType::Tag) {
        Some(ObjType::Tag)
    } else {
        None
    }
}

impl GitObject {
    /// The object's type tag.
    pub open spec fn obj_type(&self) -> ObjType {
        match self {
            GitObject::Blob(_) => ObjType::Blob,
            GitObject::Tree(_) => ObjType::Tree,
            GitObject::Commit(_) => ObjType::Commit,
            GitObject::Tag(_) => ObjType::Tag,
        }
    }

    /// The object's payload bytes.
    pub open spec fn payload(&self) -> Seq<u8> {
        match self {
            GitObject::Blob(d) => d@,
            GitObject::Tree(d) => d@,
            GitObject::Commit(d) => d@,
            GitObject::Tag(d) => d@,
        }
    }

    /// The payload bytes, verbatim.
    pub fn serialize(&self) -> (r: Vec<u8>)
        ensures
            r@ == self.payload(),
    {
        match self {
            GitObject::Blob(d) => vstd::slice::slice_to_vec(d.as_slice()),
            GitObject::Tree(d) => vstd::slice::slice_to_vec(d.as_slice()),
            GitObject::Commit(d) => vstd::slice::slice_to_vec(d.as_slice()),
            GitObject::Tag(d) => vstd::slice::slice_to_vec(d.as_slice()),
        }
    }

    /// Build an object of the given kind from payload bytes.
    pub fn deserialize(t: ObjType, data: Vec<u8>) -> (r: GitObject)
        ensures
            r.obj_type() == t,
            r.payload() == data@,
    {
        match t {
            ObjType::Blob => GitObject::Blob(data),
            ObjType::Tree => GitObject::Tree(data),
            ObjType::Commit => GitObject::Commit(data),
            ObjType::Tag => GitObject::Tag(data),
        }
    }

    /// The ASCII type name written into the header.
    pub fn fmt(&self) -> (r: Vec<u8>)
        ensures
            r@ == tag_bytes(self.obj_type()),
    {
        let mut v: Vec<u8> = Vec::new();
        match self {
            GitObject::Blob(_) => {
                v.push(98);
                v.push(108);
                v.push(111);
                v.push(98);
                assert(v@ =~= tag_bytes(ObjType::Blob));
            },
            GitObject::Tree(_) => {
                v.push(116);
                v.push(114);
                v.push(101);
                v.push(101);
                assert(v@ =~= tag_bytes(ObjType::Tree));
            },
            GitObject::Commit(_) => {
                v.push(99);
                v.push(111);
                v.push(109);
                v.push(109);
                v.push(105);
                v.push(116);
                assert(v@ =~= tag_bytes(ObjType::Commit));
            },
            GitObject::Tag(_) => {
                v.push(116);
                v.push(97);
                v.push(103);
                assert(v@ =~= tag_bytes(ObjType::Tag));
            },
        }
        v
    }
}

/// ASCII decimal digit.
pub open spec fn is_digit(b: u8) -> bool {
    48 <= b <= 57
}

/// Every byte of the sequence is a decimal digit.
pub open spec fn all_digits(s: Seq<u8>) -> bool {
    forall|i: int| 0 <= i < s.len() ==> is_digit(#[trigger] s[i])
}

/// The number a digit string denotes, most significant digit first.
pub open spec fn dec_value(s: Seq<u8>) -> int
    decreases s.len(),
{
    if s.len() == 0 {
        0
    } else {
        dec_value(s.drop_last()) * 10 + (s.last() - 48)
    }
}

/// The canonical decimal digits of a number: no sign, no leading
/// zeros (a single `0` for zero).
pub open spec fn dec_bytes(n: nat) -> Seq<u8>
    decreases n,
{
    if n < 10 {
        seq![(48 + n) as u8]
    } else {
        dec_bytes(n / 10).push((48 + n % 10) as u8)
    }
}

/// The canonical digits of `n` are nonempty decimal digits denoting `n`.
pub proof fn lemma_dec_bytes(n: nat)
    ensures
        dec_bytes(n).len() >= 1,
        all_digits(dec_bytes(n)),
        dec_value(dec_bytes(n)) == n,
    decreases n,
{
    if n < 10 {
        let d = dec_bytes(n);
        assert(d.drop_last() =~= Seq::<u8>::empty());
        assert(dec_value(d) == dec_value(d.drop_last()) * 10 + (d.last() - 48));
        assert(d.last() == 48 + n);
    } else {
        lemma_dec_bytes(n / 10);
        let d = dec_bytes(n);
        assert(d.drop_last() =~= dec_bytes(n / 10));
        assert(dec_value(d) == dec_value(dec_bytes(n / 10)) * 10 + (n % 10));
        assert((n / 10) * 10 + n % 10 == n) by (nonlinear_arith);
        assert forall|i: int| 0 <= i < d.len() implies is_digit(d[i]) by {
            if i < d.len() - 1 {
                assert(d[i] == dec_bytes(n / 10)[i]);
            }
        }
    }
}

/// A nonempty all-digit string denotes a nonnegative number, and its
/// value only grows as more digits are appended.
pub proof fn lemma_dec_value_nonneg(s: Seq<u8>)
    requires
        all_digits(s),
    ensures
        dec_value(s) >= 0,
    decreases s.len(),
{
    if s.len() > 0 {
        assert(all_digits(s.drop_last()));
        lemma_dec_value_nonneg(s.drop_last());
    }
}

/// Extending a digit string to the right never decreases its value.
pub proof fn lemma_dec_value_extend(s: Seq<u8>, i: int, j: int)
    requires
        all_digits(s),
        0 <= i <= j <= s.len(),
    ensures
        dec_value(s.subrange(0, i)) <= dec_value(s.subrange(0, j)),
    decreases j - i,
{
    if i < j {
        let t = s.subrange(0, j);
        assert(all_digits(t));
        assert(t.drop_last() =~= s.subrange(0, j - 1));
        assert(all_digits(s.subrange(0, j - 1)));
        lemma_dec_value_nonneg(s.subrange(0, j - 1));
        assert(dec_value(s.subrange(0, j - 1)) * 10 <= dec_value(s.subrange(0, j - 1)) * 10);
        assert(dec_value(t) == dec_value(s.subrange(0, j - 1)) * 10 + (t.last() - 48));
        assert(dec_value(s.subrange(0, j - 1)) <= dec_value(s.subrange(0, j - 1)) * 10)
            by (nonlinear_arith)
            requires dec_value(s.subrange(0, j - 1)) >= 0;
        lemma_dec_value_extend(s, i, j - 1);
    }
}

/// The canonical decimal digits of `n`, as a byte vector.
pub fn dec_bytes_exec(n: u64) -> (r: Vec<u8>)
    ensures
        r@ == dec_bytes(n as nat),
    decreases n,
{
    if n < 10 {
        let mut v: Vec<u8> = Vec::new();
        v.push(48 + n as u8);
        assert(v@ =~= dec_bytes(n as nat));
        v
    } else {
        let mut v = dec_bytes_exec(n / 10);
        v.push(48 + (n % 10) as u8);
        assert(v@ =~= dec_bytes(n as nat));
        v
    }
}

/// Parse a nonempty digit string; `None` means the value exceeds `u64::MAX`.
pub fn parse_dec(s: &[u8]) -> (r: Option<u64>)
    requires
        all_digits(s@),
        s@.len() >= 1,
    ensures
        match r {
            Some(v) => v as int == dec_value(s@),
            None => dec_value(s@) > u64::MAX,
        },
{
    let mut acc: u64 = 0;
    let mut i: usize = 0;
    proof {
        assert(s@.subrange(0, 0) =~= Seq::<u8>::empty());
    }
    while i < s.len()
        invariant
            0 <= i <= s@.len(),
            all_digits(s@),
            acc as int == dec_value(s@.subrange(0, i as int)),
        decreases s@.len() - i,
    {
        let b = s[i];
        assert(is_digit(b));
        let d: u64 = (b - 48) as u64;
        let limit: u64 = (u64::MAX - d) / 10;
        proof {
            assert(s@.subrange(0, i + 1).drop_last() =~= s@.subrange(0, i as int));
            assert(s@.subrange(0, i + 1).last() == b);
        }
        if acc > limit {
            proof {
                assert(acc * 10 + d > u64::MAX) by (nonlinear_arith)
                    requires
                        acc > (u64::MAX - d) / 10,
                        0 <= d <= 9,
                        acc <= u64::MAX;
                assert(dec_value(s@.subrange(0, i + 1)) == acc * 10 + d);
                lemma_dec_value_extend(s@, i + 1, s@.len() as int);
                assert(s@.subrange(0, s@.len() as int) =~= s@);
            }
            return None;
        }
        proof {
            assert(acc * 10 + d <= u64::MAX) by (nonlinear_arith)
                requires
                    acc <= (u64::MAX - d) / 10,
                    0 <= d <= 9;
        }
        acc = acc * 10 + d;
        i = i + 1;
    }
    proof {
        assert(s@.subrange(0, s@.len() as int) =~= s@);
    }
    Some(acc)
}

/// `i` is the position of the first occurrence of `b` in `s`.
pub open spec fn is_first(s: Seq<u8>, b: u8, i: int) -> bool {
    &&& 0 <= i < s.len()
    &&& s[i] == b
    &&& forall|j: int| 0 <= j < i ==> s[j] != b
}

/// `b` occurs somewhere in `s`.
pub open spec fn has_byte(s: Seq<u8>, b: u8) -> bool {
    exists|i: int| is_first(s, b, i)
}

/// The position of the first occurrence of `b` in `s`.
pub open spec fn first_of(s: Seq<u8>, b: u8) -> int {
    choose|i: int| is_first(s, b, i)
}

/// First occurrences are unique.
pub proof fn lemma_first_unique(s: Seq<u8>, b: u8, i: int, j: int)
    requires
        is_first(s, b, i),
        is_first(s, b, j),
    ensures
        i == j,
{
    if i < j {
        assert(s[i] != b);
    } else if j < i {
        assert(s[j] != b);
    }
}

/// The header is readable: the buffer holds a NUL, and a space strictly
/// before the first NUL.
pub open spec fn hdr_ok(raw: Seq<u8>) -> bool {
    &&& has_byte(raw, 0u8)
    &&& has_byte(raw, 32u8)
    &&& first_of(raw, 32u8) < first_of(raw, 0u8)
}

/// What decoding a raw buffer yields: the type tag is everything before
/// the first space, the declared length is the digits strictly between
/// the first space and the first NUL, and the payload is everything
/// after that NUL.
pub open spec fn decode_spec(raw: Seq<u8>) -> Result<(ObjType, Seq<u8>), GitError> {
    if !hdr_ok(raw) {
        Err(GitError::MalformedHeader)
    } else {
        let fs = first_of(raw, 32u8);
        let fz = first_of(raw, 0u8);
        let digits = raw.subrange(fs + 1, fz);
        if digits.len() == 0 || !all_digits(digits) {
            Err(GitError::MalformedLength)
        } else if dec_value(digits) != raw.len() - fz - 1 {
            Err(GitError::LengthMismatch)
        } else {
            match tag_of(raw.subrange(0, fs)) {
                Some(t) => Ok((t, raw.subrange(fz + 1, raw.len() as int))),
                None => Err(GitError::UnknownObjectType),
            }
        }
    }
}

/// The mathematical content of a decode result.
pub open spec fn obj_result_view(r: Result<GitObject, GitError>) -> Result<
    (ObjType, Seq<u8>),
    GitError,
> {
    match r {
        Ok(o) => Ok((o.obj_type(), o.payload())),
        Err(e) => Err(e),
    }
}

/// The index of the first occurrence of `b` in `s`, if any.
pub fn find_byte(s: &[u8], b: u8) -> (r: Option<usize>)
    ensures
        match r {
            Some(i) => is_first(s@, b, i as int),
            None => forall|j: int| 0 <= j < s@.len() ==> s@[j] != b,
        },
{
    let mut i: usize = 0;
    while i < s.len()
        invariant
            0 <= i <= s@.len(),
            forall|j: int| 0 <= j < i ==> s@[j] != b,
        decreases s@.len() - i,
    {
        if s[i] == b {
            return Some(i);
        }
        i = i + 1;
    }
    None
}

/// Whether every byte of `s` is a decimal digit.
pub fn check_digits(s: &[u8]) -> (r: bool)
    ensures
        r == all_digits(s@),
{
    let mut i: usize = 0;
    while i < s.len()
        invariant
            0 <= i <= s@.len(),
            forall|j: int| 0 <= j < i ==> is_digit(#[trigger] s@[j]),
        decreases s@.len() - i,
    {
        let c = s[i];
        if c < 48 || c > 57 {
            return false;
        }
        i = i + 1;
    }
    true
}

/// Which kind a header tag names, if any.
pub fn tag_kind(s: &[u8]) -> (r: Option<ObjType>)
    ensures
        r == tag_of(s@),
{
    if s.len() == 4 && s[0] == 98 && s[1] == 108 && s[2] == 111 && s[3] == 98 {
        proof {
            assert(s@ =~= tag_bytes(ObjType::Blob));
        }
        Some(ObjType::Blob)
    } else if s.len() == 4 && s[0] == 116 && s[1] == 114 && s[2] == 101 && s[3] == 101 {
        proof {
            assert(s@ =~= tag_bytes(ObjType::Tree));
        }
        Some(ObjType::Tree)
    } else if s.len() == 6 && s[0] == 99 && s[1] == 111 && s[2] == 109 && s[3] == 109 && s[4]
        == 105 && s[5] == 116 {
        proof {
            assert(s@ =~= tag_bytes(ObjType::Commit));
        }
        Some(ObjType::Commit)
    } else if s.len() == 3 && s[0] == 116 && s[1] == 97 && s[2] == 103 {
        proof {
            assert(s@ =~= tag_bytes(ObjType::Tag));
        }
        Some(ObjType::Tag)
    } else {
        proof {
            if s@ == tag_bytes(ObjType::Blob) {
                assert(s@.len() == 4 && s@[0] == 98 && s@[1] == 108 && s@[2] == 111 && s@[3] == 98);
            }
            if s@ == tag_bytes(ObjType::Tree) {
                assert(s@.len() == 4 && s@[0] == 116 && s@[1] == 114 && s@[2] == 101 && s@[3]
                    == 101);
            }
            if s@ == tag_bytes(ObjType::Commit) {
                assert(s@.len() == 6 && s@[0] == 99 && s@[1] == 111 && s@[2] == 109 && s@[3] == 109
                    && s@[4] == 105 && s@[5] == 116);
            }
            if s@ == tag_bytes(ObjType::Tag) {
                assert(s@.len() == 3 && s@[0] == 116 && s@[1] == 97 && s@[2] == 103);
            }
        }
        None
    }
}

/// Reconstruct a typed object from its header-plus-payload form.
pub fn decode(raw: &[u8]) -> (r: Result<GitObject, GitError>)
    ensures
        obj_result_view(r) == decode_spec(raw@),
{
    let fs_opt = find_byte(raw, 32);
    let fz_opt = find_byte(raw, 0);
    let (fs, fz) = match (fs_opt, fz_opt) {
        (Some(fs), Some(fz)) if fs < fz => {
            proof {
                assert(has_byte(raw@, 32u8)) by {
                    assert(is_first(raw@, 32u8, fs as int));
                }
                assert(has_byte(raw@, 0u8)) by {
                    assert(is_first(raw@, 0u8, fz as int));
                }
                lemma_first_unique(raw@, 32u8, fs as int, first_of(raw@, 32u8));
                lemma_first_unique(raw@, 0u8, fz as int, first_of(raw@, 0u8));
            }
            (fs, fz)
        },
        _ => {
            proof {
                if hdr_ok(raw@) {
                    let i = first_of(raw@, 32u8);
                    let j = first_of(raw@, 0u8);
                    assert(is_first(raw@, 32u8, i));
                    assert(is_first(raw@, 0u8, j));
                    match (fs_opt, fz_opt) {
                        (Some(fs), Some(fz)) => {
                            lemma_first_unique(raw@, 32u8, fs as int, i);
                            lemma_first_unique(raw@, 0u8, fz as int, j);
                        },
                        (Some(fs), None) => {
                            assert(raw@[j] != 0u8);
                        },
                        (None, _) => {
                            assert(raw@[i] != 32u8);
                        },
                    }
                }
            }
            return Err(GitError::MalformedHeader);
        },
    };
    let digits = vstd::slice::slice_subrange(raw, fs + 1, fz);
    if digits.len() == 0 || !check_digits(digits) {
        return Err(GitError::MalformedLength);
    }
    let payload_len: usize = raw.len() - fz - 1;
    let declared = parse_dec(digits);
    proof {
        assert(usize::MAX <= u64::MAX);
        lemma_dec_value_nonneg(digits@);
    }
    let matches_len: bool = match declared {
        Some(v) => v == payload_len as u64,
        None => false,
    };
    if !matches_len {
        return Err(GitError::LengthMismatch);
    }
    let tag_slice = vstd::slice::slice_subrange(raw, 0, fs);
    match tag_kind(tag_slice) {
        Some(t) => {
            let payload = vstd::slice::slice_to_vec(
                vstd::slice::slice_subrange(raw, fz + 1, raw.len()),
            );
            Ok(GitObject::deserialize(t, payload))
        },
        None => Err(GitError::UnknownObjectType),
    }
}

/// The bytes of a tag hold neither a space nor a NUL, and the tag names
/// its own kind.
pub proof fn lemma_tag_bytes_clean(t: ObjType)
    ensures
        forall|i: int|
            0 <= i < tag_bytes(t).len() ==> #[trigger] tag_bytes(t)[i] != 32u8 && tag_bytes(t)[i]
                != 0u8,
        tag_of(tag_bytes(t)) == Some(t),
{
    let tb = tag_bytes(t);
    match t {
        ObjType::Blob => {
            assert(tb[0] == 98u8 && tb[1] == 108u8 && tb[2] == 111u8 && tb[3] == 98u8);
        },
        ObjType::Tree => {
            assert(tb[0] == 116u8 && tb[1] == 114u8 && tb[2] == 101u8 && tb[3] == 101u8);
        },
        ObjType::Commit => {
            assert(tb[0] == 99u8 && tb[1] == 111u8 && tb[2] == 109u8 && tb[3] == 109u8 && tb[4]
                == 105u8 && tb[5] == 116u8);
            assert(tag_bytes(ObjType::Blob).len() == 4);
        },
        ObjType::Tag => {
            assert(tb[0] == 116u8 && tb[1] == 97u8 && tb[2] == 103u8);
        },
    }
    if t == ObjType::Tree {
        assert(tag_bytes(ObjType::Blob)[0] == 98u8);
    }
    if t == ObjType::Tag {
        assert(tag_bytes(ObjType::Blob).len() == 4);
    }
}

/// The canonical encoding: type name, a space, the decimal payload
/// length, a NUL, then the payload verbatim.
pub open spec fn encoding(t: ObjType, p: Seq<u8>) -> Seq<u8> {
    tag_bytes(t) + seq![32u8] + dec_bytes(p.len()) + seq![0u8] + p
}

/// Serialize an object into its canonical header-plus-payload form.
pub fn encode(obj: &GitObject) -> (r: Vec<u8>)
    ensures
        r@ == encoding(obj.obj_type(), obj.payload()),
{
    let payload = obj.serialize();
    let mut v = obj.fmt();
    v.push(32);
    let mut digits = dec_bytes_exec(payload.len() as u64);
    v.append(&mut digits);
    v.push(0);
    let mut p = payload;
    v.append(&mut p);
    proof {
        assert(v@ =~= encoding(obj.obj_type(), obj.payload()));
    }
    v
}

/// Round-trip: decoding the canonical encoding of any type tag and any
/// payload yields exactly that type tag and that payload.
pub proof fn lemma_round_trip(t: ObjType, p: Seq<u8>)
    ensures
        decode_spec(encoding(t, p)) == Ok::<(ObjType, Seq<u8>), GitError>((t, p)),
{
    let enc = encoding(t, p);
    let tb = tag_bytes(t);
    let d = dec_bytes(p.len());
    lemma_tag_bytes_clean(t);
    lemma_dec_bytes(p.len());
    let fs = tb.len() as int;
    let fz: int = tb.len() + 1 + d.len() as int;
    assert(enc.len() == tb.len() + 1 + d.len() + 1 + p.len());
    assert(enc[fs] == 32u8);
    assert(enc[fz] == 0u8);
    assert forall|j: int| 0 <= j < fs implies enc[j] != 32u8 && enc[j] != 0u8 by {
        assert(enc[j] == tb[j]);
    }
    assert forall|j: int| fs < j < fz implies enc[j] != 0u8 && is_digit(enc[j]) by {
        assert(enc[j] == d[j - fs - 1]);
        assert(is_digit(d[j - fs - 1]));
    }
    assert(is_first(enc, 32u8, fs));
    assert(is_first(enc, 0u8, fz));
    assert(has_byte(enc, 32u8));
    assert(has_byte(enc, 0u8));
    lemma_first_unique(enc, 32u8, fs, first_of(enc, 32u8));
    lemma_first_unique(enc, 0u8, fz, first_of(enc, 0u8));
    assert(hdr_ok(enc));
    assert(enc.subrange(fs + 1, fz) =~= d);
    assert(dec_value(d) == p.len());
    assert(enc.len() - fz - 1 == p.len());
    assert(enc.subrange(0, fs) =~= tb);
    assert(tag_of(enc.subrange(0, fs)) == Some(t));
    assert(enc.subrange(fz + 1, enc.len() as int) =~= p);
}

/// Known vector: the blob with empty payload encodes to the literal
/// bytes of `blob 0` followed by a NUL.
pub proof fn lemma_empty_blob_encoding()
    ensures
        encoding(ObjType::Blob, Seq::<u8>::empty()) == seq![
            98u8,
            108u8,
            111u8,
            98u8,
            32u8,
            48u8,
            0u8,
        ],
{
    assert(dec_bytes(0) =~= seq![48u8]);
    assert(encoding(ObjType::Blob, Seq::<u8>::empty()) =~= seq![
        98u8,
        108u8,
        111u8,
        98u8,
        32u8,
        48u8,
        0u8,
    ]);
}

/// Header corruption: a buffer in which no space stands before any NUL
/// (in particular one with no NUL at all) never decodes; it fails with
/// `MalformedHeader`.
pub proof fn lemma_header_corruption(raw: Seq<u8>)
    requires
        forall|i: int, j: int| 0 <= i < j < raw.len() && raw[j] == 0u8 ==> raw[i] != 32u8,
    ensures
        decode_spec(raw) == Err::<(ObjType, Seq<u8>), GitError>(GitError::MalformedHeader),
{
    if hdr_ok(raw) {
        let i = first_of(raw, 32u8);
        let j = first_of(raw, 0u8);
        assert(is_first(raw, 32u8, i));
        assert(is_first(raw, 0u8, j));
        assert(raw[i] != 32u8);
        assert(false);
    }
}

/// Length corruption: a buffer whose well-formed header declares a
/// length other than the actual payload length fails with
/// `LengthMismatch`.
pub proof fn lemma_length_mismatch(raw: Seq<u8>)
    requires
        hdr_ok(raw),
        raw.subrange(first_of(raw, 32u8) + 1, first_of(raw, 0u8)).len() > 0,
        all_digits(raw.subrange(first_of(raw, 32u8) + 1, first_of(raw, 0u8))),
        dec_value(raw.subrange(first_of(raw, 32u8) + 1, first_of(raw, 0u8))) != raw.len()
            - first_of(raw, 0u8) - 1,
    ensures
        decode_spec(raw) == Err::<(ObjType, Seq<u8>), GitError>(GitError::LengthMismatch),
{
}

} // verus!
