use vstd::prelude::*;

use sha1::Digest;
use vstd::string::StringExecFns;

verus! {

/// The SHA-1 digest (20 bytes) of a byte sequence. Left unspecified:
/// only the sha1 crate computes it, and the library never restates the
/// algorithm.
pub uninterp spec fn sha1_of(data: Seq<u8>) -> Seq<u8>;

/// Relies on sha1's `Sha1::digest`: the digest is a function of the
/// input bytes alone, and is always exactly 20 bytes long.
#[verifier::external_body]
pub(crate) fn sha1_digest(data: &[u8]) -> (r: Vec<u8>)
    ensures
        r@ == sha1_of(data@),
        r@.len() == 20,
{
    sha1::Sha1::digest(data).to_vec()
}

/// One lowercase hexadecimal digit.
pub open spec fn hex_char(n: int) -> char {
    if n == 0 {
        '0'
    } else if n == 1 {
        '1'
    } else if n == 2 {
        '2'
    } else if n == 3 {
        '3'
    } else if n == 4 {
        '4'
    } else if n == 5 {
        '5'
    } else if n == 6 {
        '6'
    } else if n == 7 {
        '7'
    } else if n == 8 {
        '8'
    } else if n == 9 {
        '9'
    } else if n == 10 {
        'a'
    } else if n == 11 {
        'b'
    } else if n == 12 {
        'c'
    } else if n == 13 {
        'd'
    } else if n == 14 {
        'e'
    } else {
        'f'
    }
}

/// Lowercase hexadecimal text of a byte sequence, two digits per byte.
pub open spec fn hex_of(s: Seq<u8>) -> Seq<char>
    decreases s.len(),
{
    if s.len() == 0 {
        Seq::<char>::empty()
    } else {
        hex_of(s.drop_last()) + seq![
            hex_char(s.last() as int / 16),
            hex_char(s.last() as int % 16),
        ]
    }
}

/// Hexadecimal text is twice as long as the bytes it spells.
pub proof fn lemma_hex_len(s: Seq<u8>)
    ensures
        hex_of(s).len() == 2 * s.len(),
    decreases s.len(),
{
    if s.len() > 0 {
        lemma_hex_len(s.drop_last());
    }
}

/// Hexadecimal text distributes over concatenation.
pub proof fn lemma_hex_append(a: Seq<u8>, b: Seq<u8>)
    ensures
        hex_of(a + b) == hex_of(a) + hex_of(b),
    decreases b.len(),
{
    if b.len() == 0 {
        assert(a + b =~= a);
        assert(hex_of(a) + hex_of(b) =~= hex_of(a));
    } else {
        lemma_hex_append(a, b.drop_last());
        assert((a + b).drop_last() =~= a + b.drop_last());
        assert((a + b).last() == b.last());
        assert(hex_of(a) + hex_of(b) =~= hex_of(a) + hex_of(b.drop_last()) + seq![
            hex_char(b.last() as int / 16),
            hex_char(b.last() as int % 16),
        ]);
    }
}

/// Append the single hexadecimal digit `d` to `s`.
fn push_hex_char(s: &mut String, d: u8)
    requires
        d < 16,
    ensures
        final(s)@ == old(s)@.push(hex_char(d as int)),
{
    if d == 0 {
        s.append("0");
        proof {
            reveal_strlit("0");
        }
    } else if d == 1 {
        s.append("1");
        proof {
            reveal_strlit("1");
        }
    } else if d == 2 {
        s.append("2");
        proof {
            reveal_strlit("2");
        }
    } else if d == 3 {
        s.append("3");
        proof {
            reveal_strlit("3");
        }
    } else if d == 4 {
        s.append("4");
        proof {
            reveal_strlit("4");
        }
    } else if d == 5 {
        s.append("5");
        proof {
            reveal_strlit("5");
        }
    } else if d == 6 {
        s.append("6");
        proof {
            reveal_strlit("6");
        }
    } else if d == 7 {
        s.append("7");
        proof {
            reveal_strlit("7");
        }
    } else if d == 8 {
        s.append("8");
        proof {
            reveal_strlit("8");
        }
    } else if d == 9 {
        s.append("9");
        proof {
            reveal_strlit("9");
        }
    } else if d == 10 {
        s.append("a");
        proof {
            reveal_strlit("a");
        }
    } else if d == 11 {
        s.append("b");
        proof {
            reveal_strlit("b");
        }
    } else if d == 12 {
        s.append("c");
        proof {
            reveal_strlit("c");
        }
    } else if d == 13 {
        s.append("d");
        proof {
            reveal_strlit("d");
        }
    } else if d == 14 {
        s.append("e");
        proof {
            reveal_strlit("e");
        }
    } else {
        s.append("f");
        proof {
            reveal_strlit("f");
        }
    }
    proof {
        assert(final(s)@ =~= old(s)@.push(hex_char(d as int)));
    }
}

/// The lowercase hexadecimal spelling of a byte slice.
pub fn to_hex(s: &[u8]) -> (r: String)
    ensures
        r@ == hex_of(s@),
{
    let mut r = String::new();
    let mut i: usize = 0;
    proof {
        assert(s@.subrange(0, 0) =~= Seq::<u8>::empty());
    }
    while i < s.len()
        invariant
            0 <= i <= s@.len(),
            r@ == hex_of(s@.subrange(0, i as int)),
        decreases s@.len() - i,
    {
        let b = s[i];
        push_hex_char(&mut r, b / 16);
        push_hex_char(&mut r, b % 16);
        proof {
            let pre = s@.subrange(0, i as int);
            let post = s@.subrange(0, i + 1);
            assert(post.drop_last() =~= pre);
            assert(post.last() == s@[i as int]);
            assert(r@ =~= hex_of(post));
        }
        i = i + 1;
    }
    proof {
        assert(s@.subrange(0, s@.len() as int) =~= s@);
    }
    r
}

} // verus!
