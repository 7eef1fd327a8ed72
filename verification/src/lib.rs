//! Word boundary finding over the bytes of a string.
//!
//! A text buffer is modelled by the UTF-8 byte sequence backing it. The
//! boundary of a buffer is the offset of the first ASCII space byte, or the
//! buffer's length when it holds no space. `first_word` returns that offset;
//! `first_word_slice` returns the leading slice up to (and excluding) it.

use vstd::prelude::*;
use vstd::string::StringSliceAdditionalSpecFns;
use vstd::utf8::encode_utf8;
use vstd::utf8::encode_utf8_valid_utf8;
use vstd::utf8::is_char_boundary;
use vstd::utf8::is_continuation_byte;
use vstd::utf8::length_of_first_scalar;
use vstd::utf8::pop_first_scalar;
use vstd::utf8::valid_first_scalar;
use vstd::utf8::valid_utf8;

verus! {

/// The ASCII space byte, the one delimiter the scan looks for.
pub const SPACE: u8 = 32;

/// The boundary of a byte sequence: the offset of its first space byte, or
/// its length when no byte is a space.
pub open spec fn boundary(bytes: Seq<u8>) -> int
    decreases bytes.len(),
{
    if bytes.len() == 0 {
        0
    } else if bytes[0] == SPACE {
        0
    } else {
        1 + boundary(bytes.drop_first())
    }
}

/// What it means for `i` to be the boundary of `bytes`: every byte before
/// `i` is a non-space, and the byte at `i`, if any, is a space.
pub open spec fn is_boundary(bytes: Seq<u8>, i: int) -> bool {
    &&& 0 <= i <= bytes.len()
    &&& forall|j: int| 0 <= j < i ==> bytes[j] != SPACE
    &&& i < bytes.len() ==> bytes[i] == SPACE
}

/// The byte sequence backing a string: the UTF-8 encoding of its characters.
pub open spec fn bytes_of(s: Seq<char>) -> Seq<u8> {
    encode_utf8(s)
}

/// `boundary` meets its characterization.
pub proof fn lemma_boundary_is_boundary(bytes: Seq<u8>)
    ensures
        is_boundary(bytes, boundary(bytes)),
    decreases bytes.len(),
{
    if bytes.len() == 0 {
    } else if bytes[0] == SPACE {
    } else {
        lemma_boundary_is_boundary(bytes.drop_first());
        assert forall|j: int| 0 <= j < boundary(bytes) implies bytes[j] != SPACE by {
            if j > 0 {
                assert(bytes.drop_first()[j - 1] != SPACE);
            }
        }
    }
}

/// Only one index meets the boundary characterization: in particular, two
/// scans of the same unmodified buffer return identical offsets.
pub proof fn lemma_boundary_unique(bytes: Seq<u8>, i: int, j: int)
    requires
        is_boundary(bytes, i),
        is_boundary(bytes, j),
    ensures
        i == j,
{
    if i < j {
        assert(bytes[i] == SPACE);
        assert(bytes[i] != SPACE);
    }
    if j < i {
        assert(bytes[j] == SPACE);
        assert(bytes[j] != SPACE);
    }
}

/// Returns the offset of the first space byte of `s`, or `s.len()` when `s`
/// holds no space.
pub fn first_word(s: &String) -> (r: usize)
    ensures
        r as int == boundary(bytes_of(s@)),
        is_boundary(bytes_of(s@), r as int),
{
    let bytes: &[u8] = s.as_str().as_bytes();
    let n: usize = bytes.len();
    let mut i: usize = 0;
    while i < n
        invariant
            bytes@ == bytes_of(s@),
            n == bytes@.len(),
            i <= n,
            forall|j: int| 0 <= j < i ==> bytes@[j] != SPACE,
        decreases n - i,
    {
        if bytes[i] == SPACE {
            proof {
                lemma_boundary_is_boundary(bytes@);
                lemma_boundary_unique(bytes@, i as int, boundary(bytes@));
            }
            return i;
        }
        i += 1;
    }
    proof {
        lemma_boundary_is_boundary(bytes@);
        lemma_boundary_unique(bytes@, n as int, boundary(bytes@));
    }
    n
}

/// In valid UTF-8, an offset that carries an ASCII byte starts a character:
/// continuation bytes all lie at `0x80` and above.
proof fn lemma_ascii_byte_is_char_boundary(bytes: Seq<u8>, i: int)
    requires
        valid_utf8(bytes),
        0 <= i < bytes.len(),
        bytes[i] < 0x80,
    ensures
        is_char_boundary(bytes, i),
    decreases bytes.len(),
{
    if i > 0 {
        assert(valid_first_scalar(bytes));
        let l: int = length_of_first_scalar(bytes);
        assert(1 <= l <= bytes.len());
        if i < l {
            assert(is_continuation_byte(bytes[i]));
            assert(false);
        } else {
            let rest = pop_first_scalar(bytes);
            assert(rest[i - l] == bytes[i]);
            lemma_ascii_byte_is_char_boundary(rest, i - l);
        }
    }
}

/// Returns the leading slice of `s` up to (and excluding) its first space,
/// or all of `s` when it holds no space. The result borrows from `s`, so the
/// borrow checker keeps it from being read once `s` is mutated.
pub fn first_word_slice<'a>(s: &'a String) -> (r: &'a str)
    ensures
        r.spec_bytes() == bytes_of(s@).subrange(0, boundary(bytes_of(s@))),
{
    let st: &str = s.as_str();
    let n: usize = st.as_bytes().len();
    let i: usize = first_word(s);
    if i == n {
        proof {
            assert(st.spec_bytes() =~= bytes_of(s@).subrange(0, boundary(bytes_of(s@))));
        }
        st
    } else {
        proof {
            encode_utf8_valid_utf8(s@);
            lemma_ascii_byte_is_char_boundary(st.spec_bytes(), i as int);
        }
        let (first, _) = st.split_at(i);
        first
    }
}

/// A buffer with no space byte has its length as boundary, and the boundary
/// slice is the whole buffer.
pub proof fn lemma_no_space(bytes: Seq<u8>)
    requires
        forall|j: int| 0 <= j < bytes.len() ==> bytes[j] != SPACE,
    ensures
        boundary(bytes) == bytes.len(),
        bytes.subrange(0, boundary(bytes)) == bytes,
{
    lemma_boundary_is_boundary(bytes);
    lemma_boundary_unique(bytes, boundary(bytes), bytes.len() as int);
    assert(bytes.subrange(0, bytes.len() as int) =~= bytes);
}

/// A buffer whose first space byte stands at offset `k` has `k` as its
/// boundary, so the boundary slice holds exactly the bytes strictly before
/// that offset.
pub proof fn lemma_first_space(bytes: Seq<u8>, k: int)
    requires
        0 <= k < bytes.len(),
        bytes[k] == SPACE,
        forall|j: int| 0 <= j < k ==> bytes[j] != SPACE,
    ensures
        boundary(bytes) == k,
{
    lemma_boundary_is_boundary(bytes);
    lemma_boundary_unique(bytes, boundary(bytes), k);
}

} // verus!
