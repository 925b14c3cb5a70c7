use vstd::prelude::*;
use vstd::string::StringSliceAdditionalSpecFns;
use vstd::utf8::*;

verus! {

/// The byte that encodes a space in UTF-8.
const SPACE: u8 = 0x20;

/// No character of `s` is a space.
pub open spec fn is_space_free(s: Seq<char>) -> bool {
    forall|i: int| 0 <= i < s.len() ==> s[i] != ' '
}

/// `k` is the position of the first space in `s`.
pub open spec fn is_first_space(s: Seq<char>, k: int) -> bool {
    &&& 0 <= k < s.len()
    &&& s[k] == ' '
    &&& is_space_free(s.take(k))
}

/// `w` is the first word of `s`: a prefix of `s` without a space that is
/// either all of `s` or followed in `s` by a space.
pub open spec fn is_first_word(s: Seq<char>, w: Seq<char>) -> bool {
    &&& w.len() <= s.len()
    &&& w == s.take(w.len() as int)
    &&& is_space_free(w)
    &&& (w.len() < s.len() ==> s[w.len() as int] == ' ')
}

/// A space among the characters puts the byte 0x20 into their UTF-8 encoding.
proof fn lemma_space_in_encoding(s: Seq<char>, k: int) -> (j: int)
    requires
        0 <= k < s.len(),
        s[k] == ' ',
    ensures
        0 <= j < encode_utf8(s).len(),
        encode_utf8(s)[j] == 0x20u8,
    decreases s.len(),
{
    let head = encode_scalar(s[0] as u32);
    let tail = s.drop_first();
    assert(encode_utf8(s) == head + encode_utf8(tail));
    if k == 0 {
        assert(head == seq![0x20u8]) by {
            assert((0x20u32 & 0x7Fu32) as u8 == 0x20u8) by (bit_vector);
        }
        0
    } else {
        let j0 = lemma_space_in_encoding(tail, k - 1);
        head.len() + j0
    }
}

/// Returns the part of `s` before its first space, or all of `s` when it
/// holds no space. The result borrows from `s`.
pub fn first_word(s: &str) -> (r: &str)
    ensures
        is_first_word(s@, r@),
        is_space_free(s@) ==> r@ == s@,
        forall|k: int| is_first_space(s@, k) ==> r@ == s@.take(k),
        s@.len() == 0 ==> r@.len() == 0,
{
    let bytes = s.as_bytes();
    let mut i: usize = 0;
    while i < bytes.len()
        invariant
            bytes@ == encode_utf8(s@),
            i <= bytes@.len(),
            forall|j: int| 0 <= j < i ==> bytes@[j] != 0x20u8,
        decreases bytes@.len() - i,
    {
        if bytes[i] == SPACE {
            proof {
                encode_utf8_valid_utf8(s@);
                is_char_boundary_iff_is_leading_byte(bytes@, i as int);
            }
            let (word, rest) = s.split_at(i);
            proof {
                let b = bytes@;
                decode_utf8_split(b, i as int);
                encode_utf8_decode_utf8(s@);
                encode_utf8_decode_utf8(word@);
                encode_utf8_decode_utf8(rest@);
                assert(word.spec_bytes() == b.subrange(0, i as int));
                assert(rest.spec_bytes() == b.subrange(i as int, b.len() as int));
                assert(s@ == word@ + rest@);
                let tail = b.subrange(i as int, b.len() as int);
                valid_utf8_split(b, i as int);
                assert(decode_first_scalar(tail) == 0x20u32) by {
                    assert(tail[0] == 0x20u8);
                    assert((0x20u8 & 0x7Fu8) as u32 == 0x20u32) by (bit_vector);
                }
                assert(rest@ == decode_utf8(tail));
                assert(rest@[0] == ' ');
                assert(word@ == s@.take(word@.len() as int));
                if !is_space_free(word@) {
                    let k = choose|k: int| 0 <= k < word@.len() && word@[k] == ' ';
                    let j = lemma_space_in_encoding(word@, k);
                    assert(b[j] == 0x20u8);
                }
                let n = word@.len() as int;
                assert(s@[n] == ' ');
                assert forall|k: int| is_first_space(s@, k) implies k == n by {
                    if k < n {
                        assert(word@[k] == ' ');
                    } else if k > n {
                        assert(s@.take(k)[n] == ' ');
                    }
                }
            }
            return word;
        }
        i += 1;
    }
    proof {
        if !is_space_free(s@) {
            let k = choose|k: int| 0 <= k < s@.len() && s@[k] == ' ';
            lemma_space_in_encoding(s@, k);
        }
        assert(s@ == s@.take(s@.len() as int));
    }
    s
}

} // verus!
