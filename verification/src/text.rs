//! Prefixes and suffixes of text, decided on its UTF-8 bytes.

use vstd::prelude::*;
use vstd::utf8::{
    decode_utf8, decode_utf8_split, encode_utf8, encode_utf8_decode_utf8, encode_utf8_valid_utf8,
    is_char_boundary, is_char_boundary_iff_is_leading_byte, length_of_first_scalar,
    pop_first_scalar, valid_utf8,
};

verus! {

/// The encoding of two texts put together is their encodings put together.
pub proof fn lemma_encode_concat(a: Seq<char>, b: Seq<char>)
    ensures
        encode_utf8(a + b) == encode_utf8(a) + encode_utf8(b),
    decreases a.len(),
{
    if a.len() == 0 {
    } else {
        lemma_encode_concat(a.drop_first(), b);
        assert((a + b).drop_first() =~= a.drop_first() + b);
    }
}

/// Where well-formed bytes begin with bytes that are well formed by
/// themselves, a character ends where those bytes end.
proof fn lemma_valid_prefix_ends_at_boundary(bytes: Seq<u8>, n: int)
    requires
        valid_utf8(bytes),
        0 <= n <= bytes.len(),
        valid_utf8(bytes.subrange(0, n)),
    ensures
        is_char_boundary(bytes, n),
    decreases bytes.len(),
{
    if n > 0 {
        // Both begin with the same character; behind it, the rest of the
        // shorter one begins the rest of the longer one.
        let head = bytes.subrange(0, n);
        let first = length_of_first_scalar(bytes);
        assert(pop_first_scalar(head) =~= pop_first_scalar(bytes).subrange(0, n - first));
        lemma_valid_prefix_ends_at_boundary(pop_first_scalar(bytes), n - first);
    }
}

/// A text begins with another exactly if its bytes begin with the bytes of
/// the other.
pub proof fn lemma_prefix_by_bytes(prefix: Seq<char>, text: Seq<char>)
    ensures
        prefix.is_prefix_of(text) <==> encode_utf8(prefix).is_prefix_of(encode_utf8(text)),
{
    let head = encode_utf8(prefix);
    let all = encode_utf8(text);
    encode_utf8_valid_utf8(prefix);
    encode_utf8_valid_utf8(text);
    encode_utf8_decode_utf8(prefix);
    encode_utf8_decode_utf8(text);
    if prefix.is_prefix_of(text) {
        let rest = text.subrange(prefix.len() as int, text.len() as int);
        assert(text =~= prefix + rest);
        lemma_encode_concat(prefix, rest);
    }
    if head.is_prefix_of(all) {
        // The bytes of `prefix` end where a character of `text` ends, so
        // `text` decodes to `prefix` and what follows it.
        let n = head.len() as int;
        lemma_valid_prefix_ends_at_boundary(all, n);
        decode_utf8_split(all, n);
    }
}

/// A text ends with another exactly if its bytes end with the bytes of the
/// other.
pub proof fn lemma_suffix_by_bytes(suffix: Seq<char>, text: Seq<char>)
    ensures
        suffix.is_suffix_of(text) <==> encode_utf8(suffix).is_suffix_of(encode_utf8(text)),
{
    let tail = encode_utf8(suffix);
    let all = encode_utf8(text);
    encode_utf8_valid_utf8(suffix);
    encode_utf8_valid_utf8(text);
    encode_utf8_decode_utf8(suffix);
    encode_utf8_decode_utf8(text);
    if suffix.is_suffix_of(text) {
        let front = text.subrange(0, text.len() - suffix.len());
        assert(text =~= front + suffix);
        lemma_encode_concat(front, suffix);
    }
    if tail.is_suffix_of(all) && tail.len() > 0 {
        // The bytes of `suffix` begin with a leading byte, so they begin
        // where a character of `text` begins, and `text` decodes to what
        // comes before and `suffix`.
        let n = all.len() - tail.len();
        is_char_boundary_iff_is_leading_byte(tail, 0);
        is_char_boundary_iff_is_leading_byte(all, n);
        decode_utf8_split(all, n);
    }
}

/// Whether the bytes of `text` from position `at` on begin with `pattern`.
fn same_bytes_at(text: &[u8], at: usize, pattern: &[u8]) -> (same: bool)
    requires
        at + pattern@.len() <= text@.len(),
    ensures
        same == (text@.subrange(at as int, at + pattern@.len()) == pattern@),
{
    let mut i: usize = 0;
    let len = text.len();
    while i < pattern.len()
        invariant
            i <= pattern@.len(),
            len == text@.len(),
            at + pattern@.len() <= text@.len(),
            forall|j: int| 0 <= j < i ==> text@[at + j] == pattern@[j],
        decreases pattern@.len() - i,
    {
        if text[at + i] != pattern[i] {
            return false;
        }
        i = i + 1;
    }
    assert(text@.subrange(at as int, at + pattern@.len()) =~= pattern@);
    true
}

/// Whether `text` begins with `prefix`.
pub fn starts_with(text: &str, prefix: &str) -> (b: bool)
    ensures
        b == prefix@.is_prefix_of(text@),
{
    let all = text.as_bytes();
    let head = prefix.as_bytes();
    proof {
        lemma_prefix_by_bytes(prefix@, text@);
    }
    if head.len() > all.len() {
        return false;
    }
    same_bytes_at(all, 0, head)
}

/// Whether `text` ends with `suffix`.
pub fn ends_with(text: &str, suffix: &str) -> (b: bool)
    ensures
        b == suffix@.is_suffix_of(text@),
{
    let all = text.as_bytes();
    let tail = suffix.as_bytes();
    proof {
        lemma_suffix_by_bytes(suffix@, text@);
    }
    if tail.len() > all.len() {
        return false;
    }
    same_bytes_at(all, all.len() - tail.len(), tail)
}

} // verus!
