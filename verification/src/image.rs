//! Bytes of a file image: patching a range, and reading a 64-bit word.

use vstd::prelude::*;
use vstd::bytes::*;

verus! {

/// The image `s` with the bytes from `at` on replaced by `patch`. Bytes of
/// the patch that would fall beyond the end of `s` are dropped: the length
/// never changes.
pub open spec fn overlay(s: Seq<u8>, at: int, patch: Seq<u8>) -> Seq<u8> {
    Seq::new(
        s.len(),
        |i: int|
            if at <= i < at + patch.len() {
                patch[i - at]
            } else {
                s[i]
            },
    )
}

/// `n` bytes of the filler value `0xFF`.
pub open spec fn filler(n: nat) -> Seq<u8> {
    Seq::new(n, |i: int| 0xFFu8)
}

/// The eight bytes of a word, least significant first.
pub open spec fn word_bytes(word: u64) -> Seq<u8> {
    spec_u64_to_le_bytes(word)
}

/// The little-endian word in the eight bytes from `at` on.
pub open spec fn word_at(s: Seq<u8>, at: int) -> u64 {
    spec_u64_from_le_bytes(s.subrange(at, at + 8))
}

pub proof fn lemma_word_bytes_len(word: u64)
    ensures
        word_bytes(word).len() == 8,
{
    lemma_auto_spec_u64_to_from_le_bytes();
}

/// A word that was patched in is the word that is read there.
pub proof fn lemma_word_at_patched(s: Seq<u8>, at: int, word: u64)
    requires
        0 <= at,
        at + 8 <= s.len(),
    ensures
        word_at(overlay(s, at, word_bytes(word)), at) == word,
{
    lemma_auto_spec_u64_to_from_le_bytes();
    assert(overlay(s, at, word_bytes(word)).subrange(at, at + 8) =~= word_bytes(word));
}

/// A patch leaves every range that it does not touch as it was.
pub proof fn lemma_overlay_apart(s: Seq<u8>, at: int, patch: Seq<u8>, from: int, to: int)
    requires
        0 <= from <= to <= s.len(),
        to <= at || at + patch.len() <= from,
    ensures
        overlay(s, at, patch).subrange(from, to) == s.subrange(from, to),
{
    assert(overlay(s, at, patch).subrange(from, to) =~= s.subrange(from, to));
}

/// A patch leaves every word that it does not touch as it was.
pub proof fn lemma_word_at_apart(s: Seq<u8>, at: int, patch: Seq<u8>, place: int)
    requires
        0 <= place,
        place + 8 <= s.len(),
        place + 8 <= at || at + patch.len() <= place,
    ensures
        word_at(overlay(s, at, patch), place) == word_at(s, place),
{
    lemma_overlay_apart(s, at, patch, place, place + 8);
}

} // verus!
