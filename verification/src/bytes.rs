//! Loops over byte vectors: patching, filling and appending.

use vstd::prelude::*;
use crate::image::{filler, overlay};

verus! {

/// Copies `src` over the bytes of `bytes` from `at` on.
pub(crate) fn patch(bytes: &mut Vec<u8>, at: usize, src: &[u8])
    requires
        at + src@.len() <= old(bytes)@.len(),
    ensures
        final(bytes)@ == overlay(old(bytes)@, at as int, src@),
{
    let n: usize = src.len();
    let total: usize = bytes.len();
    let mut i: usize = 0;
    while i < n
        invariant
            i <= n,
            n == src@.len(),
            at + n <= total,
            bytes@.len() == total,
            bytes@ == overlay(old(bytes)@, at as int, src@.take(i as int)),
        decreases n - i,
    {
        bytes[at + i] = src[i];
        i += 1;
        assert(bytes@ =~= overlay(old(bytes)@, at as int, src@.take(i as int)));
    }
    assert(src@.take(n as int) =~= src@);
}

/// Overwrites `n` bytes of `bytes` from `at` on with the filler value.
pub(crate) fn patch_filler(bytes: &mut Vec<u8>, at: usize, n: usize)
    requires
        at + n <= old(bytes)@.len(),
    ensures
        final(bytes)@ == overlay(old(bytes)@, at as int, filler(n as nat)),
{
    let total: usize = bytes.len();
    let mut i: usize = 0;
    while i < n
        invariant
            i <= n,
            at + n <= total,
            bytes@.len() == total,
            bytes@ == overlay(old(bytes)@, at as int, filler(i as nat)),
        decreases n - i,
    {
        bytes[at + i] = 0xFFu8;
        i += 1;
        assert(bytes@ =~= overlay(old(bytes)@, at as int, filler(i as nat)));
    }
}

/// Appends `src` to `bytes`.
pub(crate) fn append(bytes: &mut Vec<u8>, src: &[u8])
    ensures
        final(bytes)@ == old(bytes)@ + src@,
{
    append_range(bytes, src, 0, src.len());
    assert(src@.subrange(0, src@.len() as int) =~= src@);
}

/// Appends the bytes of `src` from `from` up to `to` to `bytes`.
pub(crate) fn append_range(bytes: &mut Vec<u8>, src: &[u8], from: usize, to: usize)
    requires
        from <= to <= src@.len(),
    ensures
        final(bytes)@ == old(bytes)@ + src@.subrange(from as int, to as int),
{
    let mut i: usize = from;
    while i < to
        invariant
            from <= i <= to <= src@.len(),
            bytes@ == old(bytes)@ + src@.subrange(from as int, i as int),
        decreases to - i,
    {
        bytes.push(src[i]);
        i += 1;
        assert(bytes@ =~= old(bytes)@ + src@.subrange(from as int, i as int));
    }
}

/// Appends `n` bytes of the filler value to `bytes`.
pub(crate) fn append_filler(bytes: &mut Vec<u8>, n: usize)
    ensures
        final(bytes)@ == old(bytes)@ + filler(n as nat),
{
    let mut i: usize = 0;
    while i < n
        invariant
            i <= n,
            bytes@ == old(bytes)@ + filler(i as nat),
        decreases n - i,
    {
        bytes.push(0xFFu8);
        i += 1;
        assert(bytes@ =~= old(bytes)@ + filler(i as nat));
    }
}

/// Whether `bytes` starts with `prefix`.
pub(crate) fn starts_with(bytes: &[u8], prefix: &[u8]) -> (yes: bool)
    ensures
        yes == (bytes@.len() >= prefix@.len() && bytes@.take(prefix@.len() as int) == prefix@),
{
    let n: usize = prefix.len();
    if bytes.len() < n {
        return false;
    }
    let mut i: usize = 0;
    while i < n
        invariant
            i <= n,
            n == prefix@.len(),
            n <= bytes@.len(),
            forall|k: int| 0 <= k < i ==> bytes@[k] == prefix@[k],
        decreases n - i,
    {
        if bytes[i] != prefix[i] {
            assert(bytes@.take(n as int)[i as int] != prefix@[i as int]);
            return false;
        }
        i += 1;
    }
    assert(bytes@.take(n as int) =~= prefix@);
    true
}

} // verus!
