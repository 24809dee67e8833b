//! What a change to one place of the image leaves alone.
//!
//! Pages do not overlap each other or the header, so a patch inside one
//! page, or inside the slot of the free list's head, leaves every other
//! page, the magic bytes and the root slot as they were.

use vstd::prelude::*;
use crate::codec::PageHeader;
use crate::image::{
    filler, lemma_overlay_apart, lemma_word_at_apart, lemma_word_at_patched,
    lemma_word_bytes_len, word_bytes,
};
use crate::store::Store;

verus! {

impl Store {
    /// The page at `q` has the same header and payload in both images.
    pub open spec fn same_page(self, other: Store, q: u64) -> bool {
        other.header(q) == self.header(q) && other.payload(q) == self.payload(q)
    }

    /// `other` is `self` but for the pages in `touched`, the head of the
    /// free list, and pages added at the end.
    pub open spec fn frames(self, other: Store, touched: Set<u64>) -> bool {
        &&& other.config == self.config
        &&& other.len() >= self.len()
        &&& other.root() == self.root()
        &&& other.bytes.take(self.free_slot()) == self.bytes.take(self.free_slot())
        &&& forall|q: u64|
            self.is_page(q) && !touched.contains(q) ==> #[trigger] self.same_page(other, q)
    }
}

/// Two pages of a file that start at different offsets do not overlap.
pub proof fn lemma_pages_apart(s: Store, p: u64, q: u64)
    requires
        s.aligned(p),
        s.aligned(q),
        p != q,
    ensures
        p + s.stride() <= q || q + s.stride() <= p,
{
    let n = s.stride();
    let a = p - s.header_size();
    let b = q - s.header_size();
    vstd::arithmetic::div_mod::lemma_fundamental_div_mod(a, n);
    vstd::arithmetic::div_mod::lemma_fundamental_div_mod(b, n);
    let ka = a / n;
    let kb = b / n;
    assert(a == n * ka && b == n * kb);
    assert(a != b && n > 0 && a == n * ka && b == n * kb ==> a + n <= b || b + n <= a)
        by (nonlinear_arith);
}

/// A page of the file is counted among its whole pages: its index is below
/// the page count, and the index tells pages apart.
pub proof fn lemma_page_index(s: Store, p: u64)
    requires
        s.is_page(p),
    ensures
        0 <= (p - s.header_size()) / s.stride() < s.page_count(),
        p == s.header_size() + ((p - s.header_size()) / s.stride()) * s.stride(),
{
    let n = s.stride();
    let a = p - s.header_size();
    let l = s.len() - s.header_size();
    vstd::arithmetic::div_mod::lemma_fundamental_div_mod(a, n);
    vstd::arithmetic::div_mod::lemma_fundamental_div_mod(l, n);
    let ka = a / n;
    let kl = l / n;
    assert(a == n * ka);
    assert(0 <= a && n > 0 && a == n * ka ==> 0 <= ka) by (nonlinear_arith);
    assert(l == n * kl + l % n && 0 <= l % n < n);
    assert(a + n <= l && a == n * ka && l == n * kl + l % n && l % n < n && n > 0 ==> ka < kl)
        by (nonlinear_arith);
    assert(n * ka == ka * n) by (nonlinear_arith);
}

/// A patch that lies inside the page at `p` leaves everything else alone.
pub proof fn lemma_patch_in_page(s: Store, p: u64, at: int, patch: Seq<u8>)
    requires
        s.is_page(p),
        p <= at,
        at + patch.len() <= p + s.stride(),
    ensures
        s.frames(s.with_bytes(at, patch), set![p]),
        s.with_bytes(at, patch).free_head() == s.free_head(),
        s.with_bytes(at, patch).len() == s.len(),
{
    let t = s.with_bytes(at, patch);
    lemma_word_at_apart(s.bytes, at, patch, s.free_slot());
    lemma_word_at_apart(s.bytes, at, patch, s.root_slot());
    lemma_overlay_apart(s.bytes, at, patch, 0, s.free_slot());
    assert(t.bytes.take(s.free_slot()) =~= t.bytes.subrange(0, s.free_slot()));
    assert(s.bytes.take(s.free_slot()) =~= s.bytes.subrange(0, s.free_slot()));
    assert forall|q: u64| s.is_page(q) && !set![p].contains(q) implies #[trigger] s.same_page(
        t,
        q,
    ) by {
        assert(q != p);
        lemma_pages_apart(s, p, q);
        lemma_word_at_apart(s.bytes, at, patch, q as int);
        lemma_overlay_apart(s.bytes, at, patch, q + 8, q + s.stride());
    }
}

/// A word put in the slot of the free list's head leaves everything else
/// alone.
pub proof fn lemma_with_free_head(s: Store, word: u64)
    requires
        s.len() >= s.header_size(),
    ensures
        s.frames(s.with_word(s.free_slot(), word), Set::<u64>::empty()),
        s.with_word(s.free_slot(), word).free_head() == word,
        s.with_word(s.free_slot(), word).len() == s.len(),
{
    let at = s.free_slot();
    let patch = word_bytes(word);
    let t = s.with_word(at, word);
    lemma_word_bytes_len(word);
    lemma_word_at_patched(s.bytes, at, word);
    lemma_word_at_apart(s.bytes, at, patch, s.root_slot());
    lemma_overlay_apart(s.bytes, at, patch, 0, s.free_slot());
    assert(t.bytes.take(s.free_slot()) =~= t.bytes.subrange(0, s.free_slot()));
    assert(s.bytes.take(s.free_slot()) =~= s.bytes.subrange(0, s.free_slot()));
    assert forall|q: u64| s.is_page(q) implies #[trigger] s.same_page(t, q) by {
        lemma_word_at_apart(s.bytes, at, patch, q as int);
        lemma_overlay_apart(s.bytes, at, patch, q + 8, q + s.stride());
    }
}

/// A header put on the page at `p` is the header read there, as long as its
/// value fits in 62 bits, and one of the same tag in any case; the payload
/// stays, and so does everything else.
pub proof fn lemma_with_header(s: Store, p: u64, header: PageHeader)
    requires
        s.is_page(p),
    ensures
        header.fits() ==> s.with_header(p, header).header(p) == header,
        s.with_header(p, header).header(p).tag() == header.tag(),
        s.with_header(p, header).payload(p) == s.payload(p),
        s.frames(s.with_header(p, header), set![p]),
        s.with_header(p, header).free_head() == s.free_head(),
        s.with_header(p, header).len() == s.len(),
{
    let patch = word_bytes(header.encode());
    lemma_word_bytes_len(header.encode());
    lemma_word_at_patched(s.bytes, p as int, header.encode());
    lemma_overlay_apart(s.bytes, p as int, patch, p + 8, p + s.stride());
    lemma_patch_in_page(s, p, p as int, patch);
}

/// A payload put on the page at `p` is what is read there, with filler
/// after it; the header stays, and so does everything else.
pub proof fn lemma_with_payload(s: Store, p: u64, data: Seq<u8>)
    requires
        s.is_page(p),
        data.len() <= s.page_size(),
    ensures
        s.with_payload(p, data).payload(p) == data + filler((s.page_size() - data.len()) as nat),
        s.with_payload(p, data).header(p) == s.header(p),
        s.frames(s.with_payload(p, data), set![p]),
        s.with_payload(p, data).free_head() == s.free_head(),
        s.with_payload(p, data).len() == s.len(),
{
    let rest = filler((s.page_size() - data.len()) as nat);
    let mid = s.with_bytes(p + 8, data);
    let t = mid.with_bytes(p + 8 + data.len(), rest);
    assert(t == s.with_payload(p, data));
    lemma_patch_in_page(s, p, p + 8, data);
    lemma_patch_in_page(mid, p, p + 8 + data.len(), rest);
    lemma_frames_then(s, mid, t, set![p], set![p], set![p]);
    lemma_word_at_apart(s.bytes, p + 8, data, p as int);
    lemma_word_at_apart(mid.bytes, p + 8 + data.len(), rest, p as int);
    assert(t.payload(p) =~= data + rest);
}

/// Two changes in a row touch, of the pages that were there, what either
/// touches.
pub proof fn lemma_frames_then(s: Store, t: Store, u: Store, a: Set<u64>, b: Set<u64>, c: Set<u64>)
    requires
        s.frames(t, a),
        t.frames(u, b),
        forall|q: u64| s.is_page(q) && (a.contains(q) || b.contains(q)) ==> c.contains(q),
    ensures
        s.frames(u, c),
{
    assert forall|q: u64| s.is_page(q) && !c.contains(q) implies #[trigger] s.same_page(u, q) by {
        assert(s.same_page(t, q));
        assert(t.is_page(q));
        assert(t.same_page(u, q));
    }
}

/// The file grown by a page: the new page is an empty final page at the old
/// end, and what was there before is as it was.
pub proof fn lemma_grown(s: Store)
    requires
        s.len() >= s.header_size(),
        s.can_grow(),
    ensures
        s.grown().len() == s.len() + s.stride(),
        s.grown().header(s.len() as u64) == PageHeader::FinalPage(0),
        s.grown().payload(s.len() as u64) == filler(s.page_size() as nat),
        s.frames(s.grown(), Set::<u64>::empty()),
        s.grown().free_head() == s.free_head(),
{
    let t = s.grown();
    let word = PageHeader::FinalPage(0).encode();
    lemma_word_bytes_len(word);
    vstd::bytes::lemma_auto_spec_u64_to_from_le_bytes();
    PageHeader::FinalPage(0).lemma_decode_encode();
    assert(t.bytes.subrange(s.len(), s.len() + 8) =~= word_bytes(word));
    assert(t.bytes.subrange(s.len() + 8, s.len() + s.stride()) =~= filler(s.page_size() as nat));
    assert(t.bytes.subrange(s.free_slot(), s.free_slot() + 8) =~= s.bytes.subrange(
        s.free_slot(),
        s.free_slot() + 8,
    ));
    assert(t.bytes.subrange(s.root_slot(), s.root_slot() + 8) =~= s.bytes.subrange(
        s.root_slot(),
        s.root_slot() + 8,
    ));
    assert(t.bytes.take(s.free_slot()) =~= s.bytes.take(s.free_slot()));
    assert forall|q: u64| s.is_page(q) implies #[trigger] s.same_page(t, q) by {
        assert(t.bytes.subrange(q as int, q + 8) =~= s.bytes.subrange(q as int, q + 8));
        assert(t.bytes.subrange(q + 8, q + s.stride()) =~= s.bytes.subrange(
            q + 8,
            q + s.stride(),
        ));
    }
}

} // verus!
