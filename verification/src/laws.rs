//! What holds of a sound file under the operations of the store.
//!
//! A file is sound when it is a header and whole pages, starts with the
//! magic bytes, and has a well-formed free list. A handle names a blob when a
//! chain of pages starts at it. Creating a file makes a sound one, and
//! allocating, writing and deleting keep it sound.

use vstd::prelude::*;
use crate::codec::PageHeader;
use crate::config::Config;
use crate::error::{Error, IoFailure};
use crate::frame::{
    lemma_frames_then, lemma_grown, lemma_page_index, lemma_with_free_head, lemma_with_header,
    lemma_with_payload,
};
use crate::image::{lemma_word_bytes_len, word_bytes};
use crate::shape::{
    lemma_allocated, lemma_chain_kept, lemma_chain_pages, lemma_chain_read, lemma_chain_unique,
    lemma_contents_len, lemma_count, lemma_free_pages, lemma_free_unique, lemma_released,
    members, pages_for, stacked,
};
use crate::store::Store;
use crate::writing::lemma_written;

verus! {

impl Store {
    /// The file is a header and whole pages, starts with the magic bytes,
    /// and has a free list.
    pub open spec fn sound(self) -> bool {
        &&& self.whole()
        &&& self.has_magic()
        &&& exists|free: Seq<u64>| self.is_free_list(free)
    }

    /// The pages of the free list of a sound file, from its head on.
    pub open spec fn free_pages(self) -> Seq<u64> {
        choose|free: Seq<u64>| self.is_free_list(free)
    }

    /// A chain of `n` pages starts at `h`.
    pub open spec fn is_blob_of(self, h: u64, n: nat) -> bool {
        exists|pages: Seq<u64>| #[trigger] self.is_chain(pages) && pages[0] == h && pages.len() == n
    }

    /// A chain of pages starts at `h`.
    pub open spec fn is_blob(self, h: u64) -> bool {
        exists|pages: Seq<u64>| #[trigger] self.is_chain(pages) && pages[0] == h
    }

    /// The pages of the blob at `h`.
    pub open spec fn chain_of(self, h: u64) -> Seq<u64> {
        choose|pages: Seq<u64>| #[trigger] self.is_chain(pages) && pages[0] == h
    }
}

/// An image that left the start of the file alone still has the magic
/// bytes.
pub proof fn lemma_magic_kept(s: Store, t: Store, touched: Set<u64>)
    requires
        s.has_magic(),
        s.frames(t, touched),
    ensures
        t.has_magic(),
{
}

/// Reading at the first page of a chain gives the chain's contents.
pub proof fn lemma_read_chain(s: Store, pages: Seq<u64>)
    requires
        s.is_chain(pages),
    ensures
        s.read(pages[0]) == Ok::<Seq<u8>, Error>(s.contents(pages)),
        s.handle_fault(pages[0]) is None,
{
    lemma_chain_pages(s, pages);
    lemma_count(s, pages);
    lemma_chain_read(s, pages, s.page_count());
}

/// A file that was just created is sound; its root is an empty blob in the
/// one page of the file, which starts right after the header.
pub proof fn law_fresh_is_sound(config: Config)
    requires
        config.valid(),
    ensures
        Store::opened(None, config) == Ok::<Store, Error>(Store::fresh(config)),
        Store::fresh(config).sound(),
        Store::fresh(config).is_free_list(Seq::<u64>::empty()),
        Store::fresh(config).len() == config.spec_header_size() + config.spec_stride(),
        Store::fresh(config).root() == config.spec_header_size(),
        Store::fresh(config).is_blob_of(Store::fresh(config).root(), 1),
        Store::fresh(config).is_blob(Store::fresh(config).root()),
        Store::fresh(config).read_root() == Ok::<Seq<u8>, Error>(Seq::<u8>::empty()),
{
    let size = config.spec_header_size();
    let base = Store {
        config,
        bytes: config.magic_bytes@ + word_bytes(0) + word_bytes(size as u64),
    };
    let f = Store::fresh(config);
    let root = size as u64;
    lemma_word_bytes_len(0);
    lemma_word_bytes_len(root);
    vstd::bytes::lemma_auto_spec_u64_to_from_le_bytes();
    assert(base.bytes.subrange(base.free_slot(), base.free_slot() + 8) =~= word_bytes(0));
    assert(base.bytes.subrange(base.root_slot(), base.root_slot() + 8) =~= word_bytes(root));
    assert(base.bytes.take(base.free_slot()) =~= config.magic_bytes@);
    lemma_grown(base);
    let n = config.spec_stride();
    assert(n > 0 ==> n % n == 0 && 0int % n == 0) by (nonlinear_arith);
    assert(f.is_free_list(Seq::<u64>::empty()));
    let pages = seq![root];
    assert(pages.skip(1) =~= Seq::<u64>::empty());
    assert(f.is_chain(pages));
    lemma_read_chain(f, pages);
    assert(f.contents(pages) =~= Seq::<u8>::empty());
}

/// Opening the image of a sound file with the options it was made with
/// gives the file as it was.
pub proof fn law_reopen(s: Store)
    requires
        s.sound(),
    ensures
        Store::opened(Some(s.bytes), s.config) == Ok::<Store, Error>(s),
{
}

/// Opening with magic bytes that differ somewhere from those at the start
/// of the file is refused.
pub proof fn law_magic_mismatch(s: Store, other: Config, i: int)
    requires
        s.has_magic(),
        0 <= i < s.config.magic_bytes@.len(),
        i < other.magic_bytes@.len(),
        s.config.magic_bytes@[i] != other.magic_bytes@[i],
    ensures
        Store::opened(Some(s.bytes), other) == Err::<Store, Error>(Error::InvalidFile),
{
    let there = Store { config: other, bytes: s.bytes };
    if there.has_magic() {
        assert(s.bytes.take(s.config.magic_bytes@.len() as int)[i] == s.bytes[i]);
        assert(s.bytes.take(other.magic_bytes@.len() as int)[i] == s.bytes[i]);
    }
}

/// A handle at which no page starts, or beyond the end of the file, is
/// refused by reading, writing and deleting alike.
pub proof fn law_invalid_handle(s: Store, h: u64, data: Seq<u8>)
    requires
        !s.aligned(h) || h >= s.len(),
    ensures
        s.read(h) == Err::<Seq<u8>, Error>(Error::InvalidPointer),
        s.write(h, data) == Err::<Store, Error>(Error::InvalidPointer),
        s.deleted(h) == Err::<Store, Error>(Error::InvalidPointer),
{
}

/// The page at `p` put on the free list is deleted and the head of the
/// list; every other page is as it was.
pub proof fn lemma_pushed(s: Store, p: u64)
    requires
        s.is_page(p),
    ensures
        s.pushed(p).header(p) is DeletedPage,
        s.pushed(p).free_head() == p,
        s.pushed(p).len() == s.len(),
        s.frames(s.pushed(p), set![p]),
{
    let a = s.with_header(p, PageHeader::DeletedPage(s.free_head()));
    let b = a.with_word(s.free_slot(), p);
    let c = b.with_payload(p, Seq::<u8>::empty());
    assert(c == s.pushed(p));
    lemma_with_header(s, p, PageHeader::DeletedPage(s.free_head()));
    lemma_with_free_head(a, p);
    lemma_with_payload(b, p, Seq::<u8>::empty());
    assert(a.same_page(b, p));
    lemma_frames_then(s, a, b, set![p], Set::<u64>::empty(), set![p]);
    lemma_frames_then(s, b, c, set![p], set![p], set![p]);
}

/// Releasing a chain deletes no page back into life: a page that was
/// deleted before is deleted after.
pub proof fn lemma_released_keeps_deleted(s: Store, p: u64, fuel: nat, q: u64)
    requires
        s.released(p, fuel) is Ok,
        s.is_page(q),
        s.header(q) is DeletedPage,
    ensures
        s.released(p, fuel).unwrap().header(q) is DeletedPage,
        s.released(p, fuel).unwrap().len() == s.len(),
        s.released(p, fuel).unwrap().config == s.config,
    decreases fuel,
{
    let s1 = s.pushed(p);
    lemma_pushed(s, p);
    if q != p {
        assert(s.same_page(s1, q));
    }
    if let PageHeader::NextPage(next) = s.header(p) {
        lemma_released_keeps_deleted(s1, next, (fuel - 1) as nat, q);
    }
}

/// After a blob was deleted its handle is refused as deleted, whatever the
/// file held.
pub proof fn law_deleted_handle(s: Store, h: u64, data: Seq<u8>)
    requires
        s.deleted(h) is Ok,
    ensures
        s.deleted(h).unwrap().read(h) == Err::<Seq<u8>, Error>(Error::DeletedPointer),
        s.deleted(h).unwrap().write(h, data) == Err::<Store, Error>(Error::DeletedPointer),
        s.deleted(h).unwrap().deleted(h) == Err::<Store, Error>(Error::DeletedPointer),
{
    let fuel = s.page_count();
    let s1 = s.pushed(h);
    lemma_pushed(s, h);
    if let PageHeader::NextPage(next) = s.header(h) {
        lemma_released_keeps_deleted(s1, next, (fuel - 1) as nat, h);
    }
}

/// A page that was allocated and deleted right away is the page that the
/// next allocation returns.
pub proof fn law_freed_page_is_reused(s: Store)
    requires
        s.allocated() is Ok,
        s.allocated().unwrap().0.deleted(s.allocated().unwrap().1) is Ok,
    ensures
        s.allocated().unwrap().0.deleted(s.allocated().unwrap().1).unwrap().allocated() is Ok,
        s.allocated().unwrap().0.deleted(s.allocated().unwrap().1).unwrap().allocated().unwrap().1
            == s.allocated().unwrap().1,
{
    let (t, h) = s.allocated().unwrap();
    if s.free_head() == 0 {
        lemma_grown(s);
    } else {
        let a = s.with_word(s.free_slot(), s.header(h).value());
        lemma_with_header(a, h, PageHeader::FinalPage(0));
    }
    assert(t.header(h) == PageHeader::FinalPage(0));
    lemma_page_index(t, h);
    lemma_pushed(t, h);
}

/// In a sound file, allocating fails only where the free list is empty and
/// the file cannot grow. Else it leaves a sound file in which the handle
/// names an empty blob of one page: the head of the free list if there was
/// one, and then the file is as long as before; else a new page at the end.
pub proof fn law_allocate(s: Store)
    requires
        s.sound(),
    ensures
        match s.allocated() {
            Ok((t, h)) => {
                &&& t.sound()
                &&& t.is_blob_of(h, 1)
                &&& t.is_blob(h)
                &&& t.read(h) == Ok::<Seq<u8>, Error>(Seq::<u8>::empty())
                &&& t.root() == s.root()
                &&& if s.free_head() == 0 {
                    h == s.len() && t.len() == s.len() + s.stride()
                } else {
                    h == s.free_head() && t.len() == s.len()
                }
            },
            Err(e) => e == Error::IO(IoFailure::FileTooLarge) && s.free_head() == 0
                && !s.can_grow(),
        },
{
    let free = s.free_pages();
    lemma_allocated(s, free);
    if let Ok((t, h)) = s.allocated() {
        if free.len() == 0 {
            lemma_magic_kept(s, t, Set::<u64>::empty());
            assert(t.is_free_list(free));
        } else {
            lemma_magic_kept(s, t, set![h]);
            assert(t.is_free_list(free.skip(1)));
        }
        lemma_read_chain(t, seq![h]);
        assert(t.contents(seq![h]) =~= Seq::<u8>::empty());
    }
}

/// In a sound file, allocating leaves every blob as it was.
pub proof fn law_allocate_keeps_blobs(s: Store, g: u64)
    requires
        s.sound(),
        s.is_blob(g),
        s.allocated() is Ok,
    ensures
        s.allocated().unwrap().0.is_blob(g),
        s.allocated().unwrap().0.read(g) == s.read(g),
{
    let free = s.free_pages();
    let other = s.chain_of(g);
    let (t, h) = s.allocated().unwrap();
    lemma_allocated(s, free);
    lemma_chain_pages(s, other);
    lemma_free_pages(s, s.free_head(), free);
    if free.len() == 0 {
        lemma_chain_kept(s, t, other, Set::<u64>::empty());
    } else {
        assert(members(free).contains(h));
        lemma_chain_kept(s, t, other, set![h]);
    }
    lemma_read_chain(s, other);
    lemma_read_chain(t, other);
}

/// In a sound file, writing to a blob succeeds exactly where its chain and
/// the free list have pages enough for the data, or the file may grow by
/// those that are missing; it fails in no other way than by a file that
/// cannot grow.
///
/// After it the file is sound, the handle names a blob of as many pages as
/// the data takes, at least one, and reading it gives the data. The file
/// has grown by the pages that were missing and no more, and the root
/// handle is the same. The chain that is returned is that of the blob.
pub proof fn law_write(s: Store, h: u64, data: Seq<u8>) -> (pages2: Seq<u64>)
    requires
        s.sound(),
        s.is_blob(h),
    ensures
        s.write(h, data) is Ok <==> s.has_room(
            (s.chain_of(h).len() + s.free_pages().len()) as int,
            data.len(),
        ),
        match s.write(h, data) {
            Ok(t) => {
                let need = pages_for(data.len(), s.page_size());
                let have = s.chain_of(h).len() + s.free_pages().len();
                &&& t.sound()
                &&& t.is_chain(pages2)
                &&& pages2[0] == h
                &&& pages2.len() == need
                &&& t.is_blob_of(h, need as nat)
                &&& t.is_blob(h)
                &&& t.read(h) == Ok::<Seq<u8>, Error>(data)
                &&& t.config == s.config
                &&& t.root() == s.root()
                &&& t.len() == s.len() + (if need > have {
                    need - have
                } else {
                    0
                }) * s.stride()
            },
            Err(e) => e == Error::IO(IoFailure::FileTooLarge),
        },
{
    let pages = s.chain_of(h);
    let free = s.free_pages();
    lemma_read_chain(s, pages);
    let (pages2, free2) = lemma_written(s, pages, free, data);
    if let Ok(t) = s.written(h, data) {
        lemma_magic_kept(s, t, members(pages).union(members(free)));
        lemma_read_chain(t, pages2);
        assert(t.is_free_list(free2));
        pages2
    } else {
        pages
    }
}

/// A handle names one blob and a file has one free list: the chain that
/// starts at a handle is the chain of that handle, and the free list of a
/// file is its free pages.
pub proof fn law_one_chain_one_free_list(s: Store, pages: Seq<u64>, free: Seq<u64>)
    requires
        s.is_chain(pages),
        s.is_free_list(free),
    ensures
        s.chain_of(pages[0]) == pages,
        s.free_pages() == free,
        members(pages).disjoint(members(free)),
{
    lemma_chain_unique(s, s.chain_of(pages[0]), pages);
    lemma_free_unique(s, s.free_head(), s.free_pages(), free);
    lemma_chain_pages(s, pages);
    lemma_free_pages(s, s.free_head(), free);
}

/// Reading a blob of `k` pages gives `(k - 1) * page_size + n` bytes, where
/// `n` is the count in the header of its last page.
pub proof fn law_blob_length(s: Store, h: u64)
    requires
        s.is_blob(h),
    ensures
        s.read(h) is Ok,
        s.read(h).unwrap().len() == (s.chain_of(h).len() - 1) * s.page_size() + s.header(
            s.chain_of(h).last(),
        ).value(),
{
    lemma_read_chain(s, s.chain_of(h));
    lemma_contents_len(s, s.chain_of(h));
}

/// What was written to a page that was just allocated is what is read from
/// it.
pub proof fn law_allocate_write_read(s: Store, data: Seq<u8>)
    requires
        s.sound(),
        s.allocated() is Ok,
        s.allocated().unwrap().0.write(s.allocated().unwrap().1, data) is Ok,
    ensures
        s.allocated().unwrap().0.write(s.allocated().unwrap().1, data).unwrap().read(
            s.allocated().unwrap().1,
        ) == Ok::<Seq<u8>, Error>(data),
{
    law_allocate(s);
    law_write(s.allocated().unwrap().0, s.allocated().unwrap().1, data);
}

/// What was written to a blob of a sound file is what is read from it.
pub proof fn law_round_trip(s: Store, h: u64, data: Seq<u8>)
    requires
        s.sound(),
        s.is_blob(h),
        s.write(h, data) is Ok,
    ensures
        s.write(h, data).unwrap().read(h) == Ok::<Seq<u8>, Error>(data),
{
    law_write(s, h, data);
}

/// A blob of a sound file can be written again and again: each time the
/// file stays sound, the handle stays a blob, and reading gives what was
/// written last.
pub proof fn law_rewrite(s: Store, h: u64, first: Seq<u8>, second: Seq<u8>)
    requires
        s.sound(),
        s.is_blob(h),
        s.write(h, first) is Ok,
        s.write(h, first).unwrap().write(h, second) is Ok,
    ensures
        s.write(h, first).unwrap().read(h) == Ok::<Seq<u8>, Error>(first),
        s.write(h, first).unwrap().write(h, second).unwrap().sound(),
        s.write(h, first).unwrap().write(h, second).unwrap().is_blob(h),
        s.write(h, first).unwrap().write(h, second).unwrap().read(h) == Ok::<Seq<u8>, Error>(
            second,
        ),
{
    law_write(s, h, first);
    law_write(s.write(h, first).unwrap(), h, second);
}

/// In a sound file, writing to one blob leaves every blob that shares no
/// page with it as it was.
pub proof fn law_write_keeps_blobs(s: Store, h: u64, data: Seq<u8>, g: u64)
    requires
        s.sound(),
        s.is_blob(h),
        s.is_blob(g),
        members(s.chain_of(h)).disjoint(members(s.chain_of(g))),
        s.write(h, data) is Ok,
    ensures
        s.write(h, data).unwrap().is_blob(g),
        s.write(h, data).unwrap().read(g) == s.read(g),
{
    let pages = s.chain_of(h);
    let other = s.chain_of(g);
    let free = s.free_pages();
    lemma_read_chain(s, pages);
    lemma_written(s, pages, free, data);
    let t = s.written(h, data).unwrap();
    lemma_chain_pages(s, other);
    lemma_free_pages(s, s.free_head(), free);
    lemma_chain_kept(s, t, other, members(pages).union(members(free)));
    lemma_read_chain(s, other);
    lemma_read_chain(t, other);
}

/// The root blob that was written is read back after the file was closed
/// and opened again.
pub proof fn law_root_persists(s: Store, data: Seq<u8>)
    requires
        s.sound(),
        s.is_blob(s.root()),
        s.write_root(data) is Ok,
    ensures
        Store::opened(Some(s.write_root(data).unwrap().bytes), s.config) == Ok::<Store, Error>(
            s.write_root(data).unwrap(),
        ),
        s.write_root(data).unwrap().read_root() == Ok::<Seq<u8>, Error>(data),
{
    law_write(s, s.root(), data);
    law_reopen(s.write_root(data).unwrap());
}

/// In a sound file, a blob that is written shorter by at least a page
/// leaves pages on the free list: the file is as long as before, and the
/// next allocation, also after closing and opening again, takes a page
/// from the list and leaves the file's length as it is.
pub proof fn law_shrink_frees_pages(s: Store, h: u64, data: Seq<u8>)
    requires
        s.sound(),
        s.is_blob(h),
        pages_for(data.len(), s.page_size()) < s.chain_of(h).len(),
    ensures
        s.write(h, data) is Ok,
        s.write(h, data).unwrap().len() == s.len(),
        Store::opened(Some(s.write(h, data).unwrap().bytes), s.config) == Ok::<Store, Error>(
            s.write(h, data).unwrap(),
        ),
        s.write(h, data).unwrap().allocated() is Ok,
        s.write(h, data).unwrap().allocated().unwrap().0.len() == s.len(),
{
    let pages = s.chain_of(h);
    let free = s.free_pages();
    lemma_read_chain(s, pages);
    let (pages2, free2) = lemma_written(s, pages, free, data);
    let t = s.written(h, data).unwrap();
    lemma_magic_kept(s, t, members(pages).union(members(free)));
    lemma_allocated(t, free2);
}

/// In a sound file, deleting a blob succeeds. It leaves a sound file of the
/// same length in which the pages of the blob are on the free list, the
/// last of them at its head, and the root handle is the same.
pub proof fn law_delete(s: Store, h: u64)
    requires
        s.sound(),
        s.is_blob(h),
    ensures
        s.deleted(h) is Ok,
        s.deleted(h).unwrap().sound(),
        s.deleted(h).unwrap().len() == s.len(),
        s.deleted(h).unwrap().root() == s.root(),
        s.deleted(h).unwrap().is_free_list(stacked(s.chain_of(h), s.free_pages())),
        s.deleted(h).unwrap().free_head() == s.chain_of(h).last(),
{
    let pages = s.chain_of(h);
    let free = s.free_pages();
    lemma_read_chain(s, pages);
    lemma_chain_pages(s, pages);
    lemma_count(s, pages);
    lemma_released(s, pages, free, s.page_count());
    let t = s.released(h, s.page_count()).unwrap();
    lemma_magic_kept(s, t, members(pages));
    lemma_stacked_head(pages, free);
}

/// The head of what was stacked is the last page that was put on.
pub proof fn lemma_stacked_head(pages: Seq<u64>, free: Seq<u64>)
    requires
        pages.len() > 0,
    ensures
        stacked(pages, free).len() > 0,
        stacked(pages, free)[0] == pages.last(),
    decreases pages.len(),
{
    let more = seq![pages[0]] + free;
    if pages.len() > 1 {
        lemma_stacked_head(pages.skip(1), more);
    } else {
        assert(stacked(pages.skip(1), more) == more);
    }
}

/// In a sound file, deleting one blob leaves every blob that shares no page
/// with it as it was.
pub proof fn law_delete_keeps_blobs(s: Store, h: u64, g: u64)
    requires
        s.sound(),
        s.is_blob(h),
        s.is_blob(g),
        members(s.chain_of(h)).disjoint(members(s.chain_of(g))),
    ensures
        s.deleted(h) is Ok,
        s.deleted(h).unwrap().is_blob(g),
        s.deleted(h).unwrap().read(g) == s.read(g),
{
    let pages = s.chain_of(h);
    let other = s.chain_of(g);
    let free = s.free_pages();
    lemma_read_chain(s, pages);
    lemma_chain_pages(s, pages);
    lemma_count(s, pages);
    lemma_released(s, pages, free, s.page_count());
    let t = s.released(h, s.page_count()).unwrap();
    lemma_chain_kept(s, t, other, members(pages));
    lemma_read_chain(s, other);
    lemma_read_chain(t, other);
}

} // verus!
