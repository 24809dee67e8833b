//! What writing makes of a sound file: the chain afterwards holds the data
//! in as many pages as it takes, pages come from the rest of the old chain,
//! then from the free list, then from growth, and what is left of the old
//! chain goes to the free list.

use vstd::prelude::*;
use crate::codec::{PageHeader, VALUE_LIMIT};
use crate::error::{Error, IoFailure};
use crate::frame::{lemma_frames_then, lemma_with_header, lemma_with_payload};
use crate::image::filler;
use crate::shape::{
    lemma_allocated, lemma_chain_kept, lemma_chain_pages, lemma_count, lemma_free_kept,
    lemma_free_pages, lemma_released, lemma_stacked, members, pages_for, stacked,
};
use crate::store::Store;

verus! {

impl Store {
    /// The file may grow by `n` pages.
    pub open spec fn room_for(self, n: int) -> bool {
        self.len() + n * self.stride() <= usize::MAX && self.len() + n * self.stride()
            <= VALUE_LIMIT
    }

    /// A chain of `have` pages, counting those of the free list, can be made
    /// to hold `len` bytes: there are pages enough, or the file may grow by
    /// those that are missing.
    pub open spec fn has_room(self, have: int, len: nat) -> bool {
        let need = pages_for(len, self.page_size());
        need <= have || self.room_for(need - have)
    }

    /// `t` is what writing `data` to the chain `pages` made of `self`, whose
    /// free list was `free`: the chain is now `pages2` and holds the data,
    /// the free list is `free2`, and nothing else has changed.
    pub open spec fn wrote(
        self,
        t: Store,
        pages: Seq<u64>,
        free: Seq<u64>,
        data: Seq<u8>,
        pages2: Seq<u64>,
        free2: Seq<u64>,
    ) -> bool {
        let need = pages_for(data.len(), self.page_size());
        let have = pages.len() + free.len();
        &&& t.whole()
        &&& t.is_chain(pages2)
        &&& pages2[0] == pages[0]
        &&& t.is_free_list(free2)
        &&& t.contents(pages2) == data
        &&& pages2.len() == need
        &&& free2.len() == if have > need {
            have - need
        } else {
            0
        }
        &&& t.len() == self.len() + (if need > have {
            need - have
        } else {
            0
        }) * self.stride()
        &&& self.frames(t, members(pages).union(members(free)))
        &&& forall|q: u64| #[trigger]
            members(pages2).contains(q) ==> members(pages).contains(q) || members(free).contains(q)
                || !self.is_page(q)
        &&& forall|q: u64| #[trigger]
            members(free2).contains(q) ==> members(pages).contains(q) || members(free).contains(q)
                || !self.is_page(q)
    }
}

pub proof fn lemma_pages_for_more(len: nat, page_size: int)
    requires
        page_size > 0,
        len > page_size,
    ensures
        pages_for(len, page_size) == 1 + pages_for((len - page_size) as nat, page_size),
        pages_for(len, page_size) >= 2,
{
    let a = len - 1;
    assert(page_size > 0 && a >= page_size ==> (a + page_size) / page_size == 1 + a / page_size
        && a / page_size >= 1) by (nonlinear_arith);
    assert(page_size > 0 && a >= page_size ==> a / page_size == 1 + (a - page_size) / page_size)
        by (nonlinear_arith);
}

pub proof fn lemma_pages_for_one(len: nat, page_size: int)
    requires
        page_size > 0,
        len <= page_size,
    ensures
        pages_for(len, page_size) == 1,
{
    if len > 0 {
        let a = len - 1;
        assert(page_size > 0 && 0 <= a < page_size ==> (a + page_size) / page_size == 1)
            by (nonlinear_arith);
    }
}

/// The page at `p` made the last of its chain holds the data as a chain of
/// one page.
pub proof fn lemma_closed_with(s: Store, p: u64, data: Seq<u8>)
    requires
        s.whole(),
        s.is_page(p),
        data.len() <= s.page_size(),
    ensures
        s.closed_with(p, data).is_chain(seq![p]),
        s.closed_with(p, data).contents(seq![p]) == data,
        s.frames(s.closed_with(p, data), set![p]),
        s.closed_with(p, data).free_head() == s.free_head(),
        s.closed_with(p, data).len() == s.len(),
        s.closed_with(p, data).whole(),
{
    let mid = s.with_payload(p, data);
    let header = PageHeader::FinalPage(data.len() as u64);
    let t = mid.with_header(p, header);
    lemma_with_payload(s, p, data);
    lemma_with_header(mid, p, header);
    lemma_frames_then(s, mid, t, set![p], set![p], set![p]);
    assert(seq![p].skip(1) =~= Seq::<u64>::empty());
    assert(members(seq![p].skip(1)) =~= Set::<u64>::empty());
    assert((data + filler((s.page_size() - data.len()) as nat)).take(data.len() as int) =~= data);
}

/// A full page put before a chain that was written makes a chain that holds
/// the page's bytes and then the chain's.
pub proof fn lemma_prepend(
    u: Store,
    t: Store,
    p: u64,
    chunk: Seq<u8>,
    pages: Seq<u64>,
    free: Seq<u64>,
    rest: Seq<u8>,
    pages2: Seq<u64>,
    free2: Seq<u64>,
)
    requires
        u.is_page(p),
        u.header(p) == PageHeader::NextPage(pages[0]),
        u.payload(p) == chunk,
        !members(pages).contains(p),
        !members(free).contains(p),
        u.wrote(t, pages, free, rest, pages2, free2),
    ensures
        t.is_chain(seq![p] + pages2),
        t.contents(seq![p] + pages2) == chunk + rest,
        members(seq![p] + pages2) == members(pages2).insert(p),
        t.same_page(u, p),
{
    let all = seq![p] + pages2;
    assert(all.skip(1) =~= pages2);
    assert(u.same_page(t, p));
    assert(t.is_page(p));
}

/// Writing to a chain of a whole file with a free list.
///
/// It succeeds exactly where the chain and the free list have pages enough
/// for the data, or the file may grow by those that are missing; it fails
/// in no other way than by a file that cannot grow. What it leaves is
/// described by [`Store::wrote`], for the chain and the free list that are
/// returned.
pub proof fn lemma_written(s: Store, pages: Seq<u64>, free: Seq<u64>, data: Seq<u8>) -> (r: (
    Seq<u64>,
    Seq<u64>,
))
    requires
        s.whole(),
        s.is_chain(pages),
        s.is_free_list(free),
    ensures
        match s.written(pages[0], data) {
            Ok(t) => s.wrote(t, pages, free, data, r.0, r.1) && s.has_room(
                (pages.len() + free.len()) as int,
                data.len(),
            ),
            Err(e) => e == Error::IO(IoFailure::FileTooLarge) && !s.has_room(
                (pages.len() + free.len()) as int,
                data.len(),
            ),
        },
    decreases data.len(),
{
    let p = pages[0];
    let size = s.page_size();
    let stride = s.stride();
    let need = pages_for(data.len(), size);
    let both = members(pages).union(members(free));
    lemma_chain_pages(s, pages);
    lemma_free_pages(s, s.free_head(), free);
    assert(members(pages).contains(p));
    if data.len() > size {
        let chunk = data.take(size);
        let rest = data.skip(size);
        let s1 = s.with_payload(p, chunk);
        lemma_pages_for_more(data.len(), size);
        lemma_with_payload(s, p, chunk);
        assert(s1.payload(p) =~= chunk);
        assert(chunk + rest =~= data);
        lemma_free_kept(s, s1, s.free_head(), free, set![p]);
        match s.header(p) {
            PageHeader::NextPage(next) => {
                let tail = pages.skip(1);
                lemma_chain_kept(s, s1, tail, set![p]);
                let (pages2, free2) = lemma_written(s1, tail, free, rest);
                if let Ok(t) = s1.written(next, rest) {
                    lemma_prepend(s1, t, p, chunk, tail, free, rest, pages2, free2);
                    lemma_frames_then(s, s1, t, set![p], members(tail).union(members(free)), both);
                    (seq![p] + pages2, free2)
                } else {
                    (pages, free)
                }
            },
            PageHeader::FinalPage(_) => {
                assert(pages.len() == 1);
                lemma_allocated(s1, free);
                assert(s.room_for(need - 1) ==> s.can_grow()) by {
                    assert(need - 1 >= 1 && stride > 0 ==> (need - 1) * stride >= stride)
                        by (nonlinear_arith);
                }
                if let Ok((more, fresh)) = s1.allocated() {
                    let s2 = more.with_header(p, PageHeader::NextPage(fresh));
                    let left = if free.len() == 0 {
                        free
                    } else {
                        free.skip(1)
                    };
                    let hit = if free.len() == 0 {
                        Set::<u64>::empty()
                    } else {
                        set![fresh]
                    };
                    assert(members(seq![fresh].skip(1)) =~= Set::<u64>::empty());
                    assert(members(seq![fresh]) =~= set![fresh]);
                    if free.len() > 0 {
                        assert(members(free).contains(fresh));
                    }
                    assert(fresh != p);
                    assert(s1.same_page(more, p));
                    lemma_with_header(more, p, PageHeader::NextPage(fresh));
                    lemma_chain_kept(more, s2, seq![fresh], set![p]);
                    lemma_free_pages(more, more.free_head(), left);
                    lemma_free_kept(more, s2, more.free_head(), left, set![p]);
                    lemma_frames_then(s, s1, more, set![p], hit, both);
                    lemma_frames_then(s, more, s2, both, set![p], both);
                    let (pages2, free2) = lemma_written(s2, seq![fresh], left, rest);
                    assert((s.len() + stride) + (need - 2) * stride == s.len() + (need - 1)
                        * stride) by (nonlinear_arith);
                    if let Ok(t) = s2.written(fresh, rest) {
                        lemma_prepend(s2, t, p, chunk, seq![fresh], left, rest, pages2, free2);
                        lemma_frames_then(
                            s,
                            s2,
                            t,
                            both,
                            members(seq![fresh]).union(members(left)),
                            both,
                        );
                        (seq![p] + pages2, free2)
                    } else {
                        (pages, free)
                    }
                } else {
                    (pages, free)
                }
            },
            PageHeader::DeletedPage(_) => (pages, free),
        }
    } else {
        lemma_pages_for_one(data.len(), size);
        match s.header(p) {
            PageHeader::NextPage(tail) => {
                let rest = pages.skip(1);
                lemma_chain_pages(s, rest);
                lemma_count(s, rest);
                lemma_released(s, rest, free, s.page_count());
                let freed = s.released(tail, s.page_count()).unwrap();
                let free2 = stacked(rest, free);
                let t = freed.closed_with(p, data);
                lemma_stacked(rest, free);
                assert(s.same_page(freed, p));
                lemma_closed_with(freed, p, data);
                lemma_free_kept(freed, t, freed.free_head(), free2, set![p]);
                lemma_frames_then(s, freed, t, members(rest), set![p], both);
                assert(members(seq![p]) =~= set![p]) by {
                    assert(members(seq![p].skip(1)) =~= Set::<u64>::empty());
                }
                (seq![p], free2)
            },
            PageHeader::FinalPage(_) => {
                let t = s.closed_with(p, data);
                lemma_closed_with(s, p, data);
                lemma_free_kept(s, t, s.free_head(), free, set![p]);
                lemma_frames_then(s, s, t, Set::<u64>::empty(), set![p], both);
                assert(members(seq![p]) =~= set![p]) by {
                    assert(members(seq![p].skip(1)) =~= Set::<u64>::empty());
                }
                (seq![p], free)
            },
            PageHeader::DeletedPage(_) => (pages, free),
        }
    }
}

} // verus!
