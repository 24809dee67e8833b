//! The shapes that a sound file is made of: chains of pages and the free
//! list, and what reading, allocating and releasing make of them.

use vstd::prelude::*;
use vstd::relations::injective_on;
use vstd::set_lib::{lemma_int_range, lemma_len_subset, lemma_map_size, set_int_range};
use crate::codec::PageHeader;
use crate::error::{Error, IoFailure};
use crate::frame::{
    lemma_frames_then, lemma_grown, lemma_page_index, lemma_with_free_head, lemma_with_header,
    lemma_with_payload,
};
use crate::store::Store;

verus! {

/// The handles that occur in a sequence of pages.
pub open spec fn members(pages: Seq<u64>) -> Set<u64>
    decreases pages.len(),
{
    if pages.len() == 0 {
        Set::empty()
    } else {
        members(pages.skip(1)).insert(pages[0])
    }
}

/// No handle occurs twice in the sequence.
pub open spec fn distinct(pages: Seq<u64>) -> bool
    decreases pages.len(),
{
    pages.len() == 0 || (!members(pages.skip(1)).contains(pages[0]) && distinct(pages.skip(1)))
}

/// The free list after the pages were put on it one by one, the first page
/// first: the last page ends up at the head.
pub open spec fn stacked(pages: Seq<u64>, free: Seq<u64>) -> Seq<u64>
    decreases pages.len(),
{
    if pages.len() == 0 {
        free
    } else {
        stacked(pages.skip(1), seq![pages[0]] + free)
    }
}

/// The pages that hold `len` bytes: at least one, and no more than needed.
pub open spec fn pages_for(len: nat, page_size: int) -> int {
    if len == 0 {
        1
    } else {
        (len + page_size - 1) / page_size
    }
}

impl Store {
    /// The file is a header and whole pages, of a length that handles can
    /// address, under valid options.
    pub open spec fn whole(self) -> bool {
        &&& self.bounded()
        &&& self.len() >= self.header_size()
        &&& (self.len() - self.header_size()) % self.stride() == 0
    }

    /// The pages are the chain of a blob: distinct pages of the file, each
    /// but the last linked to the one after it, the last a final page with a
    /// count that a page can hold.
    pub open spec fn is_chain(self, pages: Seq<u64>) -> bool
        decreases pages.len(),
    {
        &&& pages.len() > 0
        &&& self.is_page(pages[0])
        &&& !members(pages.skip(1)).contains(pages[0])
        &&& if pages.len() == 1 {
            self.header(pages[0]) is FinalPage && self.header(pages[0]).value() <= self.page_size()
        } else {
            self.header(pages[0]) == PageHeader::NextPage(pages[1]) && self.is_chain(pages.skip(1))
        }
    }

    /// From `head` on the pages are linked as a free list: distinct deleted
    /// pages of the file, the last of which links to 0.
    pub open spec fn is_free_from(self, head: u64, free: Seq<u64>) -> bool
        decreases free.len(),
    {
        if free.len() == 0 {
            head == 0
        } else {
            &&& head == free[0]
            &&& self.is_page(head)
            &&& !members(free.skip(1)).contains(head)
            &&& self.header(head) is DeletedPage
            &&& self.is_free_from(self.header(head).value(), free.skip(1))
        }
    }

    /// The pages are the free list of the file, from its head on.
    pub open spec fn is_free_list(self, free: Seq<u64>) -> bool {
        self.len() >= self.header_size() && self.is_free_from(self.free_head(), free)
    }

    /// The bytes that a chain holds: the whole payload of each page but the
    /// last, and of the last as many bytes as its header counts.
    pub open spec fn contents(self, pages: Seq<u64>) -> Seq<u8>
        decreases pages.len(),
    {
        if pages.len() == 0 {
            Seq::empty()
        } else if pages.len() == 1 {
            self.payload(pages[0]).take(self.header(pages[0]).value() as int)
        } else {
            self.payload(pages[0]) + self.contents(pages.skip(1))
        }
    }
}

/// The members of a sequence are finitely many, and as many as the sequence
/// is long where no handle occurs twice.
pub proof fn lemma_members_len(pages: Seq<u64>)
    ensures
        members(pages).finite(),
        distinct(pages) ==> members(pages).len() == pages.len(),
    decreases pages.len(),
{
    if pages.len() > 0 {
        lemma_members_len(pages.skip(1));
    }
}

/// The members of what was stacked are those of both sequences, and its
/// length is the sum of theirs.
pub proof fn lemma_stacked(pages: Seq<u64>, free: Seq<u64>)
    ensures
        members(stacked(pages, free)) == members(pages).union(members(free)),
        stacked(pages, free).len() == pages.len() + free.len(),
    decreases pages.len(),
{
    if pages.len() > 0 {
        let more = seq![pages[0]] + free;
        lemma_stacked(pages.skip(1), more);
        assert(more.skip(1) =~= free);
        assert(members(more) == members(free).insert(pages[0]));
        assert(members(stacked(pages, free)) =~= members(pages).union(members(free)));
    } else {
        assert(members(stacked(pages, free)) =~= members(pages).union(members(free)));
    }
}

/// The pages of a chain are pages of the file that are not deleted, and no
/// page occurs twice.
pub proof fn lemma_chain_pages(s: Store, pages: Seq<u64>)
    requires
        s.is_chain(pages),
    ensures
        distinct(pages),
        forall|q: u64| #[trigger]
            members(pages).contains(q) ==> s.is_page(q) && !(s.header(q) is DeletedPage),
    decreases pages.len(),
{
    if pages.len() > 1 {
        lemma_chain_pages(s, pages.skip(1));
    } else {
        assert(distinct(pages.skip(1)));
        assert(members(pages.skip(1)) =~= Set::<u64>::empty());
    }
}

/// The pages of a free list are deleted pages of the file, and no page
/// occurs twice.
pub proof fn lemma_free_pages(s: Store, head: u64, free: Seq<u64>)
    requires
        s.is_free_from(head, free),
    ensures
        distinct(free),
        forall|q: u64| #[trigger]
            members(free).contains(q) ==> s.is_page(q) && s.header(q) is DeletedPage,
    decreases free.len(),
{
    if free.len() > 0 {
        lemma_free_pages(s, s.header(head).value(), free.skip(1));
    }
}

/// Distinct pages of a file are no more than the file has pages.
pub proof fn lemma_count(s: Store, pages: Seq<u64>)
    requires
        distinct(pages),
        forall|q: u64| #[trigger] members(pages).contains(q) ==> s.is_page(q),
    ensures
        pages.len() <= s.page_count(),
{
    let x = members(pages);
    let index = |p: u64| (p - s.header_size()) / s.stride();
    let y = x.map(index);
    let range = set_int_range(0, s.page_count() as int);
    lemma_members_len(pages);
    assert(injective_on(index, x)) by {
        assert forall|a: u64, b: u64|
            x.contains(a) && x.contains(b) && #[trigger] index(a) == #[trigger] index(
                b,
            ) implies a == b by {
            lemma_page_index(s, a);
            lemma_page_index(s, b);
        }
    }
    lemma_map_size(x, y, index);
    assert(y.subset_of(range)) by {
        assert forall|k: int| y.contains(k) implies range.contains(k) by {
            let a = choose|a: u64| x.contains(a) && k == index(a);
            lemma_page_index(s, a);
        }
    }
    lemma_int_range(0, s.page_count() as int);
    lemma_len_subset(y, range);
}

/// A chain is still a chain, with the same contents, in an image that left
/// its pages alone.
pub proof fn lemma_chain_kept(s: Store, t: Store, pages: Seq<u64>, touched: Set<u64>)
    requires
        s.is_chain(pages),
        s.frames(t, touched),
        forall|q: u64| #[trigger] members(pages).contains(q) ==> !touched.contains(q),
    ensures
        t.is_chain(pages),
        t.contents(pages) == s.contents(pages),
    decreases pages.len(),
{
    assert(members(pages).contains(pages[0]));
    assert(s.same_page(t, pages[0]));
    if pages.len() > 1 {
        assert forall|q: u64| #[trigger] members(pages.skip(1)).contains(q) implies !touched.contains(
            q,
        ) by {
            assert(members(pages).contains(q));
        }
        lemma_chain_kept(s, t, pages.skip(1), touched);
    }
}

/// A free list is still one, from the same head, in an image that left its
/// pages alone.
pub proof fn lemma_free_kept(s: Store, t: Store, head: u64, free: Seq<u64>, touched: Set<u64>)
    requires
        s.is_free_from(head, free),
        s.frames(t, touched),
        forall|q: u64| #[trigger] members(free).contains(q) ==> !touched.contains(q),
    ensures
        t.is_free_from(head, free),
    decreases free.len(),
{
    if free.len() > 0 {
        assert(members(free).contains(free[0]));
        assert(s.same_page(t, head));
        assert forall|q: u64| #[trigger] members(free.skip(1)).contains(q) implies !touched.contains(
            q,
        ) by {
            assert(members(free).contains(q));
        }
        lemma_free_kept(s, t, s.header(head).value(), free.skip(1), touched);
    }
}

/// Walking a chain with enough fuel gives its contents.
pub proof fn lemma_chain_read(s: Store, pages: Seq<u64>, fuel: nat)
    requires
        s.is_chain(pages),
        fuel >= pages.len(),
    ensures
        s.chain_bytes(pages[0], fuel) == Ok::<Seq<u8>, Error>(s.contents(pages)),
    decreases pages.len(),
{
    if pages.len() > 1 {
        lemma_chain_read(s, pages.skip(1), (fuel - 1) as nat);
    }
}

/// A handle names at most one chain: two chains that start at the same page
/// are the same.
pub proof fn lemma_chain_unique(s: Store, a: Seq<u64>, b: Seq<u64>)
    requires
        s.is_chain(a),
        s.is_chain(b),
        a[0] == b[0],
    ensures
        a == b,
    decreases a.len(),
{
    if a.len() > 1 {
        lemma_chain_unique(s, a.skip(1), b.skip(1));
        assert forall|i: int| 0 <= i < a.len() implies a[i] == b[i] by {
            if i > 0 {
                assert(a.skip(1)[i - 1] == b.skip(1)[i - 1]);
            }
        }
    }
    assert(a =~= b);
}

/// A file has at most one free list from a given head.
pub proof fn lemma_free_unique(s: Store, head: u64, a: Seq<u64>, b: Seq<u64>)
    requires
        s.is_free_from(head, a),
        s.is_free_from(head, b),
    ensures
        a == b,
    decreases a.len(),
{
    if a.len() > 0 {
        lemma_free_unique(s, s.header(head).value(), a.skip(1), b.skip(1));
        assert forall|i: int| 0 <= i < a.len() implies a[i] == b[i] by {
            if i > 0 {
                assert(a.skip(1)[i - 1] == b.skip(1)[i - 1]);
            }
        }
    }
    assert(a =~= b);
}

/// A chain of `k` pages holds the whole payload of each page but the last,
/// and of the last as many bytes as its header counts.
pub proof fn lemma_contents_len(s: Store, pages: Seq<u64>)
    requires
        s.is_chain(pages),
    ensures
        s.contents(pages).len() == (pages.len() - 1) * s.page_size() + s.header(
            pages.last(),
        ).value(),
    decreases pages.len(),
{
    let size = s.page_size();
    if pages.len() > 1 {
        lemma_contents_len(s, pages.skip(1));
        assert(pages.skip(1).last() == pages.last());
        assert(size + (pages.len() - 2) * size == (pages.len() - 1) * size) by (nonlinear_arith);
    } else {
        assert((pages.len() - 1) * size == 0) by (nonlinear_arith)
            requires
                pages.len() == 1,
        ;
    }
}

/// In a whole file with a free list, allocating takes the head of the free
/// list, or grows the file where the list is empty; it fails only where the
/// list is empty and the file cannot grow. The page is left a chain of its
/// own, empty, and the rest of the free list stays.
pub proof fn lemma_allocated(s: Store, free: Seq<u64>)
    requires
        s.whole(),
        s.is_free_list(free),
    ensures
        match s.allocated() {
            Ok((t, h)) => {
                &&& t.whole()
                &&& t.is_chain(seq![h])
                &&& t.header(h) == PageHeader::FinalPage(0)
                &&& if free.len() == 0 {
                    &&& h == s.len()
                    &&& !s.is_page(h)
                    &&& t.len() == s.len() + s.stride()
                    &&& t.is_free_list(free)
                    &&& s.frames(t, Set::<u64>::empty())
                } else {
                    &&& h == free[0]
                    &&& t.len() == s.len()
                    &&& t.is_free_list(free.skip(1))
                    &&& s.frames(t, set![h])
                }
            },
            Err(e) => e == Error::IO(IoFailure::FileTooLarge) && free.len() == 0 && !s.can_grow(),
        },
{
    lemma_free_pages(s, s.free_head(), free);
    if free.len() == 0 {
        if s.can_grow() {
            let t = s.grown();
            let h = s.len() as u64;
            lemma_grown(s);
            let n = s.stride();
            let a = s.len() - s.header_size();
            assert(a % n == 0 && n > 0 ==> (a + n) % n == 0) by (nonlinear_arith);
            assert(seq![h].skip(1) =~= Seq::<u64>::empty());
            lemma_free_kept(s, t, s.free_head(), free, Set::<u64>::empty());
        }
    } else {
        let f = s.free_head();
        let next = s.header(f).value();
        assert(members(free).contains(f));
        let a = s.with_word(s.free_slot(), next);
        let t = a.with_header(f, PageHeader::FinalPage(0));
        lemma_with_free_head(s, next);
        lemma_with_header(a, f, PageHeader::FinalPage(0));
        lemma_frames_then(s, a, t, Set::<u64>::empty(), set![f], set![f]);
        assert(seq![f].skip(1) =~= Seq::<u64>::empty());
        lemma_free_pages(s, next, free.skip(1));
        lemma_free_kept(s, t, next, free.skip(1), set![f]);
    }
}

/// In a whole file with a free list, releasing a chain succeeds. It leaves
/// the pages of the chain stacked on the free list and touches nothing else.
pub proof fn lemma_released(s: Store, pages: Seq<u64>, free: Seq<u64>, fuel: nat)
    requires
        s.whole(),
        s.is_chain(pages),
        s.is_free_list(free),
        fuel >= pages.len(),
    ensures
        match s.released(pages[0], fuel) {
            Ok(t) => {
                &&& t.whole()
                &&& t.len() == s.len()
                &&& t.is_free_list(stacked(pages, free))
                &&& s.frames(t, members(pages))
            },
            Err(_) => false,
        },
    decreases pages.len(),
{
    let p = pages[0];
    let head = s.free_head();
    let more = seq![p] + free;
    lemma_chain_pages(s, pages);
    lemma_free_pages(s, head, free);
    assert(members(pages).contains(p));
    if free.len() > 0 {
        assert(members(free).contains(head));
    }
    let a = s.with_header(p, PageHeader::DeletedPage(head));
    let b = a.with_word(s.free_slot(), p);
    let c = b.with_payload(p, Seq::<u8>::empty());
    assert(c == s.pushed(p));
    lemma_with_header(s, p, PageHeader::DeletedPage(head));
    lemma_with_free_head(a, p);
    lemma_with_payload(b, p, Seq::<u8>::empty());
    assert(a.same_page(b, p));
    lemma_frames_then(s, a, b, set![p], Set::<u64>::empty(), set![p]);
    lemma_frames_then(s, b, c, set![p], set![p], set![p]);
    assert(more.skip(1) =~= free);
    lemma_free_kept(s, c, head, free, set![p]);
    assert(c.is_free_list(more));
    if pages.len() > 1 {
        lemma_chain_kept(s, c, pages.skip(1), set![p]);
        lemma_released(c, pages.skip(1), more, (fuel - 1) as nat);
        let t = c.released(pages[1], (fuel - 1) as nat).unwrap();
        lemma_frames_then(s, c, t, set![p], members(pages.skip(1)), members(pages));
    } else {
        assert(stacked(pages.skip(1), more) == more);
        assert(set![p] =~= members(pages));
    }
}

} // verus!
