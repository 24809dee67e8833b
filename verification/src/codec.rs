//! The eight-byte tagged page header.
//!
//! The top two bits of the word are the tag, the low 62 bits the value.

use vstd::prelude::*;

verus! {

/// Two to the power 62: the first value that no page header can carry.
pub const VALUE_LIMIT: u64 = 0x4000_0000_0000_0000;

/// The two bits of the tag.
pub const FLAG_MASK: u64 = 0xC000_0000_0000_0000;

pub const NEXT_PAGE_FLAG: u64 = 0;

pub const FINAL_PAGE_FLAG: u64 = 0x4000_0000_0000_0000;

pub const DELETED_PAGE_FLAG: u64 = 0x8000_0000_0000_0000;

/// What the header of a page says: how the page takes part in a chain or
/// in the free list.
#[derive(Debug, Clone, Copy, PartialEq, Eq, Structural)]
pub enum PageHeader {
    /// There is a next page; the value is its handle.
    NextPage(u64),
    /// This is the last page; the value is the number of payload bytes used.
    FinalPage(u64),
    /// This page is on the free list; the value is the handle of the next
    /// free page, or 0.
    DeletedPage(u64),
}

impl PageHeader {
    /// The tag as a number: 0, 1 or 2.
    pub open spec fn tag(self) -> int {
        match self {
            PageHeader::NextPage(_) => 0,
            PageHeader::FinalPage(_) => 1,
            PageHeader::DeletedPage(_) => 2,
        }
    }

    pub open spec fn value(self) -> u64 {
        match self {
            PageHeader::NextPage(v) => v,
            PageHeader::FinalPage(v) => v,
            PageHeader::DeletedPage(v) => v,
        }
    }

    /// The value fits in the 62 bits that the word leaves for it.
    pub open spec fn fits(self) -> bool {
        self.value() < VALUE_LIMIT
    }

    /// The word that stands for this header: the tag in the top two bits,
    /// the value, cut to 62 bits, below.
    pub open spec fn encode(self) -> u64 {
        (self.tag() * VALUE_LIMIT + self.value() % VALUE_LIMIT) as u64
    }

    /// The header that a word stands for. The reserved tag 3 reads as
    /// deleted.
    pub open spec fn decode(word: u64) -> PageHeader {
        let value = word % VALUE_LIMIT;
        let tag = word / VALUE_LIMIT;
        if tag == 0 {
            PageHeader::NextPage(value)
        } else if tag == 1 {
            PageHeader::FinalPage(value)
        } else {
            PageHeader::DeletedPage(value)
        }
    }

    /// The word that is stored for this header. It never carries the
    /// reserved tag 3.
    pub fn to_u64(self) -> (word: u64)
        ensures
            word == self.encode(),
            word / VALUE_LIMIT == self.tag(),
    {
        match self {
            PageHeader::NextPage(next) => {
                assert(NEXT_PAGE_FLAG | (next & !FLAG_MASK) == next % VALUE_LIMIT) by (bit_vector);
                NEXT_PAGE_FLAG | (next & !FLAG_MASK)
            },
            PageHeader::FinalPage(size) => {
                assert(FINAL_PAGE_FLAG | (size & !FLAG_MASK) == VALUE_LIMIT + size % VALUE_LIMIT)
                    by (bit_vector);
                FINAL_PAGE_FLAG | (size & !FLAG_MASK)
            },
            PageHeader::DeletedPage(next) => {
                assert(DELETED_PAGE_FLAG | (next & !FLAG_MASK) == 2 * VALUE_LIMIT + next
                    % VALUE_LIMIT) by (bit_vector);
                DELETED_PAGE_FLAG | (next & !FLAG_MASK)
            },
        }
    }

    /// The header that a stored word stands for.
    pub fn from_u64(val: u64) -> (header: PageHeader)
        ensures
            header == Self::decode(val),
            header.fits(),
    {
        let subval: u64 = val & !FLAG_MASK;
        let flag: u64 = val & FLAG_MASK;
        assert(val & !FLAG_MASK == val % VALUE_LIMIT) by (bit_vector);
        assert(val & FLAG_MASK == (val / VALUE_LIMIT) * VALUE_LIMIT) by (bit_vector);
        if flag == NEXT_PAGE_FLAG {
            PageHeader::NextPage(subval)
        } else if flag == FINAL_PAGE_FLAG {
            PageHeader::FinalPage(subval)
        } else {
            PageHeader::DeletedPage(subval)
        }
    }

    /// Decoding an encoded header gives the header back, as long as its
    /// value fits in 62 bits.
    pub proof fn lemma_decode_encode(self)
        requires
            self.fits(),
        ensures
            Self::decode(self.encode()) == self,
    {
    }

    /// Encoding a decoded word gives the word back, unless the word carries
    /// the reserved tag 3, which no encoding produces.
    pub proof fn lemma_encode_decode(word: u64)
        ensures
            word / VALUE_LIMIT != 3 ==> Self::decode(word).encode() == word,
            Self::decode(word).fits(),
            forall|h: PageHeader| h.encode() / VALUE_LIMIT != 3,
    {
    }
}

} // verus!
