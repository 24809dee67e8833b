//! The file as a mathematical value, and what each operation makes of it.
//!
//! A [`Store`] is the image of a file together with the options it was
//! opened with. The functions here say, for every image, what reading,
//! allocating, releasing and writing return and which image they leave.
//!
//! The format is read strictly. A page is visited only where it lies in the
//! file as a whole (else the file is truncated: an I/O failure) and starts
//! where a page can start (else the file is corrupt). A chain never has
//! more pages than the file, so a walk that would take more has met a cycle
//! and reports corruption. A final page that counts more bytes than a page
//! holds is corrupt, and so is a deleted page anywhere in a chain. The
//! reserved tag reads as deleted. Nothing is ever read or written beyond
//! the end of the file; the file grows by whole pages only.

use vstd::prelude::*;
use crate::codec::{PageHeader, VALUE_LIMIT};
use crate::config::Config;
use crate::error::{Error, IoFailure};
use crate::image::{filler, overlay, word_at, word_bytes};

verus! {

/// The image of a file and the options it is read with.
pub struct Store {
    pub config: Config,
    pub bytes: Seq<u8>,
}

impl Store {
    pub open spec fn len(self) -> int {
        self.bytes.len() as int
    }

    pub open spec fn page_size(self) -> int {
        self.config.page_size as int
    }

    pub open spec fn header_size(self) -> int {
        self.config.spec_header_size()
    }

    pub open spec fn stride(self) -> int {
        self.config.spec_stride()
    }

    /// Where the handle of the first free page is kept.
    pub open spec fn free_slot(self) -> int {
        self.config.magic_bytes@.len() as int
    }

    /// Where the handle of the root blob is kept.
    pub open spec fn root_slot(self) -> int {
        self.config.magic_bytes@.len() as int + 8
    }

    /// The number of whole pages in the file.
    pub open spec fn page_count(self) -> nat {
        if self.len() >= self.header_size() && self.stride() > 0 {
            ((self.len() - self.header_size()) / self.stride()) as nat
        } else {
            0
        }
    }

    /// The offset is one at which a page starts.
    pub open spec fn aligned(self, p: u64) -> bool {
        p >= self.header_size() && (p - self.header_size()) % self.stride() == 0
    }

    /// The offset is the start of a page that lies in the file as a whole.
    pub open spec fn is_page(self, p: u64) -> bool {
        self.aligned(p) && p + self.stride() <= self.len()
    }

    pub open spec fn word(self, at: int) -> u64 {
        word_at(self.bytes, at)
    }

    pub open spec fn free_head(self) -> u64 {
        self.word(self.free_slot())
    }

    pub open spec fn root(self) -> u64 {
        self.word(self.root_slot())
    }

    pub open spec fn header(self, p: u64) -> PageHeader {
        PageHeader::decode(self.word(p as int))
    }

    /// All the payload bytes of the page at `p`.
    pub open spec fn payload(self, p: u64) -> Seq<u8> {
        self.bytes.subrange(p + 8, p + self.stride())
    }

    pub open spec fn with_bytes(self, at: int, patch: Seq<u8>) -> Store {
        Store { config: self.config, bytes: overlay(self.bytes, at, patch) }
    }

    pub open spec fn with_word(self, at: int, word: u64) -> Store {
        self.with_bytes(at, word_bytes(word))
    }

    pub open spec fn with_header(self, p: u64, header: PageHeader) -> Store {
        self.with_word(p as int, header.encode())
    }

    /// The payload of the page at `p` set to `data`, and to filler after it.
    pub open spec fn with_payload(self, p: u64, data: Seq<u8>) -> Store {
        self.with_bytes(p + 8, data).with_bytes(
            p + 8 + data.len(),
            filler((self.page_size() - data.len()) as nat),
        )
    }

    /// The file with one more page at its end: an empty final page whose
    /// payload is filler.
    pub open spec fn grown(self) -> Store {
        Store {
            config: self.config,
            bytes: self.bytes + word_bytes(PageHeader::FinalPage(0).encode()) + filler(
                self.page_size() as nat,
            ),
        }
    }

    /// Why no page can be visited at `p`, if so: it does not lie in the
    /// file as a whole, or no page starts there.
    pub open spec fn page_fault(self, p: u64) -> Option<Error> {
        if p + self.stride() > self.len() {
            Some(Error::IO(IoFailure::UnexpectedEof))
        } else if !self.aligned(p) {
            Some(Error::CorruptedFile)
        } else {
            None
        }
    }

    /// Why `p` is refused as a handle, if it is.
    pub open spec fn handle_fault(self, p: u64) -> Option<Error> {
        if !self.aligned(p) || p >= self.len() {
            Some(Error::InvalidPointer)
        } else if p + self.stride() > self.len() {
            Some(Error::IO(IoFailure::UnexpectedEof))
        } else if self.header(p) is DeletedPage {
            Some(Error::DeletedPointer)
        } else {
            None
        }
    }

    /// The bytes of the chain that starts at `p`, found in at most `fuel`
    /// pages.
    pub open spec fn chain_bytes(self, p: u64, fuel: nat) -> Result<Seq<u8>, Error>
        decreases fuel,
    {
        if fuel == 0 {
            Err(Error::CorruptedFile)
        } else {
            match self.page_fault(p) {
                Some(e) => Err(e),
                None => match self.header(p) {
                    PageHeader::NextPage(next) => match self.chain_bytes(next, (fuel - 1) as nat) {
                        Ok(rest) => Ok(self.payload(p) + rest),
                        Err(e) => Err(e),
                    },
                    PageHeader::FinalPage(used) => if used <= self.page_size() {
                        Ok(self.payload(p).take(used as int))
                    } else {
                        Err(Error::CorruptedFile)
                    },
                    PageHeader::DeletedPage(_) => Err(Error::CorruptedFile),
                },
            }
        }
    }

    /// What reading the blob at handle `p` returns. A chain of more pages
    /// than the file holds is a cycle, and corrupt.
    pub open spec fn read(self, p: u64) -> Result<Seq<u8>, Error> {
        match self.handle_fault(p) {
            Some(e) => Err(e),
            None => self.chain_bytes(p, self.page_count()),
        }
    }

    pub open spec fn read_root(self) -> Result<Seq<u8>, Error> {
        if self.len() < self.header_size() {
            Err(Error::IO(IoFailure::UnexpectedEof))
        } else {
            self.read(self.root())
        }
    }

    /// Whether the file may grow by one page.
    pub open spec fn can_grow(self) -> bool {
        self.len() + self.stride() <= usize::MAX && self.len() + self.stride() <= VALUE_LIMIT
    }

    /// What allocating a page returns: the image it leaves and the handle
    /// of the page. The first free page is taken if there is one, else the
    /// file grows by a page. Either way the page is left an empty final page.
    pub open spec fn allocated(self) -> Result<(Store, u64), Error> {
        if self.len() < self.header_size() {
            Err(Error::IO(IoFailure::UnexpectedEof))
        } else if self.free_head() == 0 {
            if self.can_grow() {
                Ok((self.grown(), self.len() as u64))
            } else {
                Err(Error::IO(IoFailure::FileTooLarge))
            }
        } else {
            match self.page_fault(self.free_head()) {
                Some(e) => Err(e),
                None => match self.header(self.free_head()) {
                    PageHeader::DeletedPage(next) => Ok(
                        (
                            self.with_word(self.free_slot(), next).with_header(
                                self.free_head(),
                                PageHeader::FinalPage(0),
                            ),
                            self.free_head(),
                        ),
                    ),
                    _ => Err(Error::CorruptedFile),
                },
            }
        }
    }

    /// The page at `p` put at the head of the free list, its payload
    /// overwritten with filler.
    pub open spec fn pushed(self, p: u64) -> Store {
        self.with_header(p, PageHeader::DeletedPage(self.free_head())).with_word(
            self.free_slot(),
            p,
        ).with_payload(p, Seq::empty())
    }

    /// The image after the chain that starts at `p` was put on the free
    /// list, page by page from its first, in at most `fuel` pages.
    pub open spec fn released(self, p: u64, fuel: nat) -> Result<Store, Error>
        decreases fuel,
    {
        if fuel == 0 {
            Err(Error::CorruptedFile)
        } else {
            match self.page_fault(p) {
                Some(e) => Err(e),
                None => match self.header(p) {
                    PageHeader::NextPage(next) => self.pushed(p).released(next, (fuel - 1) as nat),
                    PageHeader::FinalPage(_) => Ok(self.pushed(p)),
                    PageHeader::DeletedPage(_) => Err(Error::CorruptedFile),
                },
            }
        }
    }

    /// What deleting the blob at handle `p` leaves.
    pub open spec fn deleted(self, p: u64) -> Result<Store, Error> {
        match self.handle_fault(p) {
            Some(e) => Err(e),
            None => self.released(p, self.page_count()),
        }
    }

    /// The page at `p` made the last of its chain, holding `data`.
    pub open spec fn closed_with(self, p: u64, data: Seq<u8>) -> Store {
        self.with_payload(p, data).with_header(p, PageHeader::FinalPage(data.len() as u64))
    }

    /// The image after `data` was written along the chain that starts at
    /// `p`: full pages first, new ones allocated where the chain ends early,
    /// then the last page, after which what is left of the old chain is
    /// released.
    pub open spec fn written(self, p: u64, data: Seq<u8>) -> Result<Store, Error>
        decreases data.len(),
    {
        let size = self.page_size();
        match self.page_fault(p) {
            Some(e) => Err(e),
            None => if size > 0 && data.len() > size {
                let filled = self.with_payload(p, data.take(size));
                match self.header(p) {
                    PageHeader::NextPage(next) => filled.written(next, data.skip(size)),
                    PageHeader::FinalPage(_) => match filled.allocated() {
                        Ok((more, fresh)) => more.with_header(
                            p,
                            PageHeader::NextPage(fresh),
                        ).written(fresh, data.skip(size)),
                        Err(e) => Err(e),
                    },
                    PageHeader::DeletedPage(_) => Err(Error::CorruptedFile),
                }
            } else {
                match self.header(p) {
                    PageHeader::NextPage(tail) => match self.released(tail, self.page_count()) {
                        Ok(freed) => Ok(freed.closed_with(p, data)),
                        Err(e) => Err(e),
                    },
                    PageHeader::FinalPage(_) => Ok(self.closed_with(p, data)),
                    PageHeader::DeletedPage(_) => Err(Error::CorruptedFile),
                }
            },
        }
    }

    /// What writing `data` to the blob at handle `p` leaves.
    pub open spec fn write(self, p: u64, data: Seq<u8>) -> Result<Store, Error> {
        match self.handle_fault(p) {
            Some(e) => Err(e),
            None => self.written(p, data),
        }
    }

    pub open spec fn write_root(self, data: Seq<u8>) -> Result<Store, Error> {
        if self.len() < self.header_size() {
            Err(Error::IO(IoFailure::UnexpectedEof))
        } else {
            self.write(self.root(), data)
        }
    }

    /// The options are valid and the file is no longer than a handle can
    /// address.
    pub open spec fn bounded(self) -> bool {
        self.config.valid() && self.len() <= VALUE_LIMIT
    }

    /// An operation on `self` that was to give `expected` returned `r` and
    /// left `left`: on success the expected image, on failure the expected
    /// error. A refused handle leaves the image as it was.
    pub open spec fn lands(self, expected: Result<Store, Error>, r: Result<(), Error>, left: Store) -> bool {
        &&& left.config == self.config
        &&& match expected {
            Ok(s) => r is Ok && left == s,
            Err(e) => r == Err::<(), Error>(e) && (e is InvalidPointer || e is DeletedPointer
                ==> left == self),
        }
    }

    /// An allocation on `self` returned `r` and left `left`, as
    /// [`Store::allocated`] says. A failed allocation leaves the image as it
    /// was.
    pub open spec fn alloc_lands(self, r: Result<u64, Error>, left: Store) -> bool {
        match self.allocated() {
            Ok((s, handle)) => r == Ok::<u64, Error>(handle) && left == s,
            Err(e) => r == Err::<u64, Error>(e) && left == self,
        }
    }

    /// The image of a file that was just created: the magic bytes, an empty
    /// free list, and the root blob, empty, in the one page.
    pub open spec fn fresh(config: Config) -> Store {
        Store {
            config,
            bytes: config.magic_bytes@ + word_bytes(0) + word_bytes(
                config.spec_header_size() as u64,
            ),
        }.grown()
    }

    /// The image starts with the configured magic bytes.
    pub open spec fn has_magic(self) -> bool {
        self.len() >= self.config.magic_bytes@.len() && self.bytes.take(
            self.config.magic_bytes@.len() as int,
        ) == self.config.magic_bytes@
    }

    /// What opening makes of an image that was found, or of none.
    pub open spec fn opened(found: Option<Seq<u8>>, config: Config) -> Result<Store, Error> {
        match found {
            None => Ok(Self::fresh(config)),
            Some(bytes) => {
                let store = Store { config, bytes };
                if !store.has_magic() {
                    Err(Error::InvalidFile)
                } else if bytes.len() > VALUE_LIMIT {
                    Err(Error::IO(IoFailure::FileTooLarge))
                } else {
                    Ok(store)
                }
            },
        }
    }
}

} // verus!
