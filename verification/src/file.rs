//! The store itself: the image of a file in memory and the operations on it.

use vstd::prelude::*;
use vstd::bytes::*;
use vstd::slice::*;
use crate::bytes::{append, append_filler, append_range, patch, patch_filler, starts_with};
use crate::codec::{PageHeader, VALUE_LIMIT};
use crate::config::{Config, BYTES_IN_U64};
use crate::error::{Error, IoFailure};
use crate::laws::{
    law_allocate, law_delete, law_deleted_handle, law_fresh_is_sound, law_write, lemma_read_chain,
};
use crate::image::{lemma_word_at_apart, lemma_word_bytes_len, word_bytes};
use crate::store::Store;

verus! {

/// A store of blobs in the image of one file.
///
/// The image is held in memory. [`File::open`] takes the bytes of a file
/// that exists, or `None` to create one; [`File::as_bytes`] and
/// [`File::into_bytes`] give the image back to be kept. Its view is the
/// [`Store`] that the operations are stated over.
#[derive(Debug)]
pub struct File {
    bytes: Vec<u8>,
    config: Config,
}

impl View for File {
    type V = Store;

    closed spec fn view(&self) -> Store {
        Store { config: self.config, bytes: self.bytes@ }
    }
}

/// A result of reading, with the bytes as a sequence.
pub open spec fn seen(r: Result<Vec<u8>, Error>) -> Result<Seq<u8>, Error> {
    match r {
        Ok(data) => Ok(data@),
        Err(e) => Err(e),
    }
}

/// A result of opening, with the file as its image.
pub open spec fn opened_as(r: Result<File, Error>) -> Result<Store, Error> {
    match r {
        Ok(file) => Ok(file@),
        Err(e) => Err(e),
    }
}

/// The bytes that were found, if any, as a sequence.
pub open spec fn found_as(found: Option<Vec<u8>>) -> Option<Seq<u8>> {
    match found {
        Some(bytes) => Some(bytes@),
        None => None,
    }
}

/// `rest` with `prefix` put before its bytes.
pub open spec fn joined(prefix: Seq<u8>, rest: Result<Seq<u8>, Error>) -> Result<Seq<u8>, Error> {
    match rest {
        Ok(bytes) => Ok(prefix + bytes),
        Err(e) => Err(e),
    }
}

impl File {
    /// The options are valid and the file is no longer than a handle can
    /// address. Opening establishes this and every operation keeps it.
    pub open spec fn wf(&self) -> bool {
        self@.bounded()
    }

    /// Opens the image of a file: the bytes that were found, or `None` where
    /// there is no file yet, which creates one. An image that does not start
    /// with the configured magic bytes is refused.
    pub fn open(existing: Option<Vec<u8>>, config: Config) -> (r: Result<File, Error>)
        requires
            config.valid(),
        ensures
            opened_as(r) == Store::opened(found_as(existing), config),
            r is Ok ==> r.unwrap().wf(),
            existing is None ==> r is Ok && r.unwrap()@.sound() && r.unwrap()@.is_blob(
                r.unwrap()@.root(),
            ),
    {
        proof {
            law_fresh_is_sound(config);
        }
        match existing {
            None => {
                let mut file = File { bytes: Vec::new(), config };
                match file.create_header() {
                    Ok(()) => Ok(file),
                    Err(e) => Err(e),
                }
            },
            Some(bytes) => {
                match Self::check_if_file_valid(&bytes, &config) {
                    Ok(()) => Ok(File { bytes, config }),
                    Err(e) => Err(e),
                }
            },
        }
    }

    /// The image as it stands, to be kept.
    pub fn into_bytes(self) -> (bytes: Vec<u8>)
        requires
            self.wf(),
        ensures
            bytes@ == self@.bytes,
    {
        self.bytes
    }

    pub fn as_bytes(&self) -> (bytes: &[u8])
        requires
            self.wf(),
        ensures
            bytes@ == self@.bytes,
    {
        self.bytes.as_slice()
    }

    pub fn config(&self) -> (config: Config)
        requires
            self.wf(),
        ensures
            config == self@.config,
    {
        self.config
    }

    /// Read the data from a page chain.
    #[verifier::loop_isolation(false)]
    pub fn read(&self, ptr: u64) -> (r: Result<Vec<u8>, Error>)
        requires
            self.wf(),
        ensures
            seen(r) == self@.read(ptr),
            self@.is_blob(ptr) ==> r is Ok,
    {
        proof {
            if self@.is_blob(ptr) {
                lemma_read_chain(self@, self@.chain_of(ptr));
            }
        }
        match self.check_if_pointer_valid(ptr) {
            Ok(()) => {},
            Err(e) => {
                return Err(e);
            },
        }
        let size: usize = self.config.page_size;
        let mut data: Vec<u8> = Vec::new();
        let mut p: u64 = ptr;
        let mut fuel: u64 = self.page_count();
        proof {
            if let Ok(all) = self@.chain_bytes(p, fuel as nat) {
                assert(data@ + all =~= all);
            }
        }
        loop
            invariant
                self.wf(),
                size == self.config.page_size,
                joined(data@, self@.chain_bytes(p, fuel as nat)) == self@.read(ptr),
            decreases fuel,
        {
            if fuel == 0 {
                return Err(Error::CorruptedFile);
            }
            match self.page_fault(p) {
                Some(e) => {
                    return Err(e);
                },
                None => {},
            }
            let header = match self.read_page_header(p) {
                Ok(header) => header,
                Err(e) => {
                    return Err(e);
                },
            };
            let from: usize = p as usize + BYTES_IN_U64;
            let ghost before = data@;
            match header {
                PageHeader::NextPage(next) => {
                    append_range(&mut data, self.bytes.as_slice(), from, from + size);
                    proof {
                        let rest = self@.chain_bytes(next, (fuel - 1) as nat);
                        if rest is Ok {
                            assert((before + self@.payload(p)) + rest.unwrap() =~= before + (
                            self@.payload(p) + rest.unwrap()));
                        }
                    }
                    p = next;
                    fuel = fuel - 1;
                },
                PageHeader::FinalPage(used) => {
                    if used > size as u64 {
                        return Err(Error::CorruptedFile);
                    }
                    append_range(&mut data, self.bytes.as_slice(), from, from + used as usize);
                    assert(self@.payload(p).take(used as int) =~= self@.bytes.subrange(
                        from as int,
                        from + used,
                    ));
                    return Ok(data);
                },
                PageHeader::DeletedPage(_) => {
                    return Err(Error::CorruptedFile);
                },
            }
        }
    }

    /// Read the root page chain.
    pub fn read_root(&self) -> (r: Result<Vec<u8>, Error>)
        requires
            self.wf(),
        ensures
            seen(r) == self@.read_root(),
            self@.whole() && self@.is_blob(self@.root()) ==> r is Ok,
    {
        let root_page: u64 = match self.root_page() {
            Ok(p) => p,
            Err(e) => {
                return Err(e);
            },
        };
        self.read(root_page)
    }

    /// Write data to a page chain.
    #[verifier::loop_isolation(false)]
    pub fn write(&mut self, ptr: u64, data: &[u8]) -> (r: Result<(), Error>)
        requires
            old(self).wf(),
        ensures
            old(self)@.lands(old(self)@.write(ptr, data@), r, final(self)@),
            final(self).wf(),
            old(self)@.sound() && old(self)@.is_blob(ptr) ==> {
                &&& r is Ok ==> final(self)@.sound() && final(self)@.is_blob(ptr)
                    && final(self)@.read(ptr) == Ok::<Seq<u8>, Error>(data@)
                &&& r is Err ==> r == Err::<(), Error>(Error::IO(IoFailure::FileTooLarge))
            },
    {
        proof {
            if self@.sound() && self@.is_blob(ptr) {
                law_write(self@, ptr, data@);
            }
        }
        match self.check_if_pointer_valid(ptr) {
            Ok(()) => {},
            Err(e) => {
                return Err(e);
            },
        }
        let size: usize = self.config.page_size;
        let total: usize = data.len();
        let mut p: u64 = ptr;
        let mut start: usize = 0;
        assert(data@.skip(0) =~= data@);
        while total - start > size
            invariant
                self.wf(),
                size == self.config.page_size,
                total == data@.len(),
                start <= total,
                self@.config == old(self)@.config,
                self@.written(p, data@.skip(start as int)) == old(self)@.write(ptr, data@),
            decreases total - start,
        {
            match self.page_fault(p) {
                Some(e) => {
                    return Err(e);
                },
                None => {},
            }
            let ghost before = self@;
            let ghost rest = data@.skip(start as int);
            patch(
                &mut self.bytes,
                p as usize + BYTES_IN_U64,
                slice_subrange(data, start, start + size),
            );
            proof {
                assert(rest.take(size as int) =~= data@.subrange(start as int, start + size));
                assert(rest.skip(size as int) =~= data@.skip(start + size));
                assert(self@.bytes =~= before.with_payload(p, rest.take(size as int)).bytes);
                lemma_word_at_apart(
                    before.bytes,
                    p + 8,
                    rest.take(size as int),
                    p as int,
                );
            }
            let header = match self.read_page_header(p) {
                Ok(header) => header,
                Err(e) => {
                    return Err(e);
                },
            };
            p =
            match header {
                PageHeader::NextPage(next) => next,
                PageHeader::FinalPage(_) => {
                    let new_page: u64 = match self.allocate() {
                        Ok(page) => page,
                        Err(e) => {
                            return Err(e);
                        },
                    };
                    match self.write_page_header(p, PageHeader::NextPage(new_page)) {
                        Ok(()) => {},
                        Err(e) => {
                            return Err(e);
                        },
                    }
                    new_page
                },
                PageHeader::DeletedPage(_) => {
                    return Err(Error::CorruptedFile);
                },
            };
            start = start + size;
        }
        match self.page_fault(p) {
            Some(e) => {
                return Err(e);
            },
            None => {},
        }
        let final_page_header = match self.read_page_header(p) {
            Ok(header) => header,
            Err(e) => {
                return Err(e);
            },
        };
        match final_page_header {
            PageHeader::NextPage(truncated_pages) => {
                // The pages after this one are no longer needed.
                match self.release(truncated_pages) {
                    Ok(()) => {},
                    Err(e) => {
                        return Err(e);
                    },
                }
            },
            PageHeader::FinalPage(_) => {},
            PageHeader::DeletedPage(_) => {
                return Err(Error::CorruptedFile);
            },
        }
        let ghost freed = self@;
        let left: usize = total - start;
        let at: usize = p as usize + BYTES_IN_U64;
        patch(&mut self.bytes, at, slice_subrange(data, start, total));
        // Clear the remainder of the page.
        patch_filler(&mut self.bytes, at + left, size - left);
        proof {
            assert(data@.skip(start as int) =~= data@.subrange(start as int, total as int));
            assert(self@ == freed.with_payload(p, data@.skip(start as int)));
        }
        match self.write_page_header(p, PageHeader::FinalPage(left as u64)) {
            Ok(()) => {},
            Err(e) => {
                return Err(e);
            },
        }
        Ok(())
    }

    /// Write to the root page chain.
    pub fn write_root(&mut self, data: &[u8]) -> (r: Result<(), Error>)
        requires
            old(self).wf(),
        ensures
            old(self)@.lands(old(self)@.write_root(data@), r, final(self)@),
            final(self).wf(),
            old(self)@.sound() && old(self)@.is_blob(old(self)@.root()) ==> {
                &&& r is Ok ==> final(self)@.sound() && final(self)@.is_blob(final(self)@.root())
                    && final(self)@.read_root() == Ok::<Seq<u8>, Error>(data@)
                &&& r is Err ==> r == Err::<(), Error>(Error::IO(IoFailure::FileTooLarge))
            },
    {
        proof {
            if self@.sound() && self@.is_blob(self@.root()) {
                law_write(self@, self@.root(), data@);
            }
        }
        let root_page: u64 = match self.root_page() {
            Ok(p) => p,
            Err(e) => {
                return Err(e);
            },
        };
        self.write(root_page, data)
    }

    /// Allocate a new page.
    /// Either takes the first page in the free list or creates a new page at
    /// the end of the file. The page is left with the header of an empty
    /// final page.
    pub fn allocate(&mut self) -> (r: Result<u64, Error>)
        requires
            old(self).wf(),
        ensures
            old(self)@.alloc_lands(r, final(self)@),
            final(self).wf(),
            old(self)@.sound() ==> {
                &&& final(self)@.sound()
                &&& r is Ok ==> final(self)@.is_blob(r.unwrap()) && final(self)@.read(r.unwrap())
                    == Ok::<Seq<u8>, Error>(Seq::<u8>::empty())
                &&& r is Err ==> r == Err::<u64, Error>(Error::IO(IoFailure::FileTooLarge))
            },
    {
        proof {
            if self@.sound() {
                law_allocate(self@);
            }
        }
        let free_page: u64 = match self.first_free_page() {
            Ok(p) => p,
            Err(e) => {
                return Err(e);
            },
        };
        let page: u64 = if free_page == 0 {
            // Create a new page at the end of the file.
            let len: usize = self.bytes.len();
            let stride: usize = self.config.page_size + BYTES_IN_U64;
            if stride > usize::MAX - len || (len + stride) as u64 > VALUE_LIMIT {
                return Err(Error::IO(IoFailure::FileTooLarge));
            }
            append_filler(&mut self.bytes, stride);
            len as u64
        } else {
            // Take the free page out of the list.
            match self.page_fault(free_page) {
                Some(e) => {
                    return Err(e);
                },
                None => {},
            }
            let new_free_page = match self.read_page_header(free_page) {
                Ok(header) => header,
                Err(e) => {
                    return Err(e);
                },
            };
            match new_free_page {
                PageHeader::DeletedPage(next) => {
                    match self.write_u64(self.first_free_page_ptr(), next) {
                        Ok(()) => {},
                        Err(e) => {
                            return Err(e);
                        },
                    }
                },
                _ => {
                    return Err(Error::CorruptedFile);
                },
            }
            free_page
        };
        let ghost before = self@;
        match self.write_page_header(page, PageHeader::FinalPage(0)) {
            Ok(()) => {},
            Err(e) => {
                return Err(e);
            },
        }
        proof {
            if free_page == 0 {
                lemma_word_bytes_len(PageHeader::FinalPage(0).encode());
                assert(self@.bytes =~= old(self)@.grown().bytes);
            }
        }
        Ok(page)
    }

    /// Delete a page chain.
    /// The pages go on the free list; the file never shrinks.
    pub fn delete(&mut self, ptr: u64) -> (r: Result<(), Error>)
        requires
            old(self).wf(),
        ensures
            old(self)@.lands(old(self)@.deleted(ptr), r, final(self)@),
            final(self).wf(),
            old(self)@.sound() && old(self)@.is_blob(ptr) ==> r is Ok && final(self)@.sound(),
            r is Ok ==> final(self)@.read(ptr) == Err::<Seq<u8>, Error>(Error::DeletedPointer),
    {
        proof {
            if self@.sound() && self@.is_blob(ptr) {
                law_delete(self@, ptr);
            }
            if self@.deleted(ptr) is Ok {
                law_deleted_handle(self@, ptr, Seq::<u8>::empty());
            }
        }
        match self.check_if_pointer_valid(ptr) {
            Ok(()) => {},
            Err(e) => {
                return Err(e);
            },
        }
        self.release(ptr)
    }

    /// Puts the chain that starts at `ptr` on the free list, page by page.
    fn release(&mut self, ptr: u64) -> (r: Result<(), Error>)
        requires
            old(self).wf(),
        ensures
            old(self)@.lands(
                old(self)@.released(ptr, old(self)@.page_count()),
                r,
                final(self)@,
            ),
            r is Err ==> !(r.unwrap_err() is InvalidPointer) && !(r.unwrap_err() is DeletedPointer),
            final(self)@.len() == old(self)@.len(),
            final(self).wf(),
    {
        let size: usize = self.config.page_size;
        let mut p: u64 = ptr;
        let mut fuel: u64 = self.page_count();
        loop
            invariant
                self.wf(),
                size == self.config.page_size,
                self@.config == old(self)@.config,
                self@.len() == old(self)@.len(),
                self@.released(p, fuel as nat) == old(self)@.released(
                    ptr,
                    old(self)@.page_count(),
                ),
            decreases fuel,
        {
            if fuel == 0 {
                return Err(Error::CorruptedFile);
            }
            match self.page_fault(p) {
                Some(e) => {
                    return Err(e);
                },
                None => {},
            }
            let ghost before = self@;
            let header = match self.read_page_header(p) {
                Ok(header) => header,
                Err(e) => {
                    return Err(e);
                },
            };
            let free_pages: u64 = match self.first_free_page() {
                Ok(page) => page,
                Err(e) => {
                    return Err(e);
                },
            };
            match self.write_page_header(p, PageHeader::DeletedPage(free_pages)) {
                Ok(()) => {},
                Err(e) => {
                    return Err(e);
                },
            }
            match self.write_u64(self.first_free_page_ptr(), p) {
                Ok(()) => {},
                Err(e) => {
                    return Err(e);
                },
            }
            // Write filler over the released page.
            patch_filler(&mut self.bytes, p as usize + BYTES_IN_U64, size);
            proof {
                assert(self@.bytes =~= before.pushed(p).bytes);
            }
            match header {
                PageHeader::NextPage(next) => {
                    p = next;
                    fuel = fuel - 1;
                },
                PageHeader::FinalPage(_) => {
                    return Ok(());
                },
                PageHeader::DeletedPage(_) => {
                    return Err(Error::CorruptedFile);
                },
            }
        }
    }

    fn read_u64(&self, ptr: u64) -> (r: Result<u64, Error>)
        requires
            self.wf(),
        ensures
            r == if ptr + 8 <= self@.len() {
                Ok::<u64, Error>(self@.word(ptr as int))
            } else {
                Err::<u64, Error>(Error::IO(IoFailure::UnexpectedEof))
            },
    {
        let len: u64 = self.bytes.len() as u64;
        if ptr > len || len - ptr < 8 {
            return Err(Error::IO(IoFailure::UnexpectedEof));
        }
        let at: usize = ptr as usize;
        let bytes = slice_subrange(self.bytes.as_slice(), at, at + BYTES_IN_U64);
        Ok(u64_from_le_bytes(bytes))
    }

    fn read_page_header(&self, ptr: u64) -> (r: Result<PageHeader, Error>)
        requires
            self.wf(),
        ensures
            r == if ptr + 8 <= self@.len() {
                Ok::<PageHeader, Error>(self@.header(ptr))
            } else {
                Err::<PageHeader, Error>(Error::IO(IoFailure::UnexpectedEof))
            },
    {
        match self.read_u64(ptr) {
            Ok(word) => Ok(PageHeader::from_u64(word)),
            Err(e) => Err(e),
        }
    }

    fn write_u64(&mut self, ptr: u64, val: u64) -> (r: Result<(), Error>)
        requires
            old(self).wf(),
        ensures
            ptr + 8 <= old(self)@.len() ==> r is Ok && final(self)@ == old(self)@.with_word(
                ptr as int,
                val,
            ),
            ptr + 8 > old(self)@.len() ==> r == Err::<(), Error>(
                Error::IO(IoFailure::UnexpectedEof),
            ) && final(self)@ == old(self)@,
            final(self).wf(),
    {
        let len: u64 = self.bytes.len() as u64;
        if ptr > len || len - ptr < 8 {
            return Err(Error::IO(IoFailure::UnexpectedEof));
        }
        let word = u64_to_le_bytes(val);
        patch(&mut self.bytes, ptr as usize, word.as_slice());
        Ok(())
    }

    fn write_page_header(&mut self, ptr: u64, header: PageHeader) -> (r: Result<(), Error>)
        requires
            old(self).wf(),
        ensures
            ptr + 8 <= old(self)@.len() ==> r is Ok && final(self)@ == old(self)@.with_header(
                ptr,
                header,
            ),
            ptr + 8 > old(self)@.len() ==> r == Err::<(), Error>(
                Error::IO(IoFailure::UnexpectedEof),
            ) && final(self)@ == old(self)@,
            final(self).wf(),
    {
        self.write_u64(ptr, header.to_u64())
    }

    fn magic_bytes_ptr(&self) -> (p: u64)
        requires
            self.wf(),
        ensures
            p == 0,
    {
        0
    }

    fn first_free_page_ptr(&self) -> (p: u64)
        requires
            self.wf(),
        ensures
            p == self@.free_slot(),
    {
        self.magic_bytes_ptr() + self.config.magic_bytes.len() as u64
    }

    /// The number of bytes before the first page.
    pub fn header_size(&self) -> (n: u64)
        requires
            self.wf(),
        ensures
            n == self@.header_size(),
    {
        self.config.magic_bytes.len() as u64 + 2 * (BYTES_IN_U64 as u64)
    }

    /// The number of bytes from the start of one page to the next.
    pub fn total_page_size(&self) -> (n: u64)
        requires
            self.wf(),
        ensures
            n == self@.stride(),
    {
        BYTES_IN_U64 as u64 + self.config.page_size as u64
    }

    fn root_page_ptr(&self) -> (p: u64)
        requires
            self.wf(),
        ensures
            p == self@.root_slot(),
    {
        self.first_free_page_ptr() + BYTES_IN_U64 as u64
    }

    fn first_free_page(&self) -> (r: Result<u64, Error>)
        requires
            self.wf(),
        ensures
            r == if self@.len() >= self@.header_size() {
                Ok::<u64, Error>(self@.free_head())
            } else {
                Err::<u64, Error>(Error::IO(IoFailure::UnexpectedEof))
            },
    {
        if self.file_size() < self.header_size() {
            return Err(Error::IO(IoFailure::UnexpectedEof));
        }
        self.read_u64(self.first_free_page_ptr())
    }

    fn root_page(&self) -> (r: Result<u64, Error>)
        requires
            self.wf(),
        ensures
            r == if self@.len() >= self@.header_size() {
                Ok::<u64, Error>(self@.root())
            } else {
                Err::<u64, Error>(Error::IO(IoFailure::UnexpectedEof))
            },
    {
        if self.file_size() < self.header_size() {
            return Err(Error::IO(IoFailure::UnexpectedEof));
        }
        self.read_u64(self.root_page_ptr())
    }

    /// The length of the file in bytes.
    pub fn file_size(&self) -> (n: u64)
        requires
            self.wf(),
        ensures
            n == self@.len(),
            n <= usize::MAX,
    {
        self.bytes.len() as u64
    }

    /// The number of whole pages in the file.
    fn page_count(&self) -> (n: u64)
        requires
            self.wf(),
        ensures
            n == self@.page_count(),
    {
        let len: u64 = self.file_size();
        let header: u64 = self.header_size();
        if len < header {
            0
        } else {
            (len - header) / self.total_page_size()
        }
    }

    fn create_header(&mut self) -> (r: Result<(), Error>)
        requires
            old(self).wf(),
            old(self)@.len() == 0,
        ensures
            r is Ok,
            final(self)@ == Store::fresh(old(self)@.config),
            final(self).wf(),
    {
        proof {
            lemma_word_bytes_len(0);
            lemma_auto_spec_u64_to_from_le_bytes();
        }
        // Magic bytes
        append(&mut self.bytes, self.config.magic_bytes);
        // First free page, and root page
        let zero = u64_to_le_bytes(0);
        append(&mut self.bytes, zero.as_slice());
        append(&mut self.bytes, zero.as_slice());
        let ghost blank = self@;
        proof {
            assert(blank.bytes.subrange(blank.free_slot(), blank.free_slot() + 8) =~= word_bytes(
                0,
            ));
        }
        // Initialize the root page chain
        let first_root_page: u64 = match self.allocate() {
            Ok(page) => page,
            Err(e) => {
                return Err(e);
            },
        };
        match self.write_u64(self.root_page_ptr(), first_root_page) {
            Ok(()) => {},
            Err(e) => {
                return Err(e);
            },
        }
        proof {
            lemma_word_bytes_len(first_root_page);
            lemma_word_bytes_len(PageHeader::FinalPage(0).encode());
            assert(self@.bytes =~= Store::fresh(old(self)@.config).bytes);
        }
        Ok(())
    }

    fn check_if_file_valid(bytes: &Vec<u8>, config: &Config) -> (r: Result<(), Error>)
        ensures
            r == match Store::opened(Some(bytes@), *config) {
                Ok(_) => Ok::<(), Error>(()),
                Err(e) => Err::<(), Error>(e),
            },
    {
        if !starts_with(bytes.as_slice(), config.magic_bytes) {
            return Err(Error::InvalidFile);
        }
        if bytes.len() as u64 > VALUE_LIMIT {
            return Err(Error::IO(IoFailure::FileTooLarge));
        }
        Ok(())
    }

    /// Why no page can be visited at `p`, if so.
    fn page_fault(&self, p: u64) -> (fault: Option<Error>)
        requires
            self.wf(),
        ensures
            fault == self@.page_fault(p),
            fault is None ==> p + self@.stride() <= usize::MAX,
    {
        let len: u64 = self.file_size();
        let stride: u64 = self.total_page_size();
        let header: u64 = self.header_size();
        if p > len || len - p < stride {
            return Some(Error::IO(IoFailure::UnexpectedEof));
        }
        if p < header || (p - header) % stride != 0 {
            return Some(Error::CorruptedFile);
        }
        None
    }

    fn check_if_pointer_valid(&self, ptr: u64) -> (r: Result<(), Error>)
        requires
            self.wf(),
        ensures
            r == match self@.handle_fault(ptr) {
                Some(e) => Err::<(), Error>(e),
                None => Ok::<(), Error>(()),
            },
            r is Ok ==> ptr + self@.stride() <= usize::MAX,
    {
        let header: u64 = self.header_size();
        let stride: u64 = self.total_page_size();
        let len: u64 = self.file_size();
        if ptr < header || (ptr - header) % stride != 0 {
            return Err(Error::InvalidPointer);
        }
        if ptr >= len {
            return Err(Error::InvalidPointer);
        }
        if len - ptr < stride {
            return Err(Error::IO(IoFailure::UnexpectedEof));
        }
        match self.read_page_header(ptr) {
            Ok(PageHeader::DeletedPage(_)) => Err(Error::DeletedPointer),
            Ok(_) => Ok(()),
            Err(e) => Err(e),
        }
    }
}

} // verus!
