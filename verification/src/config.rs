//! The options a file is opened with, and the layout that follows from them.

use vstd::prelude::*;
use vstd::string::*;
use vstd::utf8::is_ascii_chars;
use crate::codec::VALUE_LIMIT;

verus! {

/// The bytes of one 64-bit integer.
pub const BYTES_IN_U64: usize = 8;

/// The options a file is opened with. The same values must be given every
/// time a file is opened: the file does not record them.
#[derive(Clone, Copy, Debug)]
pub struct Config {
    /// The magic bytes at the start of the file.
    pub magic_bytes: &'static [u8],
    /// The number of bytes per page, excluding the page header.
    pub page_size: usize,
}

impl Config {
    /// The bytes before the first page: the magic bytes and two slots.
    pub open spec fn spec_header_size(&self) -> int {
        self.magic_bytes@.len() as int + 16
    }

    /// The bytes from one page's start to the next one's.
    pub open spec fn spec_stride(&self) -> int {
        self.page_size as int + 8
    }

    /// The magic bytes are not empty, a page holds at least one byte, and a
    /// file of the header and one page can be addressed.
    pub open spec fn valid(&self) -> bool {
        &&& self.magic_bytes@.len() > 0
        &&& self.page_size > 0
        &&& self.spec_header_size() + self.spec_stride() <= usize::MAX
        &&& self.spec_header_size() + self.spec_stride() <= VALUE_LIMIT
    }

    pub fn is_valid(&self) -> (ok: bool)
        ensures
            ok == self.valid(),
    {
        let m: usize = self.magic_bytes.len();
        let limit: u64 = VALUE_LIMIT;
        if m == 0 || self.page_size == 0 {
            return false;
        }
        if m > usize::MAX - 24 || self.page_size > usize::MAX - 24 - m {
            return false;
        }
        (m + 24 + self.page_size) as u64 <= limit
    }
}

impl Default for Config {
    fn default() -> (config: Config)
        ensures
            config.valid(),
            config.page_size == 120,
            config.magic_bytes@ == seq![86u8, 69u8, 82u8, 84u8, 69u8, 82u8, 95u8, 95u8],
    {
        let magic: &'static str = "VERTER__";
        proof {
            reveal_strlit("VERTER__");
            is_ascii_spec_bytes(magic);
            assert(is_ascii_chars(magic@));
            assert(magic.spec_bytes() =~= seq![86u8, 69u8, 82u8, 84u8, 69u8, 82u8, 95u8, 95u8]);
        }
        Config { magic_bytes: magic.as_bytes(), page_size: 120 }
    }
}

} // verus!
