use vstd::prelude::*;

verus! {

/// Number of bytes in one page.
pub const PAGE_SIZE: usize = 4096;

/// Number of page slots reserved at the start of the backing file.
pub const DEFAULT_DB_PAGES: usize = 16;

} // verus!
