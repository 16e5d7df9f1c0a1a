use vstd::prelude::*;

verus! {

/// Identity of a durable page.
pub type PageId = usize;

/// A page identity as callers hand it in; `None` is the invalid sentinel.
pub type PageIdRef = Option<PageId>;

/// Index of a frame in the buffer pool.
pub type FrameId = usize;

} // verus!
