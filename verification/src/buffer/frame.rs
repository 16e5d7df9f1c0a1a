use vstd::prelude::*;
use crate::types::{FrameId, PageIdRef};

verus! {

/// One slot of the buffer pool: a page's bytes and the pool's bookkeeping
/// for it.
pub struct Frame {
    pub frame_id: FrameId,
    pub page_id: PageIdRef,
    pub is_dirty: bool,
    pub pin_count: usize,
    pub data: Vec<u8>,
}

} // verus!
