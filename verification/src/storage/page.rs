use vstd::prelude::*;
use crate::constants::PAGE_SIZE;

verus! {

/// A fixed-size buffer of raw bytes.
pub struct Page {
    data: [u8; PAGE_SIZE],
}

impl View for Page {
    type V = Seq<u8>;

    closed spec fn view(&self) -> Seq<u8> {
        self.data@
    }
}

impl Page {
    /// A page of `PAGE_SIZE` zero bytes.
    pub fn new() -> (page: Self)
        ensures
            page@.len() == PAGE_SIZE,
            forall|i: int| 0 <= i < PAGE_SIZE ==> page@[i] == 0u8,
    {
        Self { data: [0u8; PAGE_SIZE] }
    }

    /// Every page holds exactly `PAGE_SIZE` bytes.
    pub proof fn lemma_len(&self)
        ensures
            self@.len() == PAGE_SIZE,
    {
    }

    /// The page's bytes, read-only.
    pub fn as_slice(&self) -> (bytes: &[u8])
        ensures
            bytes@ == self@,
            bytes@.len() == PAGE_SIZE,
    {
        self.data.as_slice()
    }

    /// The page's bytes, writable in place: what the caller leaves in the
    /// slice is what the page holds afterwards.
    pub fn as_mut_slice(&mut self) -> (bytes: &mut [u8])
        ensures
            bytes@ == old(self)@,
            bytes@.len() == PAGE_SIZE,
            final(self)@ == final(bytes)@,
    {
        &mut self.data
    }
}

} // verus!
