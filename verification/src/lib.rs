//! Storage-engine core: fixed-size pages, the frames of a buffer pool, an
//! LRU-K replacement policy and the offset bookkeeping of a single-file disk
//! manager. Every function carries a contract that Verus proves.

pub mod buffer;
pub mod constants;
pub mod errors;
pub mod storage;
pub mod types;
