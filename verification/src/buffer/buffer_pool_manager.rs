use std::collections::HashMap;
use vstd::prelude::*;
use vstd::slice::slice_to_vec;
use crate::buffer::frame::Frame;
use crate::buffer::replacer::replacer::Replacer;
use crate::constants::PAGE_SIZE;
use crate::errors::DiskError;
use crate::storage::page::Page;
use crate::types::{FrameId, PageId, PageIdRef};

verus! {

broadcast use vstd::std_specs::hash::group_hash_axioms;

/// What the caller of `fetch_page` has to do next.
#[derive(Debug, Clone, Copy, PartialEq, Eq)]
pub enum PoolStep {
    /// The page is resident and pinned in this frame.
    Ready(FrameId),
    /// The page is not resident and a frame is free: read the page from
    /// disk and hand its bytes to `install_page`.
    Load,
    /// The page is not resident and the only frame to be had holds a dirty
    /// page: write that frame's bytes to disk for that page, drop the page
    /// with `delete_page`, and ask again.
    WriteBack(FrameId, PageId),
}

/// What the caller of `new_page` has got, or has to do first.
#[derive(Debug, Clone, Copy, PartialEq, Eq)]
pub enum NewPage {
    /// A zeroed page with this id is resident and pinned in this frame.
    Created(PageId, FrameId),
    /// As `PoolStep::WriteBack`.
    WriteBack(FrameId, PageId),
}

/// The buffer pool: the frames, which of them are free, which page is
/// resident where, and the policy that picks the frame to reclaim.
pub struct BufferBoolManager<R: Replacer> {
    pub frames: Vec<Frame>,
    pub free_list: Vec<FrameId>,
    pub page_table: HashMap<PageId, FrameId>,
    pub replacer: R,
    pub next_page_id: PageId,
}

/// A buffer of `PAGE_SIZE` zero bytes.
fn zeroed() -> (data: Vec<u8>)
    ensures
        data@.len() == PAGE_SIZE,
        forall|i: int| 0 <= i < PAGE_SIZE ==> data@[i] == 0u8,
{
    let mut data: Vec<u8> = Vec::new();
    while data.len() < PAGE_SIZE
        invariant
            data@.len() <= PAGE_SIZE,
            forall|i: int| 0 <= i < data@.len() ==> data@[i] == 0u8,
        decreases PAGE_SIZE - data@.len(),
    {
        data.push(0u8);
    }
    data
}

impl<R: Replacer> BufferBoolManager<R> {
    /// Whether frame `f` is on the free list.
    pub open spec fn is_free(&self, f: FrameId) -> bool {
        exists|j: int| 0 <= j < self.free_list@.len() && self.free_list@[j] == f
    }

    /// Every frame is pinned.
    pub open spec fn all_pinned(&self) -> bool {
        forall|i: int| 0 <= i < self.frames@.len() ==> (#[trigger] self.frames@[i]).pin_count > 0
    }

    /// The pool's invariant: every frame holds `PAGE_SIZE` bytes; a frame is
    /// on the free list or resident, never both; the page table and the frames agree on which page is where;
    /// free frames are unpinned and clean; every resident page id has been
    /// handed out; the policy knows only frames of this pool, and every
    /// pinned frame is non-evictable to it.
    pub open spec fn wf(&self) -> bool {
        &&& self.replacer.inv()
        &&& forall|i: int|
            0 <= i < self.frames@.len() ==> (#[trigger] self.frames@[i]).frame_id == i
                && self.frames@[i].data@.len() == PAGE_SIZE
        &&& forall|i: int|
            0 <= i < self.frames@.len() ==> match (#[trigger] self.frames@[i]).page_id {
                Some(p) => self.page_table@.contains_key(p) && self.page_table@[p] == i,
                None => self.frames@[i].pin_count == 0 && !self.frames@[i].is_dirty
                    && self.is_free(i as usize),
            }
        &&& forall|p: PageId| #[trigger]
            self.page_table@.contains_key(p) ==> p < self.next_page_id && self.page_table@[p]
                < self.frames@.len() && self.frames@[self.page_table@[p] as int].page_id == Some(p)
        &&& forall|j: int|
            0 <= j < self.free_list@.len() ==> (#[trigger] self.free_list@[j]) < self.frames@.len()
                && self.frames@[self.free_list@[j] as int].page_id is None
        &&& forall|i: int, j: int|
            0 <= i < j < self.free_list@.len() ==> self.free_list@[i] != self.free_list@[j]
        &&& forall|f: FrameId| self.replacer.recorded().contains(f) ==> f < self.frames@.len()
        &&& forall|i: int|
            0 <= i < self.frames@.len() && (#[trigger] self.frames@[i]).pin_count > 0
                ==> self.replacer.pinned().contains(i as usize)
    }

    /// The frame `f` once it is pinned one more time.
    pub open spec fn pinned_frame(fr: Frame) -> Frame {
        Frame {
            frame_id: fr.frame_id,
            page_id: fr.page_id,
            is_dirty: fr.is_dirty,
            pin_count: (fr.pin_count + 1) as usize,
            data: fr.data,
        }
    }

    /// The frame once its page is dropped: free, unpinned, clean.
    pub open spec fn cleared_frame(fr: Frame) -> Frame {
        Frame { frame_id: fr.frame_id, page_id: None, is_dirty: false, pin_count: 0, data: fr.data }
    }

    /// A pool of `pool_size` frames, all free and zeroed, with no page
    /// resident and no page id handed out.
    pub fn new(pool_size: usize, replacer: R) -> (pool: Self)
        requires
            replacer.inv(),
            replacer.recorded() == Set::<FrameId>::empty(),
        ensures
            pool.wf(),
            pool.frames@.len() == pool_size,
            pool.free_list@.len() == pool_size,
            pool.page_table@ == Map::<PageId, FrameId>::empty(),
            pool.replacer == replacer,
            pool.next_page_id == 0,
            forall|i: int| 0 <= i < pool_size ==> pool.free_list@[i] == i,
            forall|i: int|
                0 <= i < pool_size ==> {
                    &&& (#[trigger] pool.frames@[i]).frame_id == i
                    &&& pool.frames@[i].page_id is None
                    &&& pool.frames@[i].pin_count == 0
                    &&& !pool.frames@[i].is_dirty
                    &&& pool.frames@[i].data@.len() == PAGE_SIZE
                },
            forall|i: int, j: int|
                0 <= i < pool_size && 0 <= j < PAGE_SIZE ==> (#[trigger] pool.frames@[i].data@[j])
                    == 0u8,
    {
        let mut frames: Vec<Frame> = Vec::new();
        let mut free_list: Vec<FrameId> = Vec::new();
        let mut i: usize = 0;
        while i < pool_size
            invariant
                i <= pool_size,
                frames@.len() == i,
                free_list@.len() == i,
                forall|j: int| 0 <= j < i ==> free_list@[j] == j,
                forall|j: int|
                    0 <= j < i ==> (#[trigger] frames@[j]) == (Frame {
                        frame_id: j as usize,
                        page_id: None,
                        is_dirty: false,
                        pin_count: 0,
                        data: frames@[j].data,
                    }) && frames@[j].data@.len() == PAGE_SIZE,
                forall|j: int, b: int|
                    0 <= j < i && 0 <= b < PAGE_SIZE ==> (#[trigger] frames@[j].data@[b]) == 0u8,
            decreases pool_size - i,
        {
            frames.push(
                Frame { frame_id: i, page_id: None, is_dirty: false, pin_count: 0, data: zeroed() },
            );
            free_list.push(i);
            i += 1;
        }
        let pool = Self { frames, free_list, page_table: HashMap::new(), replacer, next_page_id: 0 };
        proof {
            assert forall|k: int|
                0 <= k < pool.frames@.len() && (#[trigger] pool.frames@[k]).page_id
                    is None implies pool.is_free(k as usize) by {
                assert(pool.free_list@[k] == k as usize);
            }
        }
        pool
    }

    /// The frame in which the page is resident, if it is.
    pub fn lookup(&self, page_id: PageId) -> (frame: Option<FrameId>)
        ensures
            frame == if self.page_table@.contains_key(page_id) {
                Some(self.page_table@[page_id])
            } else {
                None
            },
    {
        match self.page_table.get(&page_id) {
            Some(f) => Some(*f),
            None => None,
        }
    }

    /// Pins the resident frame `f` once more and tells the policy.
    fn pin_resident(&mut self, f: FrameId)
        requires
            old(self).wf(),
            old(self).replacer.can_record(),
            f < old(self).frames@.len(),
            old(self).frames@[f as int].page_id is Some,
            old(self).frames@[f as int].pin_count < usize::MAX,
        ensures
            final(self).wf(),
            final(self).frames@ == old(self).frames@.update(
                f as int,
                Self::pinned_frame(old(self).frames@[f as int]),
            ),
            final(self).free_list == old(self).free_list,
            final(self).page_table == old(self).page_table,
            final(self).next_page_id == old(self).next_page_id,
            final(self).replacer.recorded() == old(self).replacer.recorded().insert(f),
            final(self).replacer.pinned() == old(self).replacer.pinned().insert(f),
    {
        let pins: usize = self.frames[f].pin_count;
        self.frames[f].pin_count = pins + 1;
        self.replacer.record_access(f);
        self.replacer.set_evictable(f, false);
        proof {
            assert(self.frames@ =~= old(self).frames@.update(
                f as int,
                Self::pinned_frame(old(self).frames@[f as int]),
            ));
            assert forall|i: int| 0 <= i < self.frames@.len() implies match (
            #[trigger] self.frames@[i]).page_id {
                Some(p) => self.page_table@.contains_key(p) && self.page_table@[p] == i,
                None => self.frames@[i].pin_count == 0 && !self.frames@[i].is_dirty
                    && self.is_free(i as usize),
            } by {
                assert(self.frames@[i].page_id == old(self).frames@[i].page_id);
                match old(self).frames@[i].page_id {
                    Some(p) => {
                        assert(old(self).page_table@.contains_key(p));
                    },
                    None => {
                        assert(i != f);
                        assert(self.frames@[i] == old(self).frames@[i]);
                        assert(old(self).is_free(i as usize));
                        let j = choose|j: int|
                            0 <= j < old(self).free_list@.len() && old(self).free_list@[j]
                                == i as usize;
                        assert(self.free_list@[j] == i as usize);
                    },
                }
            }
            assert forall|i: int|
                0 <= i < self.frames@.len() && (#[trigger] self.frames@[i]).pin_count
                    > 0 implies self.replacer.pinned().contains(i as usize) by {
                if i != f {
                    assert(old(self).frames@[i].pin_count > 0);
                }
            }
        }
    }

    /// Drops the page of the resident, unpinned frame `f`: its page-table
    /// entry goes, the frame is cleared and joins the free list.
    fn release(&mut self, f: FrameId, p: PageId)
        requires
            old(self).wf(),
            f < old(self).frames@.len(),
            old(self).frames@[f as int].page_id == Some(p),
            old(self).frames@[f as int].pin_count == 0,
        ensures
            final(self).wf(),
            final(self).frames@ == old(self).frames@.update(
                f as int,
                Self::cleared_frame(old(self).frames@[f as int]),
            ),
            final(self).free_list@ == old(self).free_list@.push(f),
            final(self).page_table@ == old(self).page_table@.remove(p),
            final(self).next_page_id == old(self).next_page_id,
            final(self).replacer == old(self).replacer,
    {
        self.page_table.remove(&p);
        self.frames[f].page_id = None;
        self.frames[f].is_dirty = false;
        self.free_list.push(f);
        proof {
            assert(self.frames@ =~= old(self).frames@.update(
                f as int,
                Self::cleared_frame(old(self).frames@[f as int]),
            ));
            let last = old(self).free_list@.len() as int;
            assert(self.free_list@[last] == f);
            assert forall|i: int| 0 <= i < self.frames@.len() implies match (
            #[trigger] self.frames@[i]).page_id {
                Some(q) => self.page_table@.contains_key(q) && self.page_table@[q] == i,
                None => self.frames@[i].pin_count == 0 && !self.frames@[i].is_dirty
                    && self.is_free(i as usize),
            } by {
                if i == f {
                    assert(self.is_free(i as usize));
                } else {
                    match old(self).frames@[i].page_id {
                        Some(q) => {
                            assert(old(self).page_table@[q] == i);
                        },
                        None => {
                            assert(old(self).is_free(i as usize));
                            let j = choose|j: int|
                                0 <= j < old(self).free_list@.len() && old(self).free_list@[j]
                                    == i as usize;
                            assert(self.free_list@[j] == i as usize);
                        },
                    }
                }
            }
            assert forall|q: PageId| #[trigger] self.page_table@.contains_key(q) implies q
                < self.next_page_id && self.page_table@[q] < self.frames@.len()
                && self.frames@[self.page_table@[q] as int].page_id == Some(q) by {
                assert(old(self).page_table@.contains_key(q));
            }
            assert forall|j: int| 0 <= j < self.free_list@.len() implies (
            #[trigger] self.free_list@[j]) < self.frames@.len()
                && self.frames@[self.free_list@[j] as int].page_id is None by {
                if j < last {
                    assert(self.free_list@[j] == old(self).free_list@[j]);
                }
            }
            assert forall|i: int, j: int| 0 <= i < j < self.free_list@.len() implies
                self.free_list@[i] != self.free_list@[j] by {
                assert(self.free_list@[i] == old(self).free_list@[i]);
                if j < last {
                    assert(self.free_list@[j] == old(self).free_list@[j]);
                }
            }
            assert forall|i: int|
                0 <= i < self.frames@.len() && (#[trigger] self.frames@[i]).pin_count
                    > 0 implies self.replacer.pinned().contains(i as usize) by {
                assert(old(self).frames@[i].pin_count > 0);
            }
        }
    }

    /// How the pool changes when a frame is to be had for a page that is not
    /// resident. With a free frame at hand nothing changes and `got` is
    /// `Ok(None)`. Otherwise the policy is asked for a victim, which is a
    /// frame it has on record, not marked non-evictable, resident and
    /// unpinned: a clean victim is dropped and joins the free list
    /// (`Ok(None)`); a dirty one stays as it is and is named with its page
    /// (`Ok(Some(..))`); without a victim the pool is exhausted, which is the
    /// outcome whenever every frame is pinned.
    pub open spec fn reclaimed(
        pre: Self,
        post: Self,
        got: Result<Option<(FrameId, PageId)>, DiskError>,
    ) -> bool {
        &&& post.next_page_id == pre.next_page_id
        &&& post.replacer.can_record() == pre.replacer.can_record()
        &&& post.replacer.pinned() == pre.replacer.pinned()
        &&& pre.free_list@.len() > 0 ==> got == Ok::<Option<(FrameId, PageId)>, DiskError>(None)
            && post == pre
        &&& pre.free_list@.len() == 0 ==> match got {
            Ok(None) => exists|v: FrameId|
                {
                    &&& pre.replacer.recorded().contains(v)
                    &&& !pre.replacer.pinned().contains(v)
                    &&& v < pre.frames@.len()
                    &&& pre.frames@[v as int].pin_count == 0
                    &&& !pre.frames@[v as int].is_dirty
                    &&& pre.frames@[v as int].page_id is Some
                    &&& post.replacer.recorded() == pre.replacer.recorded().remove(v)
                    &&& post.frames@ == pre.frames@.update(
                        v as int,
                        Self::cleared_frame(pre.frames@[v as int]),
                    )
                    &&& post.free_list@ == pre.free_list@.push(v)
                    &&& post.page_table@ == pre.page_table@.remove(
                        pre.frames@[v as int].page_id->Some_0,
                    )
                },
            Ok(Some((v, p))) => {
                &&& pre.replacer.recorded().contains(v)
                &&& !pre.replacer.pinned().contains(v)
                &&& v < pre.frames@.len()
                &&& pre.frames@[v as int].pin_count == 0
                &&& pre.frames@[v as int].is_dirty
                &&& pre.frames@[v as int].page_id == Some(p)
                &&& post.replacer.recorded() == pre.replacer.recorded().remove(v)
                &&& post.frames == pre.frames
                &&& post.free_list == pre.free_list
                &&& post.page_table == pre.page_table
            },
            Err(e) => {
                &&& e == DiskError::PoolExhausted
                &&& forall|f: FrameId|
                    pre.replacer.recorded().contains(f) ==> pre.replacer.pinned().contains(f)
                &&& post.replacer.recorded() == pre.replacer.recorded()
                &&& post.frames == pre.frames
                &&& post.free_list == pre.free_list
                &&& post.page_table == pre.page_table
            },
        }
        &&& pre.all_pinned() ==> got == Err::<Option<(FrameId, PageId)>, DiskError>(
            DiskError::PoolExhausted,
        )
    }

    /// Makes sure that a frame is free, reclaiming one if need be.
    fn obtain_frame(&mut self) -> (got: Result<Option<(FrameId, PageId)>, DiskError>)
        requires
            old(self).wf(),
        ensures
            final(self).wf(),
            Self::reclaimed(*old(self), *final(self), got),
    {
        proof {
            if old(self).all_pinned() && old(self).free_list@.len() > 0 {
                let f = old(self).free_list@[0];
                assert(old(self).frames@[f as int].page_id is None);
            }
        }
        if self.free_list.len() > 0 {
            return Ok(None);
        }
        match self.replacer.evict() {
            None => Err(DiskError::PoolExhausted),
            Some(v) => {
                proof {
                    if old(self).frames@[v as int].page_id is None {
                        assert(old(self).is_free(v));
                    }
                }
                let dirty = self.frames[v].is_dirty;
                match self.frames[v].page_id {
                    Some(p) => {
                        if dirty {
                            Ok(Some((v, p)))
                        } else {
                            self.release(v, p);
                            Ok(None)
                        }
                    },
                    None => Err(DiskError::PoolExhausted),
                }
            },
        }
    }

    /// How the pool changes when page `p` with the bytes `data` is put into
    /// the free frame `f`, the last of the free list: the frame holds the
    /// page, clean and pinned once, and no other frame changes.
    pub open spec fn installed(pre: Self, post: Self, f: FrameId, p: PageId, data: Seq<u8>) -> bool {
        &&& pre.free_list@.len() > 0
        &&& f == pre.free_list@.last()
        &&& f < pre.frames@.len()
        &&& post.frames@.len() == pre.frames@.len()
        &&& post.frames@[f as int].frame_id == f
        &&& post.frames@[f as int].page_id == Some(p)
        &&& post.frames@[f as int].pin_count == 1
        &&& !post.frames@[f as int].is_dirty
        &&& post.frames@[f as int].data@ == data
        &&& forall|i: int|
            0 <= i < pre.frames@.len() && i != f ==> post.frames@[i] == pre.frames@[i]
        &&& post.free_list@ == pre.free_list@.drop_last()
        &&& post.page_table@ == pre.page_table@.insert(p, f)
        &&& post.replacer.recorded() == pre.replacer.recorded().insert(f)
        &&& post.replacer.pinned() == pre.replacer.pinned().insert(f)
    }

    /// How the pool changes when the resident frame `f` is pinned once more.
    pub open spec fn pinned_again(pre: Self, post: Self, f: FrameId) -> bool {
        &&& post.frames@ == pre.frames@.update(f as int, Self::pinned_frame(pre.frames@[f as int]))
        &&& post.free_list == pre.free_list
        &&& post.page_table == pre.page_table
        &&& post.next_page_id == pre.next_page_id
        &&& post.replacer.recorded() == pre.replacer.recorded().insert(f)
        &&& post.replacer.pinned() == pre.replacer.pinned().insert(f)
    }

    /// Puts page `p` with `data` into the last frame of the free list.
    fn install(&mut self, p: PageId, data: Vec<u8>) -> (f: FrameId)
        requires
            old(self).wf(),
            old(self).replacer.can_record(),
            old(self).free_list@.len() > 0,
            !old(self).page_table@.contains_key(p),
            p < old(self).next_page_id,
            data@.len() == PAGE_SIZE,
        ensures
            final(self).wf(),
            final(self).next_page_id == old(self).next_page_id,
            Self::installed(*old(self), *final(self), f, p, data@),
    {
        let ghost bytes = data@;
        let f: FrameId = self.free_list[self.free_list.len() - 1];
        self.free_list.pop();
        self.frames[f].page_id = Some(p);
        self.frames[f].pin_count = 1;
        self.frames[f].data = data;
        self.page_table.insert(p, f);
        self.replacer.record_access(f);
        self.replacer.set_evictable(f, false);
        proof {
            let last = old(self).free_list@.len() - 1;
            assert(old(self).free_list@[last] == f);
            assert(old(self).frames@[f as int].page_id is None);
            assert(self.frames@[f as int].data@ == bytes);
            assert(self.free_list@ =~= old(self).free_list@.drop_last());
            assert forall|i: int| 0 <= i < self.frames@.len() implies match (
            #[trigger] self.frames@[i]).page_id {
                Some(q) => self.page_table@.contains_key(q) && self.page_table@[q] == i,
                None => self.frames@[i].pin_count == 0 && !self.frames@[i].is_dirty
                    && self.is_free(i as usize),
            } by {
                if i != f {
                    assert(self.frames@[i] == old(self).frames@[i]);
                    match old(self).frames@[i].page_id {
                        Some(q) => {
                            assert(old(self).page_table@.contains_key(q));
                        },
                        None => {
                            assert(old(self).is_free(i as usize));
                            let j = choose|j: int|
                                0 <= j < old(self).free_list@.len() && old(self).free_list@[j]
                                    == i as usize;
                            assert(j != last);
                            assert(self.free_list@[j] == i as usize);
                        },
                    }
                }
            }
            assert forall|q: PageId| #[trigger] self.page_table@.contains_key(q) implies q
                < self.next_page_id && self.page_table@[q] < self.frames@.len()
                && self.frames@[self.page_table@[q] as int].page_id == Some(q) by {
                if q != p {
                    assert(old(self).page_table@.contains_key(q));
                    assert(old(self).page_table@[q] != f);
                }
            }
            assert forall|j: int| 0 <= j < self.free_list@.len() implies (
            #[trigger] self.free_list@[j]) < self.frames@.len()
                && self.frames@[self.free_list@[j] as int].page_id is None by {
                assert(self.free_list@[j] == old(self).free_list@[j]);
                assert(old(self).free_list@[j] != old(self).free_list@[last]);
            }
            assert forall|i: int, j: int| 0 <= i < j < self.free_list@.len() implies
                self.free_list@[i] != self.free_list@[j] by {
                assert(self.free_list@[i] == old(self).free_list@[i]);
                assert(self.free_list@[j] == old(self).free_list@[j]);
            }
            assert forall|i: int|
                0 <= i < self.frames@.len() && (#[trigger] self.frames@[i]).pin_count
                    > 0 implies self.replacer.pinned().contains(i as usize) by {
                if i != f {
                    assert(old(self).frames@[i].pin_count > 0);
                }
            }
        }
        f
    }

    /// Serves a request for a page. A resident page is pinned once more and
    /// its access recorded. For a page that is not resident a frame is made
    /// free if one can be had: the caller then reads the page and installs
    /// it, or first writes back the dirty page that is in the way.
    pub fn fetch_page(&mut self, page_id: PageIdRef) -> (step: Result<PoolStep, DiskError>)
        requires
            old(self).wf(),
            old(self).replacer.can_record(),
        ensures
            final(self).wf(),
            old(self).all_pinned() && page_id is Some && !old(self).page_table@.contains_key(
                page_id->Some_0,
            ) && page_id->Some_0 < old(self).next_page_id ==> {
                &&& step == Err::<PoolStep, DiskError>(DiskError::PoolExhausted)
                &&& final(self).frames == old(self).frames
                &&& final(self).free_list == old(self).free_list
                &&& final(self).page_table == old(self).page_table
            },
            final(self).frames@.len() == old(self).frames@.len(),
            forall|i: int|
                0 <= i < old(self).frames@.len() && old(self).frames@[i].pin_count > 0 ==> (
                #[trigger] final(self).frames@[i]).page_id == old(self).frames@[i].page_id
                    && final(self).frames@[i].data == old(self).frames@[i].data,
            match page_id {
                None => step == Err::<PoolStep, DiskError>(DiskError::InvalidPageId) && *final(self)
                    == *old(self),
                Some(p) => if old(self).page_table@.contains_key(p) {
                    let f = old(self).page_table@[p];
                    if old(self).frames@[f as int].pin_count == usize::MAX {
                        step == Err::<PoolStep, DiskError>(DiskError::PoolExhausted) && *final(self)
                            == *old(self)
                    } else {
                        step == Ok::<PoolStep, DiskError>(PoolStep::Ready(f)) && Self::pinned_again(
                            *old(self),
                            *final(self),
                            f,
                        )
                    }
                } else if p >= old(self).next_page_id {
                    step == Err::<PoolStep, DiskError>(DiskError::PageNotFound) && *final(self)
                        == *old(self)
                } else {
                    match step {
                        Ok(PoolStep::Ready(_)) => false,
                        Ok(PoolStep::Load) => Self::reclaimed(*old(self), *final(self), Ok(None)),
                        Ok(PoolStep::WriteBack(v, q)) => Self::reclaimed(
                            *old(self),
                            *final(self),
                            Ok(Some((v, q))),
                        ),
                        Err(e) => Self::reclaimed(*old(self), *final(self), Err(e)),
                    }
                },
            },
    {
        match page_id {
            None => Err(DiskError::InvalidPageId),
            Some(p) => match self.lookup(p) {
                Some(f) => {
                    if self.frames[f].pin_count == usize::MAX {
                        Err(DiskError::PoolExhausted)
                    } else {
                        self.pin_resident(f);
                        Ok(PoolStep::Ready(f))
                    }
                },
                None => {
                    if p >= self.next_page_id {
                        Err(DiskError::PageNotFound)
                    } else {
                        match self.obtain_frame() {
                            Ok(None) => Ok(PoolStep::Load),
                            Ok(Some((v, q))) => Ok(PoolStep::WriteBack(v, q)),
                            Err(e) => Err(e),
                        }
                    }
                },
            },
        }
    }

    /// Puts the page read from disk into a free frame and pins it. A page
    /// that is resident already is pinned where it is, and the bytes handed
    /// in are dropped: the resident copy is the newer one.
    pub fn install_page(&mut self, page_id: PageIdRef, page: &Page) -> (frame: Result<
        FrameId,
        DiskError,
    >)
        requires
            old(self).wf(),
            old(self).replacer.can_record(),
        ensures
            final(self).wf(),
            final(self).frames@.len() == old(self).frames@.len(),
            forall|i: int|
                0 <= i < old(self).frames@.len() && old(self).frames@[i].pin_count > 0 ==> (
                #[trigger] final(self).frames@[i]).page_id == old(self).frames@[i].page_id
                    && final(self).frames@[i].data == old(self).frames@[i].data,
            final(self).next_page_id == old(self).next_page_id,
            match page_id {
                None => frame == Err::<FrameId, DiskError>(DiskError::InvalidPageId) && *final(self)
                    == *old(self),
                Some(p) => if old(self).page_table@.contains_key(p) {
                    let f = old(self).page_table@[p];
                    if old(self).frames@[f as int].pin_count == usize::MAX {
                        frame == Err::<FrameId, DiskError>(DiskError::PoolExhausted) && *final(self)
                            == *old(self)
                    } else {
                        frame == Ok::<FrameId, DiskError>(f) && Self::pinned_again(
                            *old(self),
                            *final(self),
                            f,
                        )
                    }
                } else if p >= old(self).next_page_id {
                    frame == Err::<FrameId, DiskError>(DiskError::PageNotFound) && *final(self)
                        == *old(self)
                } else if old(self).free_list@.len() == 0 {
                    frame == Err::<FrameId, DiskError>(DiskError::PoolExhausted) && *final(self)
                        == *old(self)
                } else {
                    frame == Ok::<FrameId, DiskError>(old(self).free_list@.last())
                        && Self::installed(*old(self), *final(self), frame->Ok_0, p, page@)
                },
            },
    {
        match page_id {
            None => Err(DiskError::InvalidPageId),
            Some(p) => match self.lookup(p) {
                Some(f) => {
                    if self.frames[f].pin_count == usize::MAX {
                        Err(DiskError::PoolExhausted)
                    } else {
                        self.pin_resident(f);
                        Ok(f)
                    }
                },
                None => {
                    if p >= self.next_page_id {
                        Err(DiskError::PageNotFound)
                    } else if self.free_list.len() == 0 {
                        Err(DiskError::PoolExhausted)
                    } else {
                        proof {
                            page.lemma_len();
                        }
                        Ok(self.install(p, slice_to_vec(page.as_slice())))
                    }
                },
            },
        }
    }

    /// Hands out a fresh page id and makes a zeroed page of that id
    /// resident and pinned, in a free frame or in one reclaimed from a clean
    /// victim. With only a dirty victim to be had, that victim is named and
    /// no id is handed out; with none, or with no id left, the pool is
    /// exhausted.
    pub fn new_page(&mut self) -> (made: Result<NewPage, DiskError>)
        requires
            old(self).wf(),
            old(self).replacer.can_record(),
        ensures
            final(self).wf(),
            old(self).all_pinned() ==> {
                &&& made == Err::<NewPage, DiskError>(DiskError::PoolExhausted)
                &&& final(self).frames == old(self).frames
                &&& final(self).free_list == old(self).free_list
                &&& final(self).page_table == old(self).page_table
                &&& final(self).next_page_id == old(self).next_page_id
            },
            final(self).frames@.len() == old(self).frames@.len(),
            forall|i: int|
                0 <= i < old(self).frames@.len() && old(self).frames@[i].pin_count > 0 ==> (
                #[trigger] final(self).frames@[i]).page_id == old(self).frames@[i].page_id
                    && final(self).frames@[i].data == old(self).frames@[i].data,
            old(self).next_page_id == usize::MAX ==> made == Err::<NewPage, DiskError>(
                DiskError::PoolExhausted,
            ) && *final(self) == *old(self),
            old(self).next_page_id < usize::MAX ==> match made {
                Ok(NewPage::Created(p, f)) => {
                    &&& p == old(self).next_page_id
                    &&& final(self).next_page_id == p + 1
                    &&& f < old(self).frames@.len()
                    &&& old(self).frames@[f as int].pin_count == 0
                    &&& final(self).frames@.len() == old(self).frames@.len()
                    &&& final(self).frames@[f as int].frame_id == f
                    &&& final(self).frames@[f as int].page_id == Some(p)
                    &&& final(self).frames@[f as int].pin_count == 1
                    &&& !final(self).frames@[f as int].is_dirty
                    &&& final(self).frames@[f as int].data@.len() == PAGE_SIZE
                    &&& forall|i: int|
                        0 <= i < PAGE_SIZE ==> final(self).frames@[f as int].data@[i] == 0u8
                    &&& forall|i: int|
                        0 <= i < old(self).frames@.len() && i != f ==> final(self).frames@[i]
                            == old(self).frames@[i]
                    &&& final(self).replacer.pinned() == old(self).replacer.pinned().insert(f)
                    &&& final(self).replacer.recorded() == old(self).replacer.recorded().insert(f)
                    &&& if old(self).free_list@.len() > 0 {
                        &&& f == old(self).free_list@.last()
                        &&& final(self).free_list@ == old(self).free_list@.drop_last()
                        &&& final(self).page_table@ == old(self).page_table@.insert(p, f)
                    } else {
                        &&& old(self).replacer.recorded().contains(f)
                        &&& !old(self).replacer.pinned().contains(f)
                        &&& !old(self).frames@[f as int].is_dirty
                        &&& old(self).frames@[f as int].page_id is Some
                        &&& final(self).free_list@ == old(self).free_list@
                        &&& final(self).page_table@ == old(self).page_table@.remove(
                            old(self).frames@[f as int].page_id->Some_0,
                        ).insert(p, f)
                    }
                },
                Ok(NewPage::WriteBack(v, q)) => Self::reclaimed(
                    *old(self),
                    *final(self),
                    Ok(Some((v, q))),
                ),
                Err(e) => Self::reclaimed(*old(self), *final(self), Err(e)),
            },
            old(self).next_page_id < usize::MAX && old(self).free_list@.len() > 0 ==> made is Ok,
    {
        if self.next_page_id == usize::MAX {
            return Err(DiskError::PoolExhausted);
        }
        match self.obtain_frame() {
            Ok(None) => {
                let ghost mid = *self;
                let p: PageId = self.next_page_id;
                self.next_page_id = p + 1;
                proof {
                    assert(self.frames == mid.frames);
                    assert(self.free_list == mid.free_list);
                    assert(self.page_table == mid.page_table);
                    assert(self.replacer == mid.replacer);
                    assert(self.wf()) by {
                        assert forall|i: int| 0 <= i < self.frames@.len() implies match (
                        #[trigger] self.frames@[i]).page_id {
                            Some(q) => self.page_table@.contains_key(q) && self.page_table@[q]
                                == i,
                            None => self.frames@[i].pin_count == 0 && !self.frames@[i].is_dirty
                                && self.is_free(i as usize),
                        } by {
                            if mid.frames@[i].page_id is None {
                                assert(mid.is_free(i as usize));
                            }
                        }
                    }
                    if old(self).free_list@.len() == 0 {
                        let v = choose|v: FrameId|
                            {
                                &&& old(self).replacer.recorded().contains(v)
                                &&& !old(self).replacer.pinned().contains(v)
                                &&& v < old(self).frames@.len()
                                &&& old(self).frames@[v as int].pin_count == 0
                                &&& !old(self).frames@[v as int].is_dirty
                                &&& old(self).frames@[v as int].page_id is Some
                                &&& mid.replacer.recorded() == old(self).replacer.recorded().remove(
                                    v,
                                )
                                &&& mid.frames@ == old(self).frames@.update(
                                    v as int,
                                    Self::cleared_frame(old(self).frames@[v as int]),
                                )
                                &&& mid.free_list@ == old(self).free_list@.push(v)
                                &&& mid.page_table@ == old(self).page_table@.remove(
                                    old(self).frames@[v as int].page_id->Some_0,
                                )
                            };
                        assert(mid.free_list@.last() == v);
                        assert(mid.free_list@.drop_last() =~= old(self).free_list@);
                        assert(mid.replacer.recorded().insert(v) =~= old(self).replacer.recorded().insert(v));
                    } else {
                        assert(mid == *old(self));
                    }
                    let f0 = mid.free_list@.last();
                    assert(mid.free_list@[mid.free_list@.len() - 1] == f0);
                    assert(mid.frames@[f0 as int].page_id is None);
                }
                let f = self.install(p, zeroed());
                Ok(NewPage::Created(p, f))
            },
            Ok(Some((v, q))) => Ok(NewPage::WriteBack(v, q)),
            Err(e) => Err(e),
        }
    }

    /// The frame after one pin is given back, `dirty` telling whether the
    /// holder changed the page.
    pub open spec fn unpinned_frame(fr: Frame, dirty: bool) -> Frame {
        Frame {
            frame_id: fr.frame_id,
            page_id: fr.page_id,
            is_dirty: fr.is_dirty || dirty,
            pin_count: (fr.pin_count - 1) as usize,
            data: fr.data,
        }
    }

    /// Gives back one pin of a resident page and notes whether the page was
    /// changed. The last pin given back makes the frame evictable. A page
    /// without pins is left as it is.
    pub fn unpin_page(&mut self, page_id: PageIdRef, is_dirty: bool) -> (outcome: Result<
        (),
        DiskError,
    >)
        requires
            old(self).wf(),
        ensures
            final(self).wf(),
            final(self).free_list == old(self).free_list,
            final(self).page_table == old(self).page_table,
            final(self).next_page_id == old(self).next_page_id,
            final(self).replacer.can_record() == old(self).replacer.can_record(),
            final(self).replacer.recorded() == old(self).replacer.recorded(),
            match page_id {
                None => outcome == Err::<(), DiskError>(DiskError::InvalidPageId) && *final(self)
                    == *old(self),
                Some(p) => if !old(self).page_table@.contains_key(p) {
                    outcome == Err::<(), DiskError>(DiskError::PageNotFound) && *final(self)
                        == *old(self)
                } else {
                    let f = old(self).page_table@[p];
                    let fr = old(self).frames@[f as int];
                    &&& outcome == Ok::<(), DiskError>(())
                    &&& if fr.pin_count == 0 {
                        *final(self) == *old(self)
                    } else {
                        &&& final(self).frames@ == old(self).frames@.update(
                            f as int,
                            Self::unpinned_frame(fr, is_dirty),
                        )
                        &&& if fr.pin_count == 1 {
                            final(self).replacer.pinned() == old(self).replacer.pinned().remove(f)
                        } else {
                            final(self).replacer == old(self).replacer
                        }
                    }
                },
            },
    {
        match page_id {
            None => Err(DiskError::InvalidPageId),
            Some(p) => match self.lookup(p) {
                None => Err(DiskError::PageNotFound),
                Some(f) => {
                    let pins: usize = self.frames[f].pin_count;
                    if pins == 0 {
                        return Ok(());
                    }
                    let dirty = self.frames[f].is_dirty;
                    self.frames[f].pin_count = pins - 1;
                    self.frames[f].is_dirty = dirty || is_dirty;
                    if pins == 1 {
                        self.replacer.set_evictable(f, true);
                    }
                    proof {
                        assert(self.frames@ =~= old(self).frames@.update(
                            f as int,
                            Self::unpinned_frame(old(self).frames@[f as int], is_dirty),
                        ));
                        assert forall|i: int| 0 <= i < self.frames@.len() implies match (
                        #[trigger] self.frames@[i]).page_id {
                            Some(q) => self.page_table@.contains_key(q) && self.page_table@[q]
                                == i,
                            None => self.frames@[i].pin_count == 0 && !self.frames@[i].is_dirty
                                && self.is_free(i as usize),
                        } by {
                            if i != f {
                                assert(self.frames@[i] == old(self).frames@[i]);
                                if old(self).frames@[i].page_id is None {
                                    assert(old(self).is_free(i as usize));
                                    let j = choose|j: int|
                                        0 <= j < old(self).free_list@.len() && old(self).free_list@[j] == i as usize;
                                    assert(self.free_list@[j] == i as usize);
                                }
                            }
                        }
                        assert forall|i: int|
                            0 <= i < self.frames@.len() && (#[trigger] self.frames@[i]).pin_count
                                > 0 implies self.replacer.pinned().contains(i as usize) by {
                            assert(old(self).frames@[i].pin_count > 0);
                        }
                    }
                    Ok(())
                },
            },
        }
    }

    /// The frame whose bytes are to be written to disk for the page,
    /// whether it is dirty or not.
    pub fn flush_page(&self, page_id: PageIdRef) -> (frame: Result<FrameId, DiskError>)
        ensures
            match page_id {
                None => frame == Err::<FrameId, DiskError>(DiskError::InvalidPageId),
                Some(p) => if self.page_table@.contains_key(p) {
                    frame == Ok::<FrameId, DiskError>(self.page_table@[p])
                } else {
                    frame == Err::<FrameId, DiskError>(DiskError::PageNotFound)
                },
            },
    {
        match page_id {
            None => Err(DiskError::InvalidPageId),
            Some(p) => match self.lookup(p) {
                Some(f) => Ok(f),
                None => Err(DiskError::PageNotFound),
            },
        }
    }

    /// The frame once its page has reached the disk.
    pub open spec fn clean_frame(fr: Frame) -> Frame {
        Frame {
            frame_id: fr.frame_id,
            page_id: fr.page_id,
            is_dirty: false,
            pin_count: fr.pin_count,
            data: fr.data,
        }
    }

    /// Notes that the page's bytes have been written to disk: the frame is
    /// clean.
    pub fn page_flushed(&mut self, page_id: PageIdRef) -> (outcome: Result<(), DiskError>)
        requires
            old(self).wf(),
        ensures
            final(self).wf(),
            final(self).free_list == old(self).free_list,
            final(self).page_table == old(self).page_table,
            final(self).next_page_id == old(self).next_page_id,
            final(self).replacer == old(self).replacer,
            match page_id {
                None => outcome == Err::<(), DiskError>(DiskError::InvalidPageId) && *final(self)
                    == *old(self),
                Some(p) => if old(self).page_table@.contains_key(p) {
                    let f = old(self).page_table@[p];
                    outcome == Ok::<(), DiskError>(()) && final(self).frames@ == old(self).frames@.update(f as int, Self::clean_frame(old(self).frames@[f as int]))
                } else {
                    outcome == Err::<(), DiskError>(DiskError::PageNotFound) && *final(self)
                        == *old(self)
                },
            },
    {
        match page_id {
            None => Err(DiskError::InvalidPageId),
            Some(p) => match self.lookup(p) {
                None => Err(DiskError::PageNotFound),
                Some(f) => {
                    self.frames[f].is_dirty = false;
                    proof {
                        assert(self.frames@ =~= old(self).frames@.update(
                            f as int,
                            Self::clean_frame(old(self).frames@[f as int]),
                        ));
                        assert forall|i: int| 0 <= i < self.frames@.len() implies match (
                        #[trigger] self.frames@[i]).page_id {
                            Some(q) => self.page_table@.contains_key(q) && self.page_table@[q]
                                == i,
                            None => self.frames@[i].pin_count == 0 && !self.frames@[i].is_dirty
                                && self.is_free(i as usize),
                        } by {
                            if i != f {
                                assert(self.frames@[i] == old(self).frames@[i]);
                                if old(self).frames@[i].page_id is None {
                                    assert(old(self).is_free(i as usize));
                                    let j = choose|j: int|
                                        0 <= j < old(self).free_list@.len() && old(self).free_list@[j] == i as usize;
                                    assert(self.free_list@[j] == i as usize);
                                }
                            }
                        }
                        assert forall|i: int|
                            0 <= i < self.frames@.len() && (#[trigger] self.frames@[i]).pin_count
                                > 0 implies self.replacer.pinned().contains(i as usize) by {
                            assert(old(self).frames@[i].pin_count > 0);
                        }
                    }
                    Ok(())
                },
            },
        }
    }

    /// Drops a resident page that nobody has pinned: its page-table entry
    /// goes, its frame is cleared and joins the free list. A pinned page is
    /// refused until its pins are given back.
    pub fn delete_page(&mut self, page_id: PageIdRef) -> (outcome: Result<(), DiskError>)
        requires
            old(self).wf(),
        ensures
            final(self).wf(),
            final(self).next_page_id == old(self).next_page_id,
            final(self).replacer == old(self).replacer,
            match page_id {
                None => outcome == Err::<(), DiskError>(DiskError::InvalidPageId) && *final(self)
                    == *old(self),
                Some(p) => if !old(self).page_table@.contains_key(p) {
                    outcome == Err::<(), DiskError>(DiskError::PageNotFound) && *final(self)
                        == *old(self)
                } else {
                    let f = old(self).page_table@[p];
                    if old(self).frames@[f as int].pin_count > 0 {
                        outcome == Err::<(), DiskError>(DiskError::PoolExhausted) && *final(self)
                            == *old(self)
                    } else {
                        &&& outcome == Ok::<(), DiskError>(())
                        &&& final(self).frames@ == old(self).frames@.update(
                            f as int,
                            Self::cleared_frame(old(self).frames@[f as int]),
                        )
                        &&& final(self).free_list@ == old(self).free_list@.push(f)
                        &&& final(self).page_table@ == old(self).page_table@.remove(p)
                    }
                },
            },
    {
        match page_id {
            None => Err(DiskError::InvalidPageId),
            Some(p) => match self.lookup(p) {
                None => Err(DiskError::PageNotFound),
                Some(f) => {
                    if self.frames[f].pin_count > 0 {
                        Err(DiskError::PoolExhausted)
                    } else {
                        self.release(f, p);
                        Ok(())
                    }
                },
            },
        }
    }
}

/// A pinned frame is never reclaimed: making room for another page leaves
/// every frame with a pin exactly as it was.
pub proof fn lemma_pinned_frames_stay<R: Replacer>(
    pre: BufferBoolManager<R>,
    post: BufferBoolManager<R>,
    got: Result<Option<(FrameId, PageId)>, DiskError>,
)
    requires
        pre.wf(),
        BufferBoolManager::<R>::reclaimed(pre, post, got),
    ensures
        post.frames@.len() == pre.frames@.len(),
        forall|i: int|
            0 <= i < pre.frames@.len() && pre.frames@[i].pin_count > 0 ==> post.frames@[i]
                == pre.frames@[i],
        match got {
            Ok(Some((v, _))) => pre.frames@[v as int].pin_count == 0,
            _ => true,
        },
{
}

/// With every frame pinned no frame can be had: the request fails as
/// exhausted and the frames, the free list and the page table are as they
/// were.
pub proof fn lemma_all_pinned_exhausts<R: Replacer>(
    pre: BufferBoolManager<R>,
    post: BufferBoolManager<R>,
    got: Result<Option<(FrameId, PageId)>, DiskError>,
)
    requires
        pre.wf(),
        pre.all_pinned(),
        BufferBoolManager::<R>::reclaimed(pre, post, got),
    ensures
        got == Err::<Option<(FrameId, PageId)>, DiskError>(DiskError::PoolExhausted),
        post.frames == pre.frames,
        post.free_list == pre.free_list,
        post.page_table == pre.page_table,
{
    if pre.free_list@.len() > 0 {
        let f = pre.free_list@[0];
        assert(pre.frames@[f as int].page_id is None);
        assert(pre.frames@[f as int].pin_count > 0);
    }
}

} // verus!
