use vstd::prelude::*;
use crate::types::FrameId;

verus! {

/// A cache-replacement policy: it is told of every access to a frame and of
/// every change in whether a frame may be reclaimed, and picks the frame to
/// reclaim.
///
/// The contract is what every policy owes the buffer pool, whatever order it
/// evicts in: it only ever hands out a frame that has a recorded access and
/// is not pinned, it hands one out whenever there is one, and a frame handed
/// out is forgotten.
pub trait Replacer {
    /// The policy's own invariant.
    spec fn inv(&self) -> bool;

    /// The frames with a recorded access.
    spec fn recorded(&self) -> Set<FrameId>;

    /// The frames marked non-evictable.
    spec fn pinned(&self) -> Set<FrameId>;

    /// Whether one more access can be recorded.
    spec fn can_record(&self) -> bool;

    /// Notes an access to the frame, which has a record from then on.
    fn record_access(&mut self, frame_id: FrameId)
        requires
            old(self).inv(),
            old(self).can_record(),
        ensures
            final(self).inv(),
            final(self).recorded() == old(self).recorded().insert(frame_id),
            final(self).pinned() == old(self).pinned(),
    ;

    /// Marks the frame as evictable or not; what is on record stays.
    fn set_evictable(&mut self, frame_id: FrameId, evictable: bool)
        requires
            old(self).inv(),
        ensures
            final(self).inv(),
            final(self).can_record() == old(self).can_record(),
            final(self).recorded() == old(self).recorded(),
            final(self).pinned() == if evictable {
                old(self).pinned().remove(frame_id)
            } else {
                old(self).pinned().insert(frame_id)
            },
    ;

    /// Picks a frame to reclaim among those on record and not marked
    /// non-evictable, and forgets it; `None` exactly when there is none.
    fn evict(&mut self) -> (victim: Option<FrameId>)
        requires
            old(self).inv(),
        ensures
            final(self).inv(),
            final(self).can_record() == old(self).can_record(),
            final(self).pinned() == old(self).pinned(),
            match victim {
                Some(f) => {
                    &&& old(self).recorded().contains(f)
                    &&& !old(self).pinned().contains(f)
                    &&& final(self).recorded() == old(self).recorded().remove(f)
                },
                None => {
                    &&& final(self).recorded() == old(self).recorded()
                    &&& forall|f: FrameId|
                        old(self).recorded().contains(f) ==> old(self).pinned().contains(f)
                },
            },
    ;
}

} // verus!
