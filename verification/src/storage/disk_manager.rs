use std::collections::HashMap;
use vstd::prelude::*;
use crate::constants::{DEFAULT_DB_PAGES, PAGE_SIZE};
use crate::errors::DiskError;
use crate::types::{PageId, PageIdRef};

verus! {

broadcast use vstd::std_specs::hash::group_hash_axioms;

/// How the backing file is laid out: where each page that was ever written
/// lives, and how many page slots are taken.
pub struct DiskLayout {
    /// Byte offset of each page that has been written.
    pub offsets: Map<PageId, usize>,
    /// Number of page slots in use, the reserved ones included.
    pub num_pages: nat,
}

impl DiskLayout {
    /// Slots are handed out in order after the reserved region, one per
    /// page, so every page lies past the header, inside the slots in use,
    /// and no two pages overlap.
    pub open spec fn wf(self) -> bool {
        &&& self.offsets.dom().finite()
        &&& self.num_pages == DEFAULT_DB_PAGES + self.offsets.dom().len()
        &&& self.num_pages * PAGE_SIZE <= usize::MAX
        &&& forall|p: PageId| #[trigger]
            self.offsets.contains_key(p) ==> DEFAULT_DB_PAGES * PAGE_SIZE <= self.offsets[p]
                && self.offsets[p] + PAGE_SIZE <= self.num_pages * PAGE_SIZE
        &&& forall|p: PageId, q: PageId|
            #[trigger] self.offsets.contains_key(p) && #[trigger] self.offsets.contains_key(q)
                && p != q ==> self.offsets[p] + PAGE_SIZE <= self.offsets[q] || self.offsets[q]
                + PAGE_SIZE <= self.offsets[p]
    }

    /// Whether one more page can be given a slot whose end is addressable.
    pub open spec fn has_room(self) -> bool {
        (self.num_pages + 1) * PAGE_SIZE <= usize::MAX
    }

    /// The offset that the next page written for the first time receives.
    pub open spec fn next_offset(self) -> int {
        (DEFAULT_DB_PAGES + self.offsets.dom().len()) * PAGE_SIZE
    }

    /// The layout once `p` has been given the next slot.
    pub open spec fn allocate(self, p: PageId) -> DiskLayout {
        DiskLayout {
            offsets: self.offsets.insert(p, self.next_offset() as usize),
            num_pages: self.num_pages + 1,
        }
    }
}

/// The offset bookkeeping of the single backing file: which page lives
/// where, and where the next new page goes. The positioned reads and writes
/// themselves are done by the caller at the offsets this hands out.
pub struct DiskManager {
    page_table: HashMap<PageId, usize>,
    num_pages: usize,
}

impl View for DiskManager {
    type V = DiskLayout;

    closed spec fn view(&self) -> DiskLayout {
        DiskLayout { offsets: self.page_table@, num_pages: self.num_pages as nat }
    }
}

impl DiskManager {
    /// The layout that this manager stands for is well-formed.
    pub open spec fn wf(&self) -> bool {
        self@.wf()
    }

    /// A manager for an empty file: no page has an offset and only the
    /// reserved slots are taken.
    pub fn new() -> (dm: Self)
        ensures
            dm.wf(),
            dm@ == (DiskLayout { offsets: Map::empty(), num_pages: DEFAULT_DB_PAGES as nat }),
    {
        let dm = Self { page_table: HashMap::new(), num_pages: DEFAULT_DB_PAGES };
        assert(dm@.offsets.dom() =~= Set::<PageId>::empty());
        dm
    }

    /// Whether one more page can be given a slot.
    pub fn has_room(&self) -> (room: bool)
        ensures
            room == self@.has_room(),
    {
        self.num_pages < usize::MAX / PAGE_SIZE
    }

    /// Where to read the page from: the offset recorded for it.
    pub fn fetch_page(&self, page_id: PageIdRef) -> (offset: Result<usize, DiskError>)
        ensures
            match page_id {
                None => offset == Err::<usize, DiskError>(DiskError::InvalidPageId),
                Some(p) => if self@.offsets.contains_key(p) {
                    offset == Ok::<usize, DiskError>(self@.offsets[p])
                } else {
                    offset == Err::<usize, DiskError>(DiskError::PageNotFound)
                },
            },
    {
        match page_id {
            None => Err(DiskError::InvalidPageId),
            Some(p) => match self.page_table.get(&p) {
                Some(offset) => Ok(*offset),
                None => Err(DiskError::PageNotFound),
            },
        }
    }

    /// Where to write the page to: its recorded offset, or, the first time
    /// it is written, the next free slot, which it keeps from then on.
    pub fn flush_page(&mut self, page_id: PageIdRef) -> (offset: Result<usize, DiskError>)
        requires
            old(self).wf(),
            page_id is Some && !old(self)@.offsets.contains_key(page_id->Some_0) ==> old(self)@.has_room(),
        ensures
            final(self).wf(),
            page_id is Some ==> final(self)@.offsets.contains_key(page_id->Some_0) && offset
                == Ok::<usize, DiskError>(final(self)@.offsets[page_id->Some_0]),
            match page_id {
                None => offset == Err::<usize, DiskError>(DiskError::InvalidPageId) && final(self)@
                    == old(self)@,
                Some(p) => if old(self)@.offsets.contains_key(p) {
                    offset == Ok::<usize, DiskError>(old(self)@.offsets[p]) && final(self)@ == old(self)@
                } else {
                    offset == Ok::<usize, DiskError>(old(self)@.next_offset() as usize) && final(self)@ == old(self)@.allocate(p)
                },
            },
    {
        match page_id {
            None => Err(DiskError::InvalidPageId),
            Some(p) => {
                let known: Option<usize> = match self.page_table.get(&p) {
                    Some(offset) => Some(*offset),
                    None => None,
                };
                match known {
                    Some(offset) => Ok(offset),
                    None => {
                        let ghost before = self@;
                        let offset: usize = self.allocate_page();
                        self.page_table.insert(p, offset);
                        proof {
                            assert(self@.offsets == before.offsets.insert(p, offset));
                            assert(self@.offsets.dom() =~= before.offsets.dom().insert(p));
                            assert(self@ == before.allocate(p));
                            assert forall|q: PageId| #[trigger]
                                self@.offsets.contains_key(q) implies DEFAULT_DB_PAGES * PAGE_SIZE
                                <= self@.offsets[q] && self@.offsets[q] + PAGE_SIZE
                                <= self@.num_pages * PAGE_SIZE by {
                                if q != p {
                                    assert(before.offsets.contains_key(q));
                                }
                            }
                            assert forall|q: PageId, r: PageId|
                                #[trigger] self@.offsets.contains_key(q)
                                    && #[trigger] self@.offsets.contains_key(r) && q
                                    != r implies self@.offsets[q] + PAGE_SIZE <= self@.offsets[r]
                                || self@.offsets[r] + PAGE_SIZE <= self@.offsets[q] by {
                                if q != p {
                                    assert(before.offsets.contains_key(q));
                                }
                                if r != p {
                                    assert(before.offsets.contains_key(r));
                                }
                            }
                        }
                        Ok(offset)
                    },
                }
            },
        }
    }

    /// Deleting a page on disk is not provided: every call is refused, and
    /// nothing changes.
    pub fn delete_page(&self, _page_id: PageIdRef) -> (outcome: Result<(), DiskError>)
        ensures
            outcome == Err::<(), DiskError>(DiskError::Unsupported),
    {
        Err(DiskError::Unsupported)
    }

    /// Takes the next page slot and returns its byte offset.
    fn allocate_page(&mut self) -> (offset: usize)
        requires
            (old(self).num_pages + 1) * PAGE_SIZE <= usize::MAX,
        ensures
            offset == old(self).num_pages * PAGE_SIZE,
            final(self).num_pages == old(self).num_pages + 1,
            final(self).page_table == old(self).page_table,
    {
        let offset: usize = self.num_pages * PAGE_SIZE;
        self.num_pages += 1;
        offset
    }
}

/// The byte ranges of two different pages never overlap, so what is written
/// for one page is never overwritten by a write for another.
pub proof fn lemma_pages_disjoint(layout: DiskLayout, p: PageId, q: PageId)
    requires
        layout.wf(),
        layout.offsets.contains_key(p),
        layout.offsets.contains_key(q),
        p != q,
    ensures
        layout.offsets[p] + PAGE_SIZE <= layout.offsets[q] || layout.offsets[q] + PAGE_SIZE
            <= layout.offsets[p],
{
}

/// A page keeps the offset it was first given: allocating a slot for
/// another page moves none of those already placed.
pub proof fn lemma_offsets_stable(layout: DiskLayout, p: PageId, q: PageId)
    requires
        layout.wf(),
        layout.offsets.contains_key(p),
        !layout.offsets.contains_key(q),
    ensures
        layout.allocate(q).offsets.contains_key(p),
        layout.allocate(q).offsets[p] == layout.offsets[p],
{
}

/// The contents of a file after `bytes` are written at `offset`: the file
/// grows as far as the write reaches, and a gap is filled with zeros.
pub open spec fn written_at(file: Seq<u8>, offset: int, bytes: Seq<u8>) -> Seq<u8> {
    let end = offset + bytes.len();
    let len = if file.len() >= end {
        file.len() as int
    } else {
        end
    };
    Seq::new(
        len as nat,
        |i: int|
            if offset <= i < end {
                bytes[i - offset]
            } else if i < file.len() {
                file[i]
            } else {
                0u8
            },
    )
}

/// What a read of one page at `offset` finds in a file.
pub open spec fn page_at(file: Seq<u8>, offset: int) -> Seq<u8> {
    file.subrange(offset, offset + PAGE_SIZE)
}

/// A page written at its offset is read back from that offset as written,
/// and a page written in between at the offset of another page does not
/// change what is read.
pub proof fn lemma_round_trip(
    layout: DiskLayout,
    file: Seq<u8>,
    p: PageId,
    bytes: Seq<u8>,
    q: PageId,
    other: Seq<u8>,
)
    requires
        layout.wf(),
        layout.offsets.contains_key(p),
        layout.offsets.contains_key(q),
        p != q,
        bytes.len() == PAGE_SIZE,
        other.len() == PAGE_SIZE,
    ensures
        page_at(written_at(file, layout.offsets[p] as int, bytes), layout.offsets[p] as int)
            == bytes,
        page_at(
            written_at(
                written_at(file, layout.offsets[p] as int, bytes),
                layout.offsets[q] as int,
                other,
            ),
            layout.offsets[p] as int,
        ) == bytes,
{
    let at_p = layout.offsets[p] as int;
    let at_q = layout.offsets[q] as int;
    let once = written_at(file, at_p, bytes);
    let twice = written_at(once, at_q, other);
    assert(page_at(once, at_p) =~= bytes);
    assert(page_at(twice, at_p) =~= bytes);
}

} // verus!
