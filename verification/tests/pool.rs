use storage_core::buffer::buffer_pool_manager::{BufferBoolManager, NewPage, PoolStep};
use storage_core::buffer::replacer::lru_k_replacer::LruKReplacer;
use storage_core::constants::PAGE_SIZE;
use storage_core::errors::DiskError;
use storage_core::storage::page::Page;

fn pool(capacity: usize) -> BufferBoolManager<LruKReplacer> {
    BufferBoolManager::new(capacity, LruKReplacer::new(2))
}

fn page_of(bytes: &[u8]) -> Page {
    let mut page = Page::new();
    page.as_mut_slice().copy_from_slice(bytes);
    page
}

fn created(made: Result<NewPage, DiskError>) -> (usize, usize) {
    match made {
        Ok(NewPage::Created(page_id, frame_id)) => (page_id, frame_id),
        other => panic!("no page was created: {:?}", other),
    }
}

#[test]
fn fresh_pool_has_every_frame_free() {
    let pool = pool(3);
    assert_eq!(pool.frames.len(), 3);
    assert_eq!(pool.free_list.len(), 3);
    assert!(pool.page_table.is_empty());
    for (i, frame) in pool.frames.iter().enumerate() {
        assert_eq!(frame.frame_id, i);
        assert_eq!(frame.page_id, None);
        assert_eq!(frame.pin_count, 0);
        assert!(!frame.is_dirty);
        assert_eq!(frame.data.len(), PAGE_SIZE);
    }
}

#[test]
fn new_pages_get_fresh_ids_and_zeroed_pinned_frames() {
    let mut pool = pool(3);
    let (pa, fa) = created(pool.new_page());
    let (pb, fb) = created(pool.new_page());
    assert_eq!((pa, pb), (0, 1));
    assert_ne!(fa, fb);
    assert_eq!(pool.frames[fa].page_id, Some(0));
    assert_eq!(pool.frames[fb].page_id, Some(1));
    assert_eq!(pool.frames[fa].pin_count, 1);
    assert!(!pool.frames[fa].is_dirty);
    assert_eq!(pool.frames[fa].data, vec![0u8; PAGE_SIZE]);
    assert_eq!(pool.page_table.get(&0), Some(&fa));
    assert_eq!(pool.free_list.len(), 1);
    assert!(!pool.free_list.contains(&fa));
    assert!(!pool.free_list.contains(&fb));
}

#[test]
fn fetch_of_resident_page_pins_it_again() {
    let mut pool = pool(2);
    let (pa, fa) = created(pool.new_page());
    assert_eq!(pool.fetch_page(Some(pa)).unwrap(), PoolStep::Ready(fa));
    assert_eq!(pool.frames[fa].pin_count, 2);
    assert_eq!(pool.unpin_page(Some(pa), false).unwrap(), ());
    assert_eq!(pool.frames[fa].pin_count, 1);
}

#[test]
fn full_pool_of_pinned_pages_is_exhausted() {
    let mut pool = pool(2);
    let (pa, fa) = created(pool.new_page());
    pool.unpin_page(Some(pa), false).unwrap();
    let (pb, fb) = created(pool.new_page());
    // The third page takes the frame of the unpinned, clean first one.
    let (pc, fc) = created(pool.new_page());
    assert_eq!(fc, fa);
    assert_eq!((pb, pc), (1, 2));
    assert!(matches!(pool.new_page(), Err(DiskError::PoolExhausted)));
    assert!(matches!(pool.fetch_page(Some(pa)), Err(DiskError::PoolExhausted)));
    assert_eq!(pool.frames[fb].pin_count, 1);
    assert_eq!(pool.frames[fc].pin_count, 1);
    assert_eq!(pool.frames[fb].page_id, Some(pb));
    assert_eq!(pool.frames[fc].page_id, Some(pc));
    assert_eq!(pool.page_table.len(), 2);
    // No id was spent on the refused request.
    pool.unpin_page(Some(pb), false).unwrap();
    assert_eq!(created(pool.new_page()), (3, fb));
}

#[test]
fn pinned_frame_is_not_reused() {
    let mut pool = pool(2);
    let (pa, fa) = created(pool.new_page());
    let (pb, fb) = created(pool.new_page());
    pool.unpin_page(Some(pb), false).unwrap();
    let (_, fc) = created(pool.new_page());
    assert_eq!(fc, fb);
    assert_eq!(pool.frames[fa].page_id, Some(pa));
    assert_eq!(pool.frames[fa].pin_count, 1);
    assert_eq!(pool.page_table.get(&pb), None);
}

#[test]
fn dirty_victim_is_written_back_before_reuse() {
    let mut pool = pool(1);
    let (pa, fa) = created(pool.new_page());
    pool.frames[fa].data[0] = 42;
    pool.unpin_page(Some(pa), true).unwrap();
    assert!(pool.frames[fa].is_dirty);
    assert_eq!(pool.new_page().unwrap(), NewPage::WriteBack(fa, pa));
    // The dirty page is still there, untouched.
    assert_eq!(pool.frames[fa].page_id, Some(pa));
    assert!(pool.frames[fa].is_dirty);
    assert_eq!(pool.frames[fa].data[0], 42);
    assert_eq!(pool.flush_page(Some(pa)).unwrap(), fa);
    pool.page_flushed(Some(pa)).unwrap();
    assert!(!pool.frames[fa].is_dirty);
    pool.delete_page(Some(pa)).unwrap();
    assert_eq!(created(pool.new_page()), (1, fa));
    assert_eq!(pool.frames[fa].data, vec![0u8; PAGE_SIZE]);
}

#[test]
fn page_comes_back_as_it_was_written() {
    let mut pool = pool(1);
    let (pa, fa) = created(pool.new_page());
    pool.frames[fa].data[7] = 9;
    pool.unpin_page(Some(pa), true).unwrap();
    let frame = pool.flush_page(Some(pa)).unwrap();
    let on_disk = pool.frames[frame].data.clone();
    pool.page_flushed(Some(pa)).unwrap();
    let (pb, _) = created(pool.new_page());
    assert_eq!(pool.page_table.get(&pa), None);
    pool.unpin_page(Some(pb), false).unwrap();
    assert_eq!(pool.fetch_page(Some(pa)).unwrap(), PoolStep::Load);
    let f = pool.install_page(Some(pa), &page_of(&on_disk)).unwrap();
    assert_eq!(pool.frames[f].page_id, Some(pa));
    assert_eq!(pool.frames[f].pin_count, 1);
    assert!(!pool.frames[f].is_dirty);
    assert_eq!(pool.frames[f].data, on_disk);
    assert_eq!(pool.frames[f].data[7], 9);
}

#[test]
fn victim_is_chosen_by_lru_k() {
    let mut pool = pool(2);
    let (pa, fa) = created(pool.new_page());
    let (pb, fb) = created(pool.new_page());
    assert_eq!(pool.fetch_page(Some(pa)).unwrap(), PoolStep::Ready(fa));
    pool.unpin_page(Some(pa), false).unwrap();
    pool.unpin_page(Some(pa), false).unwrap();
    pool.unpin_page(Some(pb), false).unwrap();
    // Frame fa has two accesses on record, fb only one.
    let (_, fc) = created(pool.new_page());
    assert_eq!(fc, fb);
}

#[test]
fn absent_id_is_refused_by_the_pool() {
    let mut pool = pool(2);
    let (_, fa) = created(pool.new_page());
    assert!(matches!(pool.fetch_page(None), Err(DiskError::InvalidPageId)));
    assert!(matches!(pool.unpin_page(None, true), Err(DiskError::InvalidPageId)));
    assert!(matches!(pool.flush_page(None), Err(DiskError::InvalidPageId)));
    assert!(matches!(pool.page_flushed(None), Err(DiskError::InvalidPageId)));
    assert!(matches!(pool.delete_page(None), Err(DiskError::InvalidPageId)));
    assert!(matches!(
        pool.install_page(None, &page_of(&[1u8; PAGE_SIZE])),
        Err(DiskError::InvalidPageId)
    ));
    assert_eq!(pool.frames[fa].pin_count, 1);
    assert!(!pool.frames[fa].is_dirty);
    assert_eq!(pool.free_list.len(), 1);
    assert_eq!(pool.page_table.len(), 1);
    assert_eq!(pool.next_page_id, 1);
}

#[test]
fn unknown_pages_are_not_found() {
    let mut pool = pool(2);
    assert!(matches!(pool.fetch_page(Some(0)), Err(DiskError::PageNotFound)));
    assert!(matches!(pool.unpin_page(Some(0), false), Err(DiskError::PageNotFound)));
    assert!(matches!(pool.flush_page(Some(0)), Err(DiskError::PageNotFound)));
    assert!(matches!(pool.page_flushed(Some(0)), Err(DiskError::PageNotFound)));
    assert!(matches!(pool.delete_page(Some(0)), Err(DiskError::PageNotFound)));
    assert!(matches!(
        pool.install_page(Some(0), &Page::new()),
        Err(DiskError::PageNotFound)
    ));
    assert_eq!(pool.free_list.len(), 2);
}

#[test]
fn unpin_counts_down_and_keeps_dirt() {
    let mut pool = pool(1);
    let (pa, fa) = created(pool.new_page());
    pool.fetch_page(Some(pa)).unwrap();
    pool.unpin_page(Some(pa), true).unwrap();
    assert_eq!(pool.frames[fa].pin_count, 1);
    assert!(pool.frames[fa].is_dirty);
    pool.unpin_page(Some(pa), false).unwrap();
    assert_eq!(pool.frames[fa].pin_count, 0);
    assert!(pool.frames[fa].is_dirty);
    // Without a pin left nothing changes.
    pool.unpin_page(Some(pa), false).unwrap();
    assert_eq!(pool.frames[fa].pin_count, 0);
    assert!(pool.frames[fa].is_dirty);
}

#[test]
fn delete_needs_an_unpinned_page() {
    let mut pool = pool(2);
    let (pa, fa) = created(pool.new_page());
    assert!(matches!(pool.delete_page(Some(pa)), Err(DiskError::PoolExhausted)));
    assert_eq!(pool.frames[fa].page_id, Some(pa));
    pool.unpin_page(Some(pa), true).unwrap();
    pool.delete_page(Some(pa)).unwrap();
    assert_eq!(pool.frames[fa].page_id, None);
    assert_eq!(pool.frames[fa].pin_count, 0);
    assert!(!pool.frames[fa].is_dirty);
    assert!(pool.free_list.contains(&fa));
    assert_eq!(pool.page_table.get(&pa), None);
    assert_eq!(pool.free_list.len(), 2);
}

#[test]
fn installing_a_resident_page_pins_the_resident_copy() {
    let mut pool = pool(2);
    let (pa, fa) = created(pool.new_page());
    pool.frames[fa].data[0] = 5;
    assert_eq!(pool.install_page(Some(pa), &page_of(&[1u8; PAGE_SIZE])).unwrap(), fa);
    assert_eq!(pool.frames[fa].pin_count, 2);
    assert_eq!(pool.frames[fa].data[0], 5);
    assert_eq!(pool.free_list.len(), 1);
}
