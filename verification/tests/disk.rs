use storage_core::constants::{DEFAULT_DB_PAGES, PAGE_SIZE};
use storage_core::errors::DiskError;
use storage_core::storage::disk_manager::DiskManager;
use storage_core::storage::page::Page;

#[test]
fn page_starts_zeroed() {
    let page = Page::new();
    assert_eq!(page.as_slice().len(), PAGE_SIZE);
    assert_eq!(PAGE_SIZE, 4096);
    assert!(page.as_slice().iter().all(|b| *b == 0));
}

#[test]
fn page_keeps_what_is_written() {
    let mut page = Page::new();
    page.as_mut_slice()[0..4].copy_from_slice(&123u32.to_le_bytes());
    page.as_mut_slice()[PAGE_SIZE - 1] = 9;
    assert_eq!(&page.as_slice()[0..4], &[123u8, 0, 0, 0]);
    assert_eq!(page.as_slice()[PAGE_SIZE - 1], 9);
    assert!(page.as_slice()[4..PAGE_SIZE - 1].iter().all(|b| *b == 0));
}

#[test]
fn first_writes_take_slots_in_order() {
    let mut dm = DiskManager::new();
    let base = DEFAULT_DB_PAGES * PAGE_SIZE;
    assert_eq!(dm.flush_page(Some(7)).unwrap(), base);
    assert_eq!(dm.flush_page(Some(3)).unwrap(), base + PAGE_SIZE);
    assert_eq!(dm.flush_page(Some(100)).unwrap(), base + 2 * PAGE_SIZE);
}

#[test]
fn rewrite_reuses_the_offset() {
    let mut dm = DiskManager::new();
    let first = dm.flush_page(Some(1)).unwrap();
    let second = dm.flush_page(Some(2)).unwrap();
    assert_eq!(dm.flush_page(Some(1)).unwrap(), first);
    assert_eq!(dm.flush_page(Some(2)).unwrap(), second);
    assert_eq!(dm.flush_page(Some(3)).unwrap(), (DEFAULT_DB_PAGES + 2) * PAGE_SIZE);
}

#[test]
fn read_resolves_to_the_offset_written() {
    let mut dm = DiskManager::new();
    let a = dm.flush_page(Some(11)).unwrap();
    let b = dm.flush_page(Some(12)).unwrap();
    assert_eq!(dm.fetch_page(Some(11)).unwrap(), a);
    assert_eq!(dm.fetch_page(Some(12)).unwrap(), b);
    assert_ne!(a, b);
}

#[test]
fn absent_id_is_invalid() {
    let mut dm = DiskManager::new();
    assert!(matches!(dm.fetch_page(None), Err(DiskError::InvalidPageId)));
    assert!(matches!(dm.flush_page(None), Err(DiskError::InvalidPageId)));
    // Nothing was allocated by the refused write.
    assert_eq!(dm.flush_page(Some(1)).unwrap(), DEFAULT_DB_PAGES * PAGE_SIZE);
}

#[test]
fn unwritten_page_is_not_found() {
    let mut dm = DiskManager::new();
    assert!(matches!(dm.fetch_page(Some(1)), Err(DiskError::PageNotFound)));
    dm.flush_page(Some(2)).unwrap();
    assert!(matches!(dm.fetch_page(Some(1)), Err(DiskError::PageNotFound)));
}

#[test]
fn delete_on_disk_is_unsupported() {
    let dm = DiskManager::new();
    assert!(matches!(dm.delete_page(Some(1)), Err(DiskError::Unsupported)));
    assert!(matches!(dm.delete_page(None), Err(DiskError::Unsupported)));
}

#[test]
fn error_messages() {
    assert_eq!(DiskError::InvalidPageId.message(), "Invalid page ID");
    assert_eq!(DiskError::PageNotFound.message(), "Page not found");
    assert_eq!(DiskError::PoolExhausted.message(), "Buffer pool exhausted");
    assert_eq!(DiskError::Unsupported.message(), "Unsupported operation");
    assert_eq!(DiskError::PageNotFound.message_with("ignored"), "Page not found");
}

#[test]
fn io_fault_is_wrapped_and_shown() {
    let fault = std::io::Error::new(std::io::ErrorKind::Other, "disk on fire");
    let err = DiskError::from(fault);
    assert!(matches!(err, DiskError::Io(_)));
    assert_eq!(err.message(), "I/O error: disk on fire");
    assert_eq!(err.message_with("x"), "I/O error: x");
}

#[test]
fn pages_round_trip_through_their_offsets() {
    let mut dm = DiskManager::new();
    let mut file: Vec<u8> = Vec::new();
    for id in [1usize, 2, 3] {
        let mut page = Page::new();
        page.as_mut_slice()[0..4].copy_from_slice(&(120 + id as u32).to_le_bytes());
        let offset = dm.flush_page(Some(id)).unwrap();
        if file.len() < offset + PAGE_SIZE {
            file.resize(offset + PAGE_SIZE, 0);
        }
        file[offset..offset + PAGE_SIZE].copy_from_slice(page.as_slice());
    }
    // Page 1 is written once more, with other bytes.
    let mut page = Page::new();
    page.as_mut_slice()[0..4].copy_from_slice(&123u32.to_le_bytes());
    let offset = dm.flush_page(Some(1)).unwrap();
    file[offset..offset + PAGE_SIZE].copy_from_slice(page.as_slice());

    let expected = [(1usize, 123u32), (2, 122), (3, 123)];
    for (id, value) in expected {
        let offset = dm.fetch_page(Some(id)).unwrap();
        let mut read = Page::new();
        read.as_mut_slice().copy_from_slice(&file[offset..offset + PAGE_SIZE]);
        let got = u32::from_le_bytes([
            read.as_slice()[0],
            read.as_slice()[1],
            read.as_slice()[2],
            read.as_slice()[3],
        ]);
        assert_eq!(got, value);
        assert!(read.as_slice()[4..].iter().all(|b| *b == 0));
    }
    assert_eq!(file.len(), (DEFAULT_DB_PAGES + 3) * PAGE_SIZE);
}
