use north_db::heap::page_format::{MAGIC_OFFSET, SLOT_GENERATION};
use north_db::heap::{SlottedPage, SlottedPageError, SLOT_ENTRY_SIZE};
use north_db::storage::{
    Page, PageError, PageId, Rid, SlotId, PAGE_HEADER_SIZE, PAGE_SIZE, RID_SIZE,
};

#[test]
fn page_id_maps_to_file_offset() {
    assert_eq!(PageId::new(3).file_offset(), 24 * 1024);
}

#[test]
fn integer_access_is_little_endian_and_marks_page_dirty() {
    let mut page = Page::zeroed(PageId::new(1));
    page.write_u32(20, 0x1234_5678).unwrap();
    assert_eq!(&page.as_bytes()[20..24], &[0x78, 0x56, 0x34, 0x12]);
    assert_eq!(page.read_u32(20).unwrap(), 0x1234_5678);
    assert!(page.is_dirty());
}

#[test]
fn rejects_access_beyond_page_boundary() {
    let mut page = Page::zeroed(PageId::new(0));
    assert!(page.write(PAGE_SIZE - 1, &[1, 2]).is_err());
    assert!(page.read(PAGE_SIZE, 1).is_err());
}

#[test]
fn refused_access_names_offset_and_length_and_changes_nothing() {
    let mut page = Page::zeroed(PageId::new(4));
    assert_eq!(
        page.write(PAGE_SIZE - 1, &[1, 2]),
        Err(PageError::OutOfBounds { offset: PAGE_SIZE - 1, length: 2 })
    );
    assert_eq!(
        page.read(usize::MAX, 1),
        Err(PageError::OutOfBounds { offset: usize::MAX, length: 1 })
    );
    assert_eq!(
        page.write_u16(PAGE_SIZE - 1, 7),
        Err(PageError::OutOfBounds { offset: PAGE_SIZE - 1, length: 2 })
    );
    assert_eq!(
        page.read_u32(PAGE_SIZE - 3),
        Err(PageError::OutOfBounds { offset: PAGE_SIZE - 3, length: 4 })
    );
    assert!(!page.is_dirty());
    assert_eq!(page.as_bytes(), &[0; PAGE_SIZE]);
}

#[test]
fn pages_keep_bytes_and_become_clean() {
    let mut bytes = Box::new([0u8; PAGE_SIZE]);
    bytes[PAGE_SIZE - 1] = 9;
    let mut page = Page::from_bytes(PageId::new(2), bytes);
    assert!(!page.is_dirty());
    assert_eq!(page.read(PAGE_SIZE - 1, 1).unwrap(), &[9]);
    page.write_u16(0, 0xabcd).unwrap();
    assert_eq!(page.read_u16(0).unwrap(), 0xabcd);
    assert_eq!(page.read(0, 2).unwrap(), &[0xcd, 0xab]);
    page.mark_clean();
    assert!(!page.is_dirty());
    assert_eq!(page.id(), PageId::new(2));
}

#[test]
fn page_ids_encode_in_little_endian() {
    let id = PageId::new(0x0102_0304);
    assert_eq!(id.to_le_bytes(), [4, 3, 2, 1]);
    assert_eq!(PageId::from_le_bytes([4, 3, 2, 1]), id);
    assert_eq!(id.get(), 0x0102_0304);
    assert_eq!(PageId::new(u32::MAX).file_offset(), u64::from(u32::MAX) * 8192);
}

#[test]
fn rid_round_trips_through_stable_encoding() {
    let rid = Rid::new(PageId::new(0x1234_5678), SlotId::new(0x9abc), 0xdef0);
    let encoded = rid.encode();
    assert_eq!(encoded, [0x78, 0x56, 0x34, 0x12, 0xbc, 0x9a, 0xf0, 0xde]);
    assert_eq!(Rid::decode(encoded), rid);
}

#[test]
fn decoded_rids_encode_to_the_same_bytes() {
    let bytes: [u8; RID_SIZE] = [1, 2, 3, 4, 5, 6, 7, 8];
    let rid = Rid::decode(bytes);
    assert_eq!(rid.page_id(), PageId::new(0x0403_0201));
    assert_eq!(rid.slot_id().get(), 0x0605);
    assert_eq!(rid.generation(), 0x0807);
    assert_eq!(rid.encode(), bytes);
}

#[test]
fn new_page_has_expected_layout() {
    let page = SlottedPage::new(PageId::new(7));
    assert_eq!(page.page_id(), PageId::new(7));
    assert_eq!(page.slot_count(), 0);
    assert_eq!(page.live_count(), 0);
    assert_eq!(page.contiguous_free_space(), PAGE_SIZE - PAGE_HEADER_SIZE);
    assert_eq!(page.next_page_id(), None);
}

#[test]
fn inserts_and_reads_variable_length_records() {
    let mut page = SlottedPage::new(PageId::new(3));
    let first = page.insert(b"north").unwrap();
    let second = page.insert(b"database engine").unwrap();

    assert_eq!(page.get(first).unwrap(), b"north");
    assert_eq!(page.get(second).unwrap(), b"database engine");
    assert_eq!(page.slot_count(), 2);
    assert_eq!(page.live_count(), 2);
}

#[test]
fn deletion_invalidates_old_rid_and_reuses_slot_safely() {
    let mut page = SlottedPage::new(PageId::new(9));
    let old = page.insert(b"old row").unwrap();
    page.delete(old).unwrap();
    assert!(matches!(
        page.get(old),
        Err(SlottedPageError::InvalidRid(_))
    ));

    let replacement = page.insert(b"new row").unwrap();
    assert_eq!(replacement.slot_id(), old.slot_id());
    assert_eq!(replacement.generation(), old.generation() + 1);
    assert_eq!(page.get(replacement).unwrap(), b"new row");
    assert!(matches!(
        page.get(old),
        Err(SlottedPageError::InvalidRid(_))
    ));
}

#[test]
fn insertion_compacts_deleted_record_space() {
    let mut page = SlottedPage::new(PageId::new(11));
    let first = page.insert(&vec![1; 3_000]).unwrap();
    let second = page.insert(&vec![2; 3_000]).unwrap();
    page.delete(first).unwrap();

    let third = page.insert(&vec![3; 2_500]).unwrap();
    assert_eq!(page.get(second).unwrap(), &vec![2; 3_000]);
    assert_eq!(page.get(third).unwrap(), &vec![3; 2_500]);
    assert_eq!(page.live_count(), 2);
}

#[test]
fn compaction_preserves_live_rids() {
    let mut page = SlottedPage::new(PageId::new(12));
    let first = page.insert(b"first").unwrap();
    let second = page.insert(b"second").unwrap();
    let third = page.insert(b"third").unwrap();
    page.delete(second).unwrap();

    page.compact().unwrap();
    assert_eq!(page.get(first).unwrap(), b"first");
    assert_eq!(page.get(third).unwrap(), b"third");
}

#[test]
fn reports_no_space_without_modifying_live_rows() {
    let mut page = SlottedPage::new(PageId::new(13));
    let existing = page.insert(&vec![4; 7_000]).unwrap();
    let result = page.insert(&vec![5; 2_000]);
    assert!(matches!(result, Err(SlottedPageError::NoSpace { .. })));
    assert_eq!(page.get(existing).unwrap(), &vec![4; 7_000]);
    assert_eq!(page.live_count(), 1);
}

#[test]
fn survives_conversion_to_and_from_raw_page() {
    let mut original = SlottedPage::new(PageId::new(14));
    let rid = original.insert(b"persistent bytes").unwrap();
    let reopened = SlottedPage::from_page(original.into_page()).unwrap();
    assert_eq!(reopened.get(rid).unwrap(), b"persistent bytes");
}

#[test]
fn rejects_corrupt_page_magic() {
    let mut raw = Page::zeroed(PageId::new(15));
    raw.write(MAGIC_OFFSET, b"NOPE").unwrap();
    assert!(matches!(
        SlottedPage::from_page(raw),
        Err(SlottedPageError::Corrupt("invalid heap-page magic"))
    ));
}

#[test]
fn stores_heap_page_link() {
    let mut page = SlottedPage::new(PageId::new(16));
    page.set_next_page_id(Some(PageId::new(17)));
    assert_eq!(page.next_page_id(), Some(PageId::new(17)));
    page.set_next_page_id(None);
    assert_eq!(page.next_page_id(), None);
}

#[test]
fn generation_exhaustion_retires_slot() {
    let mut page = SlottedPage::new(PageId::new(18));
    let rid = page.insert(b"last generation").unwrap();
    let mut raw = page.into_page();
    let entry = PAGE_HEADER_SIZE + usize::from(rid.slot_id().get()) * SLOT_ENTRY_SIZE;
    raw.write_u16(entry + SLOT_GENERATION, u16::MAX).unwrap();
    let mut page = SlottedPage::from_page(raw).unwrap();
    let exhausted = Rid::new(page.page_id(), rid.slot_id(), u16::MAX);

    page.delete(exhausted).unwrap();
    let next = page.insert(b"different slot").unwrap();
    assert_ne!(next.slot_id(), exhausted.slot_id());
}

#[test]
fn largest_link_reads_back_as_no_link() {
    let mut page = SlottedPage::new(PageId::new(16));
    page.set_next_page_id(Some(PageId::new(u32::MAX)));
    assert_eq!(page.next_page_id(), None);
}

#[test]
fn insertion_reports_required_and_available_bytes() {
    let mut page = SlottedPage::new(PageId::new(20));
    page.insert(&vec![1; 7_000]).unwrap();
    assert_eq!(
        page.insert(&vec![2; 2_000]),
        Err(SlottedPageError::NoSpace { required: 2_008, available: 1_152 })
    );
    assert_eq!(
        page.insert(&vec![2; 70_000]),
        Err(SlottedPageError::RecordTooLarge { size: 70_000 })
    );
}

#[test]
fn a_row_can_fill_the_whole_page() {
    let mut page = SlottedPage::new(PageId::new(21));
    let rid = page.insert(&vec![7; 8_152]).unwrap();
    assert_eq!(page.contiguous_free_space(), 0);
    assert_eq!(page.get(rid).unwrap(), &vec![7; 8_152]);
    assert_eq!(
        page.insert(b""),
        Err(SlottedPageError::Corrupt("page metadata and live records exceed page size"))
    );
    page.delete(rid).unwrap();
    let again = page.insert(&vec![8; 8_152]).unwrap();
    assert_eq!(again, Rid::new(PageId::new(21), SlotId::new(0), 2));
}

#[test]
fn empty_rows_are_stored_and_listed() {
    let mut page = SlottedPage::new(PageId::new(22));
    let empty = page.insert(b"").unwrap();
    let other = page.insert(b"x").unwrap();
    assert_eq!(page.get(empty).unwrap(), b"");
    assert_eq!(page.live_rids(), vec![empty, other]);
    page.delete(empty).unwrap();
    assert_eq!(page.live_rids(), vec![other]);
    assert_eq!(page.delete(empty), Err(SlottedPageError::InvalidRid(empty)));
}

#[test]
fn rids_of_other_pages_and_slots_are_invalid() {
    let mut page = SlottedPage::new(PageId::new(23));
    let rid = page.insert(b"row").unwrap();
    let elsewhere = Rid::new(PageId::new(24), rid.slot_id(), rid.generation());
    assert_eq!(page.get(elsewhere), Err(SlottedPageError::InvalidRid(elsewhere)));
    let beyond = Rid::new(PageId::new(23), SlotId::new(1), 1);
    assert_eq!(page.get(beyond), Err(SlottedPageError::InvalidRid(beyond)));
    let older = Rid::new(PageId::new(23), rid.slot_id(), 0);
    assert_eq!(page.get(older), Err(SlottedPageError::InvalidRid(older)));
}

fn page_with_two_rows() -> Page {
    let mut page = SlottedPage::new(PageId::new(30));
    page.insert(b"abcd").unwrap();
    page.insert(b"efgh").unwrap();
    page.into_page()
}

fn fault_after(offset: usize, value: u16) -> &'static str {
    let mut raw = page_with_two_rows();
    raw.write_u16(offset, value).unwrap();
    match SlottedPage::from_page(raw) {
        Err(SlottedPageError::Corrupt(reason)) => reason,
        _ => "none",
    }
}

#[test]
fn validation_finds_each_kind_of_corruption() {
    assert!(SlottedPage::from_page(page_with_two_rows()).is_ok());
    assert_eq!(fault_after(0, 0), "invalid heap-page magic");
    assert_eq!(fault_after(4, 0x0102), "unsupported heap-page version");
    assert_eq!(fault_after(4, 0x0201), "page is not a heap page");
    assert_eq!(fault_after(8, 3), "invalid slot-directory boundary");
    assert_eq!(fault_after(12, 40), "invalid free-space boundary");
    assert_eq!(fault_after(12, 9_000), "invalid free-space boundary");
    assert_eq!(fault_after(32 + 6, 3), "invalid slot flags");
    assert_eq!(fault_after(32 + 4, 0), "live slot has generation zero");
    assert_eq!(fault_after(32 + 2, 5), "record exceeds page boundary");
    assert_eq!(fault_after(32, 100), "record begins inside free space");
    assert_eq!(fault_after(32 + 6, 0), "non-live slot references record data");
    assert_eq!(fault_after(14, 1), "incorrect live slot count");
    assert_eq!(fault_after(32, 8_186), "live records overlap");
}

#[test]
fn retired_slots_survive_reopening() {
    let mut page = SlottedPage::new(PageId::new(31));
    let rid = page.insert(b"row").unwrap();
    let mut raw = page.into_page();
    raw.write_u16(32 + 4, u16::MAX).unwrap();
    let mut page = SlottedPage::from_page(raw).unwrap();
    page.delete(Rid::new(PageId::new(31), rid.slot_id(), u16::MAX)).unwrap();
    let mut reopened = SlottedPage::from_page(page.into_page()).unwrap();
    assert_eq!(reopened.live_count(), 0);
    assert_eq!(reopened.insert(b"next").unwrap(), Rid::new(PageId::new(31), SlotId::new(1), 1));
}

#[test]
fn compaction_gathers_all_free_space() {
    let mut page = SlottedPage::new(PageId::new(32));
    let first = page.insert(&vec![1; 100]).unwrap();
    let second = page.insert(&vec![2; 200]).unwrap();
    page.delete(first).unwrap();
    assert_eq!(page.contiguous_free_space(), 8_192 - 32 - 16 - 300);
    page.compact().unwrap();
    assert_eq!(page.contiguous_free_space(), 8_192 - 32 - 16 - 200);
    assert_eq!(page.get(second).unwrap(), &vec![2; 200]);
    assert!(page.page().is_dirty());
}

#[test]
fn compaction_packs_rows_by_slot_and_clears_the_free_space() {
    let mut page = SlottedPage::new(PageId::new(30));
    let first = page.insert(&[1; 10]).unwrap();
    page.insert(&[2; 20]).unwrap();
    page.insert(&[3; 30]).unwrap();
    page.delete(first).unwrap();
    page.insert(&[4; 5]).unwrap();
    page.compact().unwrap();

    let bytes = page.page().as_bytes();
    assert!(bytes[8187..].iter().all(|byte| *byte == 4));
    assert!(bytes[8167..8187].iter().all(|byte| *byte == 2));
    assert!(bytes[8137..8167].iter().all(|byte| *byte == 3));
    assert!(bytes[32 + 3 * 8..8137].iter().all(|byte| *byte == 0));
    assert_eq!(bytes[32..34], 8187_u16.to_le_bytes());
    assert_eq!(bytes[40..42], 8167_u16.to_le_bytes());
    assert_eq!(bytes[48..50], 8137_u16.to_le_bytes());
}

#[test]
fn a_second_compaction_changes_no_byte() {
    let mut page = SlottedPage::new(PageId::new(31));
    let first = page.insert(&[1; 100]).unwrap();
    page.insert(&[2; 200]).unwrap();
    page.insert(b"").unwrap();
    page.delete(first).unwrap();
    page.compact().unwrap();
    let bytes = *page.page().as_bytes();
    page.compact().unwrap();
    assert!(*page.page().as_bytes() == bytes);
}

#[test]
fn row_operations_keep_the_reserved_header_fields() {
    let mut raw = SlottedPage::new(PageId::new(32)).into_page();
    raw.write(6, &[9, 8]).unwrap();
    raw.write(20, &[1, 2, 3, 4, 5, 6, 7, 8, 9, 10, 11, 12]).unwrap();
    let mut page = SlottedPage::from_page(raw).unwrap();
    let rid = page.insert(b"row").unwrap();
    page.delete(rid).unwrap();
    page.set_next_page_id(Some(PageId::new(7)));
    page.compact().unwrap();
    let bytes = page.page().as_bytes();
    assert_eq!(bytes[6..8], [9, 8]);
    assert_eq!(bytes[20..32], [1, 2, 3, 4, 5, 6, 7, 8, 9, 10, 11, 12]);
}
