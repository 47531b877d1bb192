use mosken::page::{Page, PageError, PageItemMeta, BLKSZ, PAGE_HEADER_SIZE};

#[test]
fn page_init_upper_is_blksz() {
    let page = Page::new();
    assert_eq!(page.upper(), BLKSZ as u32);
}

#[test]
fn page_init_lower_is_header_size() {
    let page = Page::new();
    assert_eq!(page.lower(), PAGE_HEADER_SIZE as u32);
}

#[test]
fn page_init_zeroed_free_space() {
    let page = Page::new();
    // All bytes in the free space area should be zero.
    let lower = page.lower() as usize;
    let upper = page.upper() as usize;
    for &byte in &page.as_bytes()[lower..upper] {
        assert_eq!(byte, 0);
    }
}

#[test]
fn add_and_read_single_item() {
    let mut page = Page::new();
    let item_data: &[u8] = b"hello mosken";
    page.add_item(item_data, 1).unwrap();

    let retrieved = page.get_item(1).unwrap();
    assert_eq!(retrieved, item_data);
}

#[test]
fn add_multiple_items_and_read_back() {
    let mut page = Page::new();

    let items: [&[u8]; 3] = [b"first", b"second item", b"third"];

    for (i, item) in items.iter().enumerate() {
        page.add_item(item, (i + 1) as u32).unwrap();
    }

    for (i, expected) in items.iter().enumerate() {
        assert_eq!(page.get_item((i + 1) as u32).unwrap(), *expected);
    }
}

#[test]
fn free_space_decreases_after_insert() {
    let mut page = Page::new();
    let initial_free = page.free_space();

    let item = b"some data here";
    page.add_item(item, 1).unwrap();

    let after_free = page.free_space();
    let expected_decrease = item.len() as u32 + PageItemMeta::SERIALIZED_SIZE as u32;
    assert_eq!(initial_free - after_free, expected_decrease);
}

#[test]
fn insufficient_space_returns_error() {
    let mut page = Page::new();
    // Fill the page.
    let big_item = vec![0xAAu8; 3000];
    page.add_item(&big_item, 1).unwrap();

    // Try adding something that won't fit.
    let another = vec![0xBBu8; 2000];
    let result = page.add_item(&another, 2);
    assert!(result.is_err());
}

#[test]
fn delete_item_returns_none_on_get() {
    let mut page = Page::new();
    page.add_item(b"item 1", 1).unwrap();
    page.add_item(b"item 2", 2).unwrap();
    page.add_item(b"item 3", 3).unwrap();

    page.delete_item(2).unwrap();

    assert!(page.get_item(1).is_some());
    assert!(page.get_item(2).is_none()); // deleted
    assert!(page.get_item(3).is_some());
}

#[test]
fn compact_reclaims_deleted_space() {
    let mut page = Page::new();
    page.add_item(b"keep me", 1).unwrap();
    page.add_item(b"delete me please", 2).unwrap();
    page.add_item(b"keep me too", 3).unwrap();

    let _free_before_delete = page.free_space();
    page.delete_item(2).unwrap();

    page.compact();

    // After compaction, items 1 and 3 should still be readable (now at
    // offset numbers 1 and 2).
    assert_eq!(page.get_item(1).unwrap(), b"keep me");
    assert_eq!(page.get_item(2).unwrap(), b"keep me too");
    assert_eq!(page.item_count(), 2);
}

// ── Further cases ──────────────────────────────────────────────────────

#[test]
fn fresh_page_free_space_is_blksz_minus_header() {
    let page = Page::new();
    assert_eq!(page.free_space(), 4088);
    assert_eq!(page.item_count(), 0);
    assert!(page.is_well_formed());
    let default_page = Page::default();
    assert_eq!(default_page.as_bytes(), page.as_bytes());
}

#[test]
fn insufficient_space_reports_need_and_available() {
    let mut page = Page::new();
    page.add_item(&vec![1u8; 4000], 1).unwrap();
    // 4088 - 4000 - 8 = 80 bytes are left.
    assert_eq!(page.free_space(), 80);
    match page.add_item(&vec![2u8; 73], 2) {
        Err(PageError::InsufficientSpace { need, available }) => {
            assert_eq!(need, 81);
            assert_eq!(available, 80);
        }
        other => panic!("unexpected result {:?}", other),
    }
    // An item that exactly fills the remaining space fits.
    page.add_item(&vec![3u8; 72], 2).unwrap();
    assert_eq!(page.free_space(), 0);
    assert_eq!(page.get_item(2).unwrap(), &vec![3u8; 72][..]);
}

#[test]
fn add_with_invalid_offset_is_refused() {
    let mut page = Page::new();
    page.add_item(b"a", 1).unwrap();
    match page.add_item(b"b", 3) {
        Err(PageError::InvalidOffset { offset_number, item_count }) => {
            assert_eq!(offset_number, 3);
            assert_eq!(item_count, 1);
        }
        other => panic!("unexpected result {:?}", other),
    }
    assert!(matches!(
        page.add_item(b"b", 0),
        Err(PageError::InvalidOffset { offset_number: 0, item_count: 1 })
    ));
    assert_eq!(page.item_count(), 1);
    assert_eq!(page.free_space(), 4088 - 9);
}

#[test]
fn space_is_checked_before_offset() {
    let mut page = Page::new();
    let result = page.add_item(&vec![0u8; 5000], 7);
    assert!(matches!(
        result,
        Err(PageError::InsufficientSpace { need: 5008, available: 4088 })
    ));
}

#[test]
fn overwrite_existing_slot() {
    let mut page = Page::new();
    page.add_item(b"old", 1).unwrap();
    page.add_item(b"other", 2).unwrap();
    let before = page.free_space();
    page.add_item(b"newer", 1).unwrap();
    assert_eq!(page.get_item(1).unwrap(), b"newer");
    assert_eq!(page.get_item(2).unwrap(), b"other");
    assert_eq!(page.item_count(), 2);
    // Overwriting takes the item bytes but no new metadata entry.
    assert_eq!(before - page.free_space(), 5);
}

#[test]
fn empty_item_is_live_and_distinct_from_tombstone() {
    let mut page = Page::new();
    page.add_item(b"", 1).unwrap();
    assert_eq!(page.get_item(1), Some(&b""[..]));
    let meta = page.get_item_meta(1).unwrap();
    assert!(!meta.is_deleted());
    assert_eq!(meta, PageItemMeta::new(0, 0));
    page.delete_item(1).unwrap();
    assert_eq!(page.get_item(1), None);
    assert_eq!(page.get_item_meta(1), Some(PageItemMeta::new(4096, 0)));
    assert!(page.get_item_meta(1).unwrap().is_deleted());
}

#[test]
fn delete_invalid_offset_errors() {
    let mut page = Page::new();
    page.add_item(b"x", 1).unwrap();
    assert!(matches!(
        page.delete_item(2),
        Err(PageError::InvalidOffset { offset_number: 2, item_count: 1 })
    ));
    assert!(matches!(
        page.delete_item(0),
        Err(PageError::InvalidOffset { offset_number: 0, item_count: 1 })
    ));
    assert!(page.get_item(1).is_some());
}

#[test]
fn get_item_out_of_range_is_none() {
    let mut page = Page::new();
    page.add_item(b"x", 1).unwrap();
    assert_eq!(page.get_item(0), None);
    assert_eq!(page.get_item(2), None);
    assert_eq!(page.get_item_meta(0), None);
    assert_eq!(page.get_item_meta(2), None);
    let meta = page.get_item_meta(1).unwrap();
    assert_eq!(meta, PageItemMeta::new(4095, 1));
}

#[test]
fn delete_keeps_free_space_and_compact_reclaims_it() {
    let mut page = Page::new();
    page.add_item(&[1u8; 100], 1).unwrap();
    page.add_item(&[2u8; 200], 2).unwrap();
    page.add_item(&[3u8; 300], 3).unwrap();
    let free = page.free_space();
    assert_eq!(free, 4088 - 600 - 24);
    page.delete_item(2).unwrap();
    assert_eq!(page.free_space(), free);
    page.compact();
    assert_eq!(page.free_space(), 4088 - 400 - 16);
    assert_eq!(page.item_count(), 2);
    assert_eq!(page.get_item(1).unwrap(), &[1u8; 100][..]);
    assert_eq!(page.get_item(2).unwrap(), &[3u8; 300][..]);
    assert!(page.is_well_formed());
}

#[test]
fn compact_twice_changes_nothing() {
    let mut page = Page::new();
    page.add_item(b"a", 1).unwrap();
    page.add_item(b"bb", 2).unwrap();
    page.delete_item(1).unwrap();
    page.compact();
    let once = *page.as_bytes();
    page.compact();
    assert_eq!(page.as_bytes(), &once);
}

#[test]
fn init_clears_items() {
    let mut page = Page::new();
    page.add_item(b"abc", 1).unwrap();
    page.init();
    assert_eq!(page.item_count(), 0);
    assert_eq!(page.free_space(), 4088);
    assert!(page.as_bytes()[8..].iter().all(|&b| b == 0));
}

#[test]
fn bytes_round_trip() {
    let mut page = Page::new();
    page.add_item(b"persist me", 1).unwrap();
    let copy = Page::from_bytes(*page.as_bytes());
    assert_eq!(copy.get_item(1).unwrap(), b"persist me");
    assert_eq!(copy.lower(), 16);
    assert_eq!(copy.upper(), 4086);
}

#[test]
fn malformed_pages_are_detected() {
    // All zeros: lower = 0 is below the header.
    assert!(!Page::from_bytes([0u8; BLKSZ]).is_well_formed());

    // lower past upper.
    let mut bytes = [0u8; BLKSZ];
    bytes[0..4].copy_from_slice(&100u32.to_le_bytes());
    bytes[4..8].copy_from_slice(&50u32.to_le_bytes());
    assert!(!Page::from_bytes(bytes).is_well_formed());

    // An item that runs past the end of the page.
    let mut page = Page::new();
    page.add_item(b"abcd", 1).unwrap();
    let mut bytes = *page.as_bytes();
    bytes[12..16].copy_from_slice(&100u32.to_le_bytes());
    assert!(!Page::from_bytes(bytes).is_well_formed());

    // Two slots claiming more live bytes than the item area holds.
    let mut page = Page::new();
    page.add_item(&[7u8; 2000], 1).unwrap();
    page.add_item(&[8u8; 10], 2).unwrap();
    let mut bytes = *page.as_bytes();
    // Point slot 2 at slot 1's 2000 bytes as well.
    let slot1 = bytes[8..16].to_vec();
    bytes[16..24].copy_from_slice(&slot1);
    assert!(!Page::from_bytes(bytes).is_well_formed());

    // A page produced by the operations is well formed.
    assert!(page.is_well_formed());
}

#[test]
fn item_meta_tombstone() {
    // Length 0 marks a deleted slot, except (0, 0), a live empty item.
    assert!(PageItemMeta::new(4090, 0).is_deleted());
    assert!(!PageItemMeta::new(4090, 6).is_deleted());
    assert!(!PageItemMeta::new(0, 6).is_deleted());
    assert!(!PageItemMeta::new(0, 0).is_deleted());
}

#[test]
fn compact_places_items_from_the_top_and_zeroes_free_space() {
    let mut page = Page::new();
    page.add_item(&[1u8; 10], 1).unwrap();
    page.add_item(&[2u8; 20], 2).unwrap();
    page.add_item(&[3u8; 30], 3).unwrap();
    page.delete_item(1).unwrap();
    page.compact();
    let m1 = page.get_item_meta(1).unwrap();
    let m2 = page.get_item_meta(2).unwrap();
    assert_eq!(m1, PageItemMeta::new(4096 - 20, 20));
    assert_eq!(m2, PageItemMeta::new(4096 - 50, 30));
    assert_eq!(page.upper(), 4096 - 50);
    assert_eq!(page.lower(), 24);
    let lower = page.lower() as usize;
    let upper = page.upper() as usize;
    assert!(page.as_bytes()[lower..upper].iter().all(|&b| b == 0));
}

#[test]
fn compact_gives_the_image_of_a_fresh_page_with_the_live_items() {
    let mut page = Page::new();
    page.add_item(b"zz", 1).unwrap();
    page.add_item(b"keep", 2).unwrap();
    page.add_item(b"also", 3).unwrap();
    page.delete_item(1).unwrap();
    page.compact();
    let mut fresh = Page::new();
    fresh.add_item(b"keep", 1).unwrap();
    fresh.add_item(b"also", 2).unwrap();
    assert_eq!(page.as_bytes(), fresh.as_bytes());
}

#[test]
fn delete_keeps_the_offset_and_zeroes_the_length() {
    let mut page = Page::new();
    page.add_item(b"abc", 1).unwrap();
    page.add_item(b"de", 2).unwrap();
    page.delete_item(1).unwrap();
    assert_eq!(page.get_item_meta(1), Some(PageItemMeta::new(4093, 0)));
    assert_eq!(page.get_item_meta(2), Some(PageItemMeta::new(4091, 2)));
    assert_eq!(page.get_item(1), None);
    assert!(page.is_well_formed());
    // Deleting a deleted slot changes nothing.
    let before = *page.as_bytes();
    page.delete_item(1).unwrap();
    assert_eq!(page.as_bytes(), &before);
    // A live item whose bytes start in the metadata area is not a layout the
    // operations make.
    let mut bytes = *page.as_bytes();
    bytes[16..20].copy_from_slice(&20u32.to_le_bytes());
    assert!(!Page::from_bytes(bytes).is_well_formed());
}

#[test]
fn empty_items_survive_compaction() {
    let mut page = Page::new();
    page.add_item(b"", 1).unwrap();
    page.add_item(b"x", 2).unwrap();
    page.add_item(b"", 3).unwrap();
    page.delete_item(2).unwrap();
    page.compact();
    assert_eq!(page.item_count(), 2);
    assert_eq!(page.get_item(1), Some(&b""[..]));
    assert_eq!(page.get_item(2), Some(&b""[..]));
    assert_eq!(page.free_space(), 4088 - 16);
}

#[test]
fn compact_on_a_page_with_unaligned_lower() {
    let mut bytes = [0u8; BLKSZ];
    bytes[0..4].copy_from_slice(&13u32.to_le_bytes());
    bytes[4..8].copy_from_slice(&4096u32.to_le_bytes());
    let mut page = Page::from_bytes(bytes);
    page.add_item(b"abc", 1).unwrap();
    assert!(!page.is_well_formed());
    page.compact();
    assert!(page.is_well_formed());
    assert_eq!(page.get_item(1).unwrap(), b"abc");
    assert_eq!(page.lower(), 16);
}

#[test]
fn add_on_a_page_with_unaligned_lower() {
    // lower = 13 is not on an entry boundary; the header is still usable.
    let mut bytes = [0u8; BLKSZ];
    bytes[0..4].copy_from_slice(&13u32.to_le_bytes());
    bytes[4..8].copy_from_slice(&4096u32.to_le_bytes());
    let mut page = Page::from_bytes(bytes);
    assert_eq!(page.item_count(), 0);
    page.add_item(b"ok", 1).unwrap();
    assert_eq!(page.lower(), 21);
    assert_eq!(page.upper(), 4094);
    assert_eq!(page.get_item(1).unwrap(), b"ok");
}
