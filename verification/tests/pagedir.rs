use mosken::page::BLKSZ;
use mosken::pagedir::{
    pagedir_add_entry, pagedir_find_by_page_id, pagedir_find_free, pagedir_find_free_index,
    pagedir_get_entry, pagedir_init, pagedir_num_entries, pagedir_update_free, DirEntry,
    FindFreeError, PageDirError, UpdateFreeError, MAX_DIR_ENTRIES,
};

fn setup(entries: &[(u32, u32)]) -> [u8; BLKSZ] {
    let mut page = [0u8; BLKSZ];
    pagedir_init(&mut page);
    for (id, free) in entries {
        pagedir_add_entry(
            &mut page,
            DirEntry {
                page_id: *id,
                free_space: *free,
            },
        )
        .unwrap();
    }
    page
}

// ── Init, count, add, get ──────────────────────────────────────────────

#[test]
fn init_sets_count_to_zero() {
    let mut page = [0u8; BLKSZ];
    pagedir_init(&mut page);
    assert_eq!(pagedir_num_entries(&page), 0);
}

#[test]
fn init_clears_a_dirty_page() {
    let mut page = [0xFFu8; BLKSZ];
    pagedir_init(&mut page);
    assert!(page.iter().all(|&b| b == 0));
    assert_eq!(pagedir_num_entries(&page), 0);
}

#[test]
fn add_and_get_round_trip() {
    let mut page = [0u8; BLKSZ];
    pagedir_init(&mut page);
    pagedir_add_entry(
        &mut page,
        DirEntry {
            page_id: 5,
            free_space: 123,
        },
    )
    .unwrap();
    assert_eq!(pagedir_num_entries(&page), 1);
    assert_eq!(
        pagedir_get_entry(&page, 0),
        Some(DirEntry {
            page_id: 5,
            free_space: 123
        })
    );
}

#[test]
fn entries_preserve_order() {
    let mut page = [0u8; BLKSZ];
    pagedir_init(&mut page);
    for (i, id) in [9u32, 4, 7, 1].into_iter().enumerate() {
        pagedir_add_entry(
            &mut page,
            DirEntry {
                page_id: id,
                free_space: 100,
            },
        )
        .unwrap();
        assert_eq!(pagedir_get_entry(&page, i as u32).unwrap().page_id, id);
    }
    assert_eq!(pagedir_num_entries(&page), 4);
}

#[test]
fn get_out_of_range_is_none() {
    let mut page = [0u8; BLKSZ];
    pagedir_init(&mut page);
    pagedir_add_entry(
        &mut page,
        DirEntry {
            page_id: 1,
            free_space: 10,
        },
    )
    .unwrap();
    assert_eq!(pagedir_get_entry(&page, 1), None);
    assert_eq!(pagedir_get_entry(&page, 100), None);
}

#[test]
fn add_past_max_errors() {
    let mut page = [0u8; BLKSZ];
    pagedir_init(&mut page);
    for i in 0..MAX_DIR_ENTRIES as u32 {
        pagedir_add_entry(
            &mut page,
            DirEntry {
                page_id: i,
                free_space: 1,
            },
        )
        .unwrap();
    }
    let result = pagedir_add_entry(
        &mut page,
        DirEntry {
            page_id: 999,
            free_space: 1,
        },
    );
    assert!(matches!(result, Err(PageDirError::DirectoryFull)));
}

// ── First-fit search ───────────────────────────────────────────────────

#[test]
fn empty_directory_errors() {
    let page = setup(&[]);
    let result = pagedir_find_free(&page, 1);
    assert!(matches!(result, Err(FindFreeError::Empty)));
}

#[test]
fn first_fit_wins() {
    let page = setup(&[(0, 100), (1, 500), (2, 50)]);
    let entry = pagedir_find_free(&page, 60).unwrap();
    assert_eq!(entry.page_id, 0); // first with >= 60, not the biggest
}

#[test]
fn skips_pages_too_small() {
    let page = setup(&[(0, 100), (1, 500), (2, 50)]);
    let entry = pagedir_find_free(&page, 200).unwrap();
    assert_eq!(entry.page_id, 1);
}

#[test]
fn exact_fit_counts() {
    let page = setup(&[(0, 100), (1, 500)]);
    let entry = pagedir_find_free(&page, 500).unwrap();
    assert_eq!(entry.page_id, 1);
}

#[test]
fn no_fit_errors_with_required() {
    let page = setup(&[(0, 100), (1, 200)]);
    let result = pagedir_find_free(&page, 1000);
    assert!(matches!(
        result,
        Err(FindFreeError::NoFit { required: 1000 })
    ));
}

#[test]
fn find_free_index_matches_find_free() {
    let page = setup(&[(7, 10), (3, 20), (5, 30)]);
    assert_eq!(pagedir_find_free_index(&page, 25), Some(2));
    assert_eq!(pagedir_find_free_index(&page, 31), None);
    assert_eq!(pagedir_find_free(&page, 25).unwrap().page_id, 5);
}

// ── Lookup and update by page ID ───────────────────────────────────────

#[test]
fn find_by_page_id_hits_and_misses() {
    let page = setup(&[(7, 10), (3, 20), (5, 30)]);
    assert_eq!(
        pagedir_find_by_page_id(&page, 3),
        Some(DirEntry {
            page_id: 3,
            free_space: 20
        })
    );
    assert_eq!(pagedir_find_by_page_id(&page, 4), None);
}

#[test]
fn update_changes_only_target_entry() {
    let mut page = setup(&[(7, 10), (3, 20), (5, 30)]);
    pagedir_update_free(&mut page, 3, 5).unwrap();

    assert_eq!(
        pagedir_find_by_page_id(&page, 7).unwrap().free_space,
        10,
        "untouched entry must not change"
    );
    assert_eq!(
        pagedir_find_by_page_id(&page, 3).unwrap().free_space,
        5,
        "target entry must be updated"
    );
    assert_eq!(
        pagedir_find_by_page_id(&page, 5).unwrap().free_space,
        30,
        "untouched entry must not change"
    );
}

#[test]
fn update_unknown_page_errors() {
    let mut page = setup(&[(7, 10)]);
    let result = pagedir_update_free(&mut page, 99, 1);
    assert!(matches!(
        result,
        Err(UpdateFreeError::PageNotTracked { page_id: 99 })
    ));
}

#[test]
fn update_then_find_free_sees_new_value() {
    let mut page = setup(&[(0, 100), (1, 200)]);
    pagedir_update_free(&mut page, 0, 50).unwrap();

    // 50 < 60 so page 0 no longer fits; the search must land on page 1.
    let entry = pagedir_get_entry(&page, 0).unwrap();
    assert_eq!(entry.free_space, 50);
    assert_eq!(pagedir_find_by_page_id(&page, 0).unwrap().free_space, 50);
}

#[test]
fn update_all_entries_one_by_one() {
    let mut page = setup(&[(0, 10), (1, 20), (2, 30)]);
    pagedir_update_free(&mut page, 2, 0).unwrap();
    pagedir_update_free(&mut page, 0, 40).unwrap();
    pagedir_update_free(&mut page, 1, 25).unwrap();

    assert_eq!(pagedir_find_by_page_id(&page, 0).unwrap().free_space, 40);
    assert_eq!(pagedir_find_by_page_id(&page, 1).unwrap().free_space, 25);
    assert_eq!(pagedir_find_by_page_id(&page, 2).unwrap().free_space, 0);
}

// ── Further cases ──────────────────────────────────────────────────────

#[test]
fn max_dir_entries_is_511() {
    assert_eq!(MAX_DIR_ENTRIES, 511);
}

#[test]
fn directory_layout_is_little_endian() {
    let page = setup(&[(0x0102_0304, 0x0A0B_0C0D)]);
    assert_eq!(&page[0..4], &[1, 0, 0, 0]);
    assert_eq!(&page[4..8], &[4, 3, 2, 1]);
    assert_eq!(&page[8..12], &[0x0D, 0x0C, 0x0B, 0x0A]);
}

#[test]
fn full_directory_is_unchanged_by_add() {
    let mut page = [0u8; BLKSZ];
    pagedir_init(&mut page);
    for i in 0..511u32 {
        pagedir_add_entry(&mut page, DirEntry { page_id: i, free_space: i }).unwrap();
    }
    let before = page;
    assert!(pagedir_add_entry(&mut page, DirEntry { page_id: 1, free_space: 1 }).is_err());
    assert_eq!(page, before);
    assert_eq!(
        pagedir_get_entry(&page, 510),
        Some(DirEntry { page_id: 510, free_space: 510 })
    );
}

#[test]
fn update_after_find_free_moves_search() {
    let mut page = setup(&[(0, 100), (1, 200)]);
    assert_eq!(pagedir_find_free(&page, 60).unwrap().page_id, 0);
    pagedir_update_free(&mut page, 0, 50).unwrap();
    assert_eq!(pagedir_find_free(&page, 60).unwrap().page_id, 1);
    assert_eq!(pagedir_find_free_index(&page, 60), Some(1));
}

#[test]
fn duplicate_page_ids_update_first_only() {
    let mut page = setup(&[(4, 10), (4, 20)]);
    pagedir_update_free(&mut page, 4, 99).unwrap();
    assert_eq!(pagedir_get_entry(&page, 0).unwrap().free_space, 99);
    assert_eq!(pagedir_get_entry(&page, 1).unwrap().free_space, 20);
    assert_eq!(pagedir_find_by_page_id(&page, 4).unwrap().free_space, 99);
}

#[test]
fn update_unknown_page_leaves_directory_unchanged() {
    let mut page = setup(&[(1, 10), (2, 20)]);
    let before = page;
    assert!(pagedir_update_free(&mut page, 3, 0).is_err());
    assert_eq!(page, before);
}

#[test]
fn update_changes_only_the_free_space_bytes() {
    let mut page = setup(&[(1, 10), (2, 20)]);
    let before = page;
    pagedir_update_free(&mut page, 2, 0x0102_0304).unwrap();
    for (k, (a, b)) in page.iter().zip(before.iter()).enumerate() {
        if (16..20).contains(&k) {
            continue;
        }
        assert_eq!(a, b, "byte {k} changed");
    }
    assert_eq!(&page[16..20], &[4, 3, 2, 1]);
}

#[test]
fn add_changes_only_the_entry_and_count_bytes() {
    let mut page = setup(&[(1, 10)]);
    page[100] = 0x5A;
    let before = page;
    pagedir_add_entry(&mut page, DirEntry { page_id: 2, free_space: 20 }).unwrap();
    assert_eq!(&page[4..12], &before[4..12]);
    assert_eq!(&page[20..], &before[20..]);
    assert_eq!(pagedir_num_entries(&page), 2);
}

#[test]
fn corrupt_count_scan_stops_at_first_hit() {
    // A count past the end of the page, but the first entry fits.
    let mut page = setup(&[(3, 500), (4, 10)]);
    page[0..4].copy_from_slice(&1000u32.to_le_bytes());
    assert_eq!(pagedir_find_free_index(&page, 100), Some(0));
    assert_eq!(pagedir_find_by_page_id(&page, 4).unwrap().free_space, 10);
    pagedir_update_free(&mut page, 4, 7).unwrap();
    assert_eq!(pagedir_get_entry(&page, 1).unwrap().free_space, 7);
}
