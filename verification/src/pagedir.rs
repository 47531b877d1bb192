//! Page directory: page 0 of a table's heap file.
//!
//! The directory tracks every data page of the table and how much free space
//! each one has. Layout (all integers little-endian):
//!
//! ```text
//! offset 0:  count: u32
//! offset 4:  entry 0 { page_id: u32, free_space: u32 }
//! offset 12: entry 1
//! ...        entries are packed, no gaps
//! ```
use crate::bytes::{
    lemma_u32_at_frame,
    lemma_u32_at_put,
    put_u32,
    read_u32_le,
    u32_at,
    write_u32_le,
};
use crate::page::BLKSZ;
use vstd::prelude::*;

verus! {

/// Bytes used by the entry-count header at the start of the directory page.
pub const DIR_HEADER_SIZE: usize = 4;

/// Bytes per directory entry (`page_id: u32` + `free_space: u32`).
pub const DIR_ENTRY_SIZE: usize = 8;

/// Maximum number of entries a directory page can hold.
pub const MAX_DIR_ENTRIES: usize = (BLKSZ - DIR_HEADER_SIZE) / DIR_ENTRY_SIZE;

/// One directory entry: a data page and its remaining free space.
#[derive(Debug, Clone, Copy, PartialEq, Eq)]
pub struct DirEntry {
    pub page_id: u32,
    pub free_space: u32,
}

/// Errors returned by page directory operations.
#[derive(Debug)]
pub enum PageDirError {
    /// The directory already holds `MAX_DIR_ENTRIES` entries.
    DirectoryFull,
    /// No entry has this page ID.
    PageNotTracked { page_id: u32 },
}

/// Errors returned by the free-page search.
#[derive(Debug)]
pub enum FindFreeError {
    /// No tracked page has at least `required` bytes free.
    NoFit { required: usize },
    /// The directory has no entries.
    Empty,
}

/// Errors returned by the free-space update.
#[derive(Debug)]
pub enum UpdateFreeError {
    /// No entry has this page ID.
    PageNotTracked { page_id: u32 },
}

/// The entry count stored in the directory header.
pub open spec fn dir_count(page: Seq<u8>) -> int {
    u32_at(page, 0)
}

/// The `i`th (0-based) entry as stored in the page.
pub open spec fn dir_entry(page: Seq<u8>, i: int) -> DirEntry {
    DirEntry {
        page_id: u32_at(page, 4 + 8 * i) as u32,
        free_space: u32_at(page, 8 + 8 * i) as u32,
    }
}

/// The entries of the directory, in order.
///
/// Only entries that lie inside the page are listed: when a corrupt count
/// claims more than `MAX_DIR_ENTRIES` entries, the first 511 are.
pub open spec fn dir_entries(page: Seq<u8>) -> Seq<DirEntry> {
    Seq::new(
        if dir_count(page) <= 511 {
            dir_count(page) as nat
        } else {
            511nat
        },
        |i: int| dir_entry(page, i),
    )
}

/// The stored count fits in the page.
pub open spec fn dir_wf(page: Seq<u8>) -> bool {
    dir_count(page) <= 511
}

/// `i` is the first entry with at least `required` bytes free.
pub open spec fn is_first_fit(entries: Seq<DirEntry>, required: int, i: int) -> bool {
    &&& 0 <= i < entries.len()
    &&& entries[i].free_space >= required
    &&& forall|j: int| 0 <= j < i ==> #[trigger] entries[j].free_space < required
}

/// No entry has at least `required` bytes free.
pub open spec fn no_fit(entries: Seq<DirEntry>, required: int) -> bool {
    forall|j: int| 0 <= j < entries.len() ==> #[trigger] entries[j].free_space < required
}

/// `i` is the first entry for page `page_id`.
pub open spec fn is_first_match(entries: Seq<DirEntry>, page_id: u32, i: int) -> bool {
    &&& 0 <= i < entries.len()
    &&& entries[i].page_id == page_id
    &&& forall|j: int| 0 <= j < i ==> #[trigger] entries[j].page_id != page_id
}

/// No entry is for page `page_id`.
pub open spec fn not_tracked(entries: Seq<DirEntry>, page_id: u32) -> bool {
    forall|j: int| 0 <= j < entries.len() ==> #[trigger] entries[j].page_id != page_id
}

/// Read entry `i` of a directory that holds more than `i` entries.
fn read_entry(page: &[u8; BLKSZ], i: u32) -> (e: DirEntry)
    requires
        i < 511,
    ensures
        e == dir_entry(page@, i as int),
{
    let start = DIR_HEADER_SIZE + i as usize * DIR_ENTRY_SIZE;
    DirEntry {
        page_id: read_u32_le(page, start),
        free_space: read_u32_le(page, start + 4),
    }
}

/// Initialise a fresh directory page: zero everything, so the count is 0.
pub fn pagedir_init(page: &mut [u8; BLKSZ])
    ensures
        forall|k: int| 0 <= k < 4096 ==> #[trigger] final(page)@[k] == 0,
        dir_count(final(page)@) == 0,
        dir_entries(final(page)@) == Seq::<DirEntry>::empty(),
        dir_wf(final(page)@),
{
    *page = [0u8; BLKSZ];
    assert(dir_entries(page@) =~= Seq::<DirEntry>::empty());
}

/// Return the number of entries currently in the directory.
pub fn pagedir_num_entries(page: &[u8; BLKSZ]) -> (n: u32)
    ensures
        n == dir_count(page@),
{
    read_u32_le(page, 0)
}

/// Two directory images that agree on the bytes of entry `i` hold the same
/// entry `i`.
proof fn lemma_entry_frame(a: Seq<u8>, b: Seq<u8>, i: int)
    requires
        forall|k: int| 4 + 8 * i <= k < 12 + 8 * i ==> #[trigger] a[k] == b[k],
    ensures
        dir_entry(a, i) == dir_entry(b, i),
{
    lemma_u32_at_frame(a, b, 4 + 8 * i);
    lemma_u32_at_frame(a, b, 8 + 8 * i);
}

/// A first-fit scan for `required` stays within the page: either the stored
/// count fits in the page, or an entry before index 511 has room.
pub open spec fn fit_scan_in_page(page: Seq<u8>, required: int) -> bool {
    dir_count(page) <= 511 || exists|i: int|
        0 <= i < 511 && #[trigger] dir_entry(page, i).free_space >= required
}

/// A scan for page `page_id` stays within the page: either the stored count
/// fits in the page, or an entry before index 511 is for that page.
pub open spec fn id_scan_in_page(page: Seq<u8>, page_id: u32) -> bool {
    dir_count(page) <= 511 || exists|i: int|
        0 <= i < 511 && #[trigger] dir_entry(page, i).page_id == page_id
}

/// Append an entry to the end of the directory.
///
/// Returns `PageDirError::DirectoryFull`, leaving the page unchanged, if the
/// page already holds `MAX_DIR_ENTRIES` entries. Otherwise only the new
/// entry's bytes and the count change.
pub fn pagedir_add_entry(page: &mut [u8; BLKSZ], entry: DirEntry) -> (r: Result<(), PageDirError>)
    ensures
        dir_count(old(page)@) >= 511 ==> {
            &&& r matches Err(PageDirError::DirectoryFull)
            &&& final(page)@ == old(page)@
        },
        dir_count(old(page)@) < 511 ==> {
            &&& r is Ok
            &&& final(page)@ == put_u32(
                put_u32(
                    put_u32(old(page)@, 4 + 8 * dir_count(old(page)@), entry.page_id),
                    8 + 8 * dir_count(old(page)@),
                    entry.free_space,
                ),
                0,
                (dir_count(old(page)@) + 1) as u32,
            )
            &&& dir_wf(final(page)@)
            &&& dir_count(final(page)@) == dir_count(old(page)@) + 1
            &&& dir_entries(final(page)@) == dir_entries(old(page)@).push(entry)
        },
{
    let count = pagedir_num_entries(page);
    if count as usize >= MAX_DIR_ENTRIES {
        return Err(PageDirError::DirectoryFull);
    }
    let ghost before = page@;
    let start = DIR_HEADER_SIZE + count as usize * DIR_ENTRY_SIZE;
    write_u32_le(page, start, entry.page_id);
    write_u32_le(page, start + 4, entry.free_space);
    write_u32_le(page, 0, count + 1);
    proof {
        let after = page@;
        assert forall|i: int| 0 <= i < count implies #[trigger] dir_entry(after, i) == dir_entry(
            before,
            i,
        ) by {
            lemma_entry_frame(after, before, i);
        }
        assert(dir_entries(after) =~= dir_entries(before).push(entry));
    }
    Ok(())
}

/// Return the entry at `index` (0-based), or `None` if out of range.
pub fn pagedir_get_entry(page: &[u8; BLKSZ], index: u32) -> (r: Option<DirEntry>)
    requires
        index < dir_count(page@) ==> index < 511,
    ensures
        r == if index < dir_count(page@) {
            Some(dir_entries(page@)[index as int])
        } else {
            None
        },
{
    let count = pagedir_num_entries(page);
    if index >= count {
        return None;
    }
    Some(read_entry(page, index))
}

/// Index of the first entry with `free_space >= required` (first fit, not
/// best fit). `None` if no entry has enough room.
pub fn pagedir_find_free_index(page: &[u8; BLKSZ], required: u32) -> (r: Option<u32>)
    requires
        fit_scan_in_page(page@, required as int),
    ensures
        r matches Some(i) ==> is_first_fit(dir_entries(page@), required as int, i as int),
        r is None ==> no_fit(dir_entries(page@), required as int),
{
    let count = pagedir_num_entries(page);
    let ghost entries = dir_entries(page@);
    let mut i: u32 = 0;
    while i < count
        invariant
            count == dir_count(page@),
            fit_scan_in_page(page@, required as int),
            entries == dir_entries(page@),
            0 <= i <= count,
            forall|j: int| 0 <= j < i ==> #[trigger] entries[j].free_space < required,
        decreases count - i,
    {
        proof {
            if count > 511 && i >= 511 {
                let w = choose|w: int|
                    0 <= w < 511 && #[trigger] dir_entry(page@, w).free_space >= required;
                assert(entries[w].free_space < required);
            }
        }
        let entry = read_entry(page, i);
        assert(entry == entries[i as int]);
        if entry.free_space >= required {
            return Some(i);
        }
        i += 1;
    }
    None
}

/// Find the first entry with enough free space for `required` bytes.
///
/// Returns `FindFreeError::Empty` if the directory has zero entries and
/// `FindFreeError::NoFit` if no entry has enough free space.
pub fn pagedir_find_free(page: &[u8; BLKSZ], required: u32) -> (r: Result<DirEntry, FindFreeError>)
    requires
        fit_scan_in_page(page@, required as int),
    ensures
        dir_count(page@) == 0 ==> r matches Err(FindFreeError::Empty),
        dir_count(page@) > 0 && no_fit(dir_entries(page@), required as int) ==> {
            &&& r matches Err(FindFreeError::NoFit { required: req })
            &&& req == required
        },
        r matches Ok(e) ==> exists|i: int|
            is_first_fit(dir_entries(page@), required as int, i) && e == dir_entries(page@)[i],
        !no_fit(dir_entries(page@), required as int) ==> r is Ok,
{
    if pagedir_num_entries(page) == 0 {
        return Err(FindFreeError::Empty);
    }
    match pagedir_find_free_index(page, required) {
        Some(i) => {
            proof {
                if i >= 511 {
                    let w = choose|w: int|
                        0 <= w < 511 && #[trigger] dir_entry(page@, w).free_space >= required;
                    assert(dir_entries(page@)[w].free_space < required);
                }
            }
            Ok(read_entry(page, i))
        },
        None => Err(FindFreeError::NoFit { required: required as usize }),
    }
}

/// Look up the first entry for `page_id`. `None` if the page is not tracked.
pub fn pagedir_find_by_page_id(page: &[u8; BLKSZ], page_id: u32) -> (r: Option<DirEntry>)
    requires
        id_scan_in_page(page@, page_id),
    ensures
        r matches Some(e) ==> exists|i: int|
            is_first_match(dir_entries(page@), page_id, i) && e == dir_entries(page@)[i],
        r is None <==> not_tracked(dir_entries(page@), page_id),
{
    match find_index_by_page_id(page, page_id) {
        Some(i) => Some(read_entry(page, i)),
        None => None,
    }
}

/// Index of the first entry for `page_id`; it lies before index 511.
fn find_index_by_page_id(page: &[u8; BLKSZ], page_id: u32) -> (r: Option<u32>)
    requires
        id_scan_in_page(page@, page_id),
    ensures
        r matches Some(i) ==> is_first_match(dir_entries(page@), page_id, i as int) && i < 511,
        r is None ==> not_tracked(dir_entries(page@), page_id),
{
    let count = pagedir_num_entries(page);
    let ghost entries = dir_entries(page@);
    let mut i: u32 = 0;
    while i < count
        invariant
            count == dir_count(page@),
            id_scan_in_page(page@, page_id),
            entries == dir_entries(page@),
            0 <= i <= count,
            forall|j: int| 0 <= j < i ==> #[trigger] entries[j].page_id != page_id,
        decreases count - i,
    {
        proof {
            if count > 511 && i >= 511 {
                let w = choose|w: int|
                    0 <= w < 511 && #[trigger] dir_entry(page@, w).page_id == page_id;
                assert(entries[w].page_id != page_id);
            }
        }
        let entry = read_entry(page, i);
        assert(entry == entries[i as int]);
        if entry.page_id == page_id {
            return Some(i);
        }
        i += 1;
    }
    None
}

/// Storing `new_free` in the free-space field of entry `i` (an entry for
/// `page_id`) changes that entry's free space and nothing else.
proof fn lemma_update_entry(before: Seq<u8>, i: int, page_id: u32, new_free: u32)
    requires
        before.len() == 4096,
        0 <= i < dir_count(before),
        i < 511,
        dir_entry(before, i).page_id == page_id,
    ensures
        dir_count(put_u32(before, 8 + 8 * i, new_free)) == dir_count(before),
        dir_entries(put_u32(before, 8 + 8 * i, new_free)) == dir_entries(before).update(
            i,
            DirEntry { page_id, free_space: new_free },
        ),
{
    let after = put_u32(before, 8 + 8 * i, new_free);
    lemma_u32_at_frame(after, before, 0);
    lemma_u32_at_frame(after, before, 4 + 8 * i);
    lemma_u32_at_put(before, 8 + 8 * i, new_free);
    assert forall|j: int| 0 <= j < dir_count(before) && j < 511 && j != i implies #[trigger] dir_entry(
        after,
        j,
    ) == dir_entry(before, j) by {
        lemma_entry_frame(after, before, j);
    }
    assert(dir_entries(after) =~= dir_entries(before).update(
        i,
        DirEntry { page_id, free_space: new_free },
    ));
}

/// Set the free space recorded for `page_id` to `new_free`.
///
/// Entries are keyed by page ID, not by directory index: the first entry for
/// `page_id` is updated, and no other byte of the page changes. Returns
/// `UpdateFreeError::PageNotTracked`, before writing anything, if no entry
/// has that page ID.
pub fn pagedir_update_free(page: &mut [u8; BLKSZ], page_id: u32, new_free: u32) -> (r: Result<
    (),
    UpdateFreeError,
>)
    requires
        id_scan_in_page(old(page)@, page_id),
    ensures
        dir_count(final(page)@) == dir_count(old(page)@),
        not_tracked(dir_entries(old(page)@), page_id) ==> {
            &&& r matches Err(UpdateFreeError::PageNotTracked { page_id: p })
            &&& p == page_id
            &&& final(page)@ == old(page)@
        },
        r is Ok ==> exists|i: int|
            {
                &&& is_first_match(dir_entries(old(page)@), page_id, i)
                &&& final(page)@ == put_u32(old(page)@, 8 + 8 * i, new_free)
                &&& dir_entries(final(page)@) == dir_entries(old(page)@).update(
                    i,
                    DirEntry { page_id, free_space: new_free },
                )
            },
        !not_tracked(dir_entries(old(page)@), page_id) ==> r is Ok,
{
    match find_index_by_page_id(page, page_id) {
        None => Err(UpdateFreeError::PageNotTracked { page_id }),
        Some(i) => {
            let ghost before = page@;
            let start = DIR_HEADER_SIZE + i as usize * DIR_ENTRY_SIZE + 4;
            write_u32_le(page, start, new_free);
            proof {
                lemma_update_entry(before, i as int, page_id, new_free);
            }
            Ok(())
        },
    }
}

/// There is at most one first fit: the entry that `pagedir_find_free`
/// returns is the one at the index `pagedir_find_free_index` returns.
pub proof fn law_first_fit_unique(entries: Seq<DirEntry>, required: int, i: int, j: int)
    requires
        is_first_fit(entries, required, i),
        is_first_fit(entries, required, j),
    ensures
        i == j,
{
}

/// There is at most one first entry for a page ID.
pub proof fn law_first_match_unique(entries: Seq<DirEntry>, page_id: u32, i: int, j: int)
    requires
        is_first_match(entries, page_id, i),
        is_first_match(entries, page_id, j),
    ensures
        i == j,
{
}

/// After an entry is appended it is the last entry, and every earlier entry
/// is unchanged.
pub proof fn law_get_after_add_entry(entries: Seq<DirEntry>, e: DirEntry, k: int)
    requires
        0 <= k < entries.len(),
    ensures
        entries.push(e)[entries.len() as int] == e,
        entries.push(e)[k] == entries[k],
        entries.push(e).len() == entries.len() + 1,
{
}

/// After the free space of a tracked page is updated, looking the page up
/// finds the same entry with the new free space, and no other entry changed.
pub proof fn law_find_after_update(
    entries: Seq<DirEntry>,
    page_id: u32,
    new_free: u32,
    i: int,
    k: int,
)
    requires
        is_first_match(entries, page_id, i),
    ensures
        is_first_match(
            entries.update(i, DirEntry { page_id, free_space: new_free }),
            page_id,
            i,
        ),
        entries.update(i, DirEntry { page_id, free_space: new_free })[i].free_space == new_free,
        0 <= k < entries.len() && k != i ==> entries.update(
            i,
            DirEntry { page_id, free_space: new_free },
        )[k] == entries[k],
{
}

/// A first-fit search over a directory whose only change is a lowered free
/// space for one page no longer picks that page when it stopped fitting.
pub proof fn law_update_then_first_fit(
    entries: Seq<DirEntry>,
    page_id: u32,
    new_free: u32,
    required: int,
    i: int,
)
    requires
        is_first_match(entries, page_id, i),
        new_free < required,
    ensures
        forall|j: int|
            is_first_fit(
                entries.update(i, DirEntry { page_id, free_space: new_free }),
                required,
                j,
            ) ==> j != i,
{
}

} // verus!
