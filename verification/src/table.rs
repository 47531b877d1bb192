//! Decisions of the table layer.
//!
//! A table is a heap file whose page 0 is the page directory. Inserting a
//! record chooses a data page by first fit over the directory (extending the
//! file with a fresh page when no page has room), appends the record to that
//! page, and then records the page's new free space in the directory. Reading
//! a tuple fetches the item at its offset number on its page.
//!
//! The functions here make every decision of those operations; the program
//! around the library performs the file reads and writes in between.
use crate::heapfile::HeapFileError;
use crate::page::{
    added_bytes,
    slot_at,
    Page,
    PageError,
    BLKSZ,
    PAGE_HEADER_SIZE,
};
use crate::pagedir::{
    law_first_match_unique,
    dir_count,
    dir_entries,
    dir_wf,
    fit_scan_in_page,
    id_scan_in_page,
    is_first_fit,
    is_first_match,
    no_fit,
    not_tracked,
    pagedir_add_entry,
    pagedir_find_free_index,
    pagedir_get_entry,
    pagedir_init,
    pagedir_update_free,
    DirEntry,
};
use vstd::prelude::*;
use vstd::slice::slice_to_vec;

verus! {

/// Where a tuple lives: which page, and which 1-based offset number within
/// that page.
#[derive(Debug, Clone, Copy, PartialEq, Eq)]
pub struct TupleId {
    pub page_id: u32,
    pub offset_num: u32,
}

/// Errors returned by table operations.
#[derive(Debug)]
pub enum TableError {
    HeapFile(HeapFileError),
    Page(PageError),
    /// The record exceeds an empty page's capacity.
    RecordTooLarge { record_len: usize },
}

/// Errors returned by reading a tuple.
#[derive(Debug)]
pub enum TableReadError {
    HeapFile(HeapFileError),
    /// The tuple does not exist; `item_count` is the item count of its page
    /// (0 when the page itself does not exist).
    InvalidTupleId { tuple_id: (u32, u32), item_count: u32 },
}

/// Where an insert puts its record.
#[derive(Debug, Clone, Copy, PartialEq, Eq)]
pub enum InsertTarget {
    /// An existing data page with enough free space.
    ExistingPage(u32),
    /// No tracked page has room: the heap file must be extended by a page.
    NewPage,
}

/// The free space a freshly initialised data page offers.
pub open spec fn spec_fresh_page_free_space() -> int {
    4096 - 8
}

/// The free space a freshly initialised data page offers: `BLKSZ` minus the
/// page header.
pub fn fresh_page_free_space() -> (r: u32)
    ensures
        r == spec_fresh_page_free_space(),
{
    BLKSZ as u32 - PAGE_HEADER_SIZE as u32
}

/// Space a record takes on a page: its bytes plus one metadata entry.
pub open spec fn space_needed(record_len: int) -> int {
    record_len + 8
}

/// Build the directory of a brand-new table whose first data page is
/// `first_data_page`: one entry, advertising a fresh page's free space.
pub fn init_table_directory(dir: &mut [u8; BLKSZ], first_data_page: u32)
    ensures
        dir_wf(final(dir)@),
        dir_count(final(dir)@) == 1,
        forall|k: int| 12 <= k < 4096 ==> #[trigger] final(dir)@[k] == 0,
        dir_entries(final(dir)@) == seq![
            DirEntry { page_id: first_data_page, free_space: 4088 },
        ],
{
    pagedir_init(dir);
    let r = pagedir_add_entry(
        dir,
        DirEntry { page_id: first_data_page, free_space: fresh_page_free_space() },
    );
    assert(r is Ok);
    assert(dir_entries(dir@) =~= seq![DirEntry { page_id: first_data_page, free_space: 4088 }]);
    assert forall|k: int| 12 <= k < 4096 implies #[trigger] dir@[k] == 0 by {}
}

/// Choose where to insert a record of `record_len` bytes.
///
/// Returns `TableError::RecordTooLarge` if the record cannot fit even on an
/// empty page; otherwise the first directory entry (first fit) whose free
/// space holds the record and its metadata entry, or `NewPage` when none does.
pub fn plan_insert(dir: &[u8; BLKSZ], record_len: usize) -> (r: Result<InsertTarget, TableError>)
    requires
        space_needed(record_len as int) <= spec_fresh_page_free_space() ==> fit_scan_in_page(
            dir@,
            space_needed(record_len as int),
        ),
    ensures
        space_needed(record_len as int) > spec_fresh_page_free_space() ==> {
            &&& r matches Err(TableError::RecordTooLarge { record_len: n })
            &&& n == record_len
        },
        space_needed(record_len as int) <= spec_fresh_page_free_space() ==> {
            &&& r is Ok
            &&& (r matches Ok(InsertTarget::NewPage)) <==> no_fit(
                dir_entries(dir@),
                space_needed(record_len as int),
            )
            &&& r matches Ok(InsertTarget::ExistingPage(page_id)) ==> exists|i: int|
                is_first_fit(dir_entries(dir@), space_needed(record_len as int), i)
                    && dir_entries(dir@)[i].page_id == page_id
        },
{
    if record_len > (fresh_page_free_space() as usize) - 8 {
        return Err(TableError::RecordTooLarge { record_len });
    }
    let needed = record_len as u32 + 8;
    match pagedir_find_free_index(dir, needed) {
        Some(i) => {
            let entry = pagedir_get_entry(dir, i);
            match entry {
                Some(e) => Ok(InsertTarget::ExistingPage(e.page_id)),
                None => Ok(InsertTarget::NewPage),
            }
        },
        None => Ok(InsertTarget::NewPage),
    }
}

/// Register a data page that was just appended to the heap file: it gets a
/// directory entry advertising a fresh page's free space.
pub fn register_new_page(dir: &mut [u8; BLKSZ], page_id: u32)
    requires
        dir_count(old(dir)@) < 511,
    ensures
        dir_wf(final(dir)@),
        dir_count(final(dir)@) == dir_count(old(dir)@) + 1,
        dir_entries(final(dir)@) == dir_entries(old(dir)@).push(
            DirEntry { page_id, free_space: 4088 },
        ),
{
    let r = pagedir_add_entry(dir, DirEntry { page_id, free_space: fresh_page_free_space() });
    assert(r is Ok);
}

/// Append `record` to a data page at the next offset number
/// (`item_count() + 1`) and return that offset number.
///
/// Fails with the page's error, leaving the page unchanged, if the page has
/// no room.
pub fn append_record(page: &mut Page, record: &[u8]) -> (r: Result<u32, PageError>)
    requires
        8 <= old(page).spec_lower() <= old(page).spec_upper(),
        old(page).spec_free_space() >= space_needed(record@.len() as int) ==> old(
            page,
        ).spec_upper() <= 4096,
        record@.len() + 8 <= usize::MAX,
    ensures
        old(page).wf() ==> final(page).wf(),
        old(page).spec_free_space() < space_needed(record@.len() as int) ==> {
            &&& r matches Err(PageError::InsufficientSpace { need, available })
            &&& need == record@.len() + 8
            &&& available == old(page).spec_free_space()
            &&& *final(page) == *old(page)
        },
        old(page).spec_free_space() >= space_needed(record@.len() as int) ==> {
            &&& r matches Ok(n)
            &&& n == old(page).spec_count() + 1
            &&& final(page).bytes() == added_bytes(old(page).bytes(), record@, n as int)
            &&& final(page).spec_count() == old(page).spec_count() + 1
            &&& final(page).spec_free_space() == old(page).spec_free_space() - space_needed(
                record@.len() as int,
            )
            &&& old(page).wf() ==> final(page)@ == old(page)@.push(Some(record@))
        },
{
    let offset_num = page.item_count() + 1;
    match page.add_item(record, offset_num) {
        Ok(()) => Ok(offset_num),
        Err(e) => Err(e),
    }
}

/// Record in the directory the current free space of `page`, a data page
/// the table tracks under `page_id`.
pub fn record_free_space(dir: &mut [u8; BLKSZ], page_id: u32, page: &Page)
    requires
        id_scan_in_page(old(dir)@, page_id),
        !not_tracked(dir_entries(old(dir)@), page_id),
        page.spec_lower() <= page.spec_upper(),
    ensures
        dir_count(final(dir)@) == dir_count(old(dir)@),
        exists|i: int|
            is_first_match(dir_entries(old(dir)@), page_id, i) && dir_entries(final(dir)@)
                == dir_entries(old(dir)@).update(
                i,
                DirEntry { page_id, free_space: page.spec_free_space() as u32 },
            ),
{
    let r = pagedir_update_free(dir, page_id, page.free_space());
    assert(r is Ok);
}

/// Check that a tuple's page exists in a heap file of `num_pages` pages.
///
/// A tuple ID pointing past the end of the file is an invalid tuple ID
/// (reported with an item count of 0), not an I/O failure.
pub fn check_tuple_page(tuple_id: TupleId, num_pages: u32) -> (r: Result<(), TableReadError>)
    ensures
        tuple_id.page_id < num_pages ==> r is Ok,
        tuple_id.page_id >= num_pages ==> {
            &&& r matches Err(TableReadError::InvalidTupleId { tuple_id: t, item_count })
            &&& t == (tuple_id.page_id, tuple_id.offset_num)
            &&& item_count == 0
        },
{
    if tuple_id.page_id >= num_pages {
        return Err(
            TableReadError::InvalidTupleId {
                tuple_id: (tuple_id.page_id, tuple_id.offset_num),
                item_count: 0,
            },
        );
    }
    Ok(())
}

/// What reading offset number `n` of `page` gives: the slot's bytes when
/// `1 <= n <= item_count()`, the entry lies inside the page and is not a
/// tombstone; otherwise nothing.
pub open spec fn tuple_bytes(page: Page, n: int) -> Option<Seq<u8>> {
    if 1 <= n <= page.spec_count() && page.meta_in_area(n - 1) {
        page.slot(n - 1)
    } else {
        None
    }
}

/// On a well-formed page, reading offset number `n` gives the slot the page
/// holds there.
pub proof fn lemma_tuple_bytes_wf(page: Page, n: int)
    requires
        page.wf(),
    ensures
        tuple_bytes(page, n) == slot_at(page@, n),
{
}

/// Read the record of `tuple_id` from its (already loaded) page.
///
/// Returns `TableReadError::InvalidTupleId` if the offset number is 0 or
/// exceeds the page's item count, or the item was deleted.
pub fn read_tuple(page: &Page, tuple_id: TupleId) -> (r: Result<Vec<u8>, TableReadError>)
    requires
        page.spec_lower() >= 8,
        tuple_id.offset_num >= 1 && page.meta_in_area(tuple_id.offset_num - 1)
            && !page.is_tombstone(tuple_id.offset_num - 1) ==> page.meta_offset(
            tuple_id.offset_num - 1,
        ) + page.meta_length(tuple_id.offset_num - 1) <= 4096,
    ensures
        (match r {
            Ok(v) => Some(v@),
            Err(_) => None::<Seq<u8>>,
        }) == tuple_bytes(*page, tuple_id.offset_num as int),
        r is Err ==> {
            &&& r matches Err(TableReadError::InvalidTupleId { tuple_id: t, item_count })
            &&& t == (tuple_id.page_id, tuple_id.offset_num)
            &&& item_count == page.spec_count()
        },
        page.wf() ==> (match r {
            Ok(v) => Some(v@),
            Err(_) => None::<Seq<u8>>,
        }) == slot_at(page@, tuple_id.offset_num as int),
{
    let item_count = page.item_count();
    let invalid = TableReadError::InvalidTupleId {
        tuple_id: (tuple_id.page_id, tuple_id.offset_num),
        item_count,
    };
    if tuple_id.offset_num > item_count {
        return Err(invalid);
    }
    match page.get_item(tuple_id.offset_num) {
        Some(data) => Ok(slice_to_vec(data)),
        None => Err(invalid),
    }
}

/// The directory stays truthful across an insert: when the directory entry
/// that the first-fit search picked records the page's actual free space,
/// the record fits on that page, so `append_record` succeeds.
pub proof fn law_truthful_directory_insert_fits(
    entries: Seq<DirEntry>,
    record_len: int,
    i: int,
    page: Page,
)
    requires
        is_first_fit(entries, space_needed(record_len), i),
        entries[i].free_space == page.spec_free_space(),
    ensures
        page.spec_free_space() >= space_needed(record_len),
{
}

/// The table invariant: every directory entry names a page of the table
/// (`pages` maps page IDs to their current contents), records that page's
/// current free space, and no page is listed twice.
pub open spec fn dir_truthful(entries: Seq<DirEntry>, pages: Map<u32, Page>) -> bool {
    &&& forall|i: int|
        0 <= i < entries.len() ==> {
            &&& pages.contains_key(#[trigger] entries[i].page_id)
            &&& pages[entries[i].page_id].spec_free_space() == entries[i].free_space
        }
    &&& forall|i: int, j: int|
        0 <= i < j < entries.len() ==> #[trigger] entries[i].page_id != #[trigger] entries[j].page_id
}

/// Inserting into a tracked page keeps the directory truthful: after the
/// page becomes `new_page` and its entry records `new_page`'s free space (as
/// `record_free_space` does), every entry again matches its page.
pub proof fn law_insert_keeps_directory_truthful(
    entries: Seq<DirEntry>,
    pages: Map<u32, Page>,
    page_id: u32,
    i: int,
    new_page: Page,
)
    requires
        dir_truthful(entries, pages),
        is_first_match(entries, page_id, i),
        0 <= new_page.spec_free_space() <= u32::MAX,
    ensures
        dir_truthful(
            entries.update(
                i,
                DirEntry { page_id, free_space: new_page.spec_free_space() as u32 },
            ),
            pages.insert(page_id, new_page),
        ),
{
    let e2 = entries.update(i, DirEntry { page_id, free_space: new_page.spec_free_space() as u32 });
    let p2 = pages.insert(page_id, new_page);
    assert forall|j: int| 0 <= j < e2.len() implies {
        &&& p2.contains_key(#[trigger] e2[j].page_id)
        &&& p2[e2[j].page_id].spec_free_space() == e2[j].free_space
    } by {
        if j != i {
            if j < i {
                assert(entries[j].page_id != page_id);
            } else {
                assert(entries[i].page_id != entries[j].page_id);
            }
        }
    }
    assert forall|a: int, b: int| 0 <= a < b < e2.len() implies #[trigger] e2[a].page_id
        != #[trigger] e2[b].page_id by {
        assert(entries[a].page_id != entries[b].page_id);
    }
}

/// Registering a page that was not tracked, with the free space of a fresh
/// page (as `register_new_page` does after the heap file grew by a fresh
/// page), keeps the directory truthful.
pub proof fn law_new_page_keeps_directory_truthful(
    entries: Seq<DirEntry>,
    pages: Map<u32, Page>,
    page_id: u32,
    fresh: Page,
)
    requires
        dir_truthful(entries, pages),
        not_tracked(entries, page_id),
        fresh.spec_free_space() == spec_fresh_page_free_space(),
    ensures
        dir_truthful(
            entries.push(DirEntry { page_id, free_space: 4088 }),
            pages.insert(page_id, fresh),
        ),
{
    let e2 = entries.push(DirEntry { page_id, free_space: 4088 });
    let p2 = pages.insert(page_id, fresh);
    assert forall|j: int| 0 <= j < e2.len() implies {
        &&& p2.contains_key(#[trigger] e2[j].page_id)
        &&& p2[e2[j].page_id].spec_free_space() == e2[j].free_space
    } by {
        if j < entries.len() {
            assert(entries[j].page_id != page_id);
        }
    }
    assert forall|a: int, b: int| 0 <= a < b < e2.len() implies #[trigger] e2[a].page_id
        != #[trigger] e2[b].page_id by {
        if b < entries.len() {
            assert(entries[a].page_id != entries[b].page_id);
        } else {
            assert(entries[a].page_id != page_id);
        }
    }
}

/// Reading back after `append_record`: when `append_record` turns the
/// well-formed page `p` into `q` and returns `Ok(n)`, reading offset number
/// `n` of `q` (what `read_tuple` returns) gives the record, and every other
/// offset number reads as it did on `p`.
pub proof fn law_read_after_append(p: Page, q: Page, record: Seq<u8>, n: int, m: int)
    requires
        p.wf(),
        q.wf(),
        n == p.spec_count() + 1,
        q@ == p@.push(Some(record)),
    ensures
        tuple_bytes(q, n) == Some(record),
        m != n ==> tuple_bytes(q, m) == tuple_bytes(p, m),
{
    lemma_tuple_bytes_wf(p, m);
    lemma_tuple_bytes_wf(q, m);
    lemma_tuple_bytes_wf(q, n);
}

/// An insert rewrites one page of the table, appending one slot to it, and
/// leaves every other page as it was; so every tuple inserted earlier, on any
/// page, still reads back the same bytes.
pub proof fn law_insert_keeps_earlier_tuples(
    pages: Map<u32, Page>,
    target: u32,
    new_page: Page,
    record: Seq<u8>,
    tuple_id: TupleId,
)
    requires
        pages.contains_key(target),
        pages[target].wf(),
        new_page.wf(),
        new_page@ == pages[target]@.push(Some(record)),
        pages.contains_key(tuple_id.page_id),
        tuple_bytes(pages[tuple_id.page_id], tuple_id.offset_num as int) is Some,
    ensures
        tuple_bytes(
            pages.insert(target, new_page)[tuple_id.page_id],
            tuple_id.offset_num as int,
        ) == tuple_bytes(pages[tuple_id.page_id], tuple_id.offset_num as int),
{
    if tuple_id.page_id == target {
        let p = pages[target];
        let n = tuple_id.offset_num as int;
        lemma_tuple_bytes_wf(p, n);
        law_read_after_append(p, new_page, record, p.spec_count() + 1, n);
    }
}

/// What the program reports back to an insert in progress.
pub enum InsertEvent {
    /// The insert begins.
    Start,
    /// The heap file grew by a fresh page with this ID.
    Extended { page_id: u32 },
    /// The chosen page was read from the heap file.
    Loaded { page_id: u32, page: Page },
    /// The page holding the record was written back to the heap file.
    Written { page_id: u32, page: Page, offset_num: u32 },
}

/// What the program must do next for an insert in progress.
pub enum InsertAction {
    /// Append a fresh page to the heap file and report its ID.
    Extend,
    /// Read page `page_id` from the heap file and report it.
    Load { page_id: u32 },
    /// Write `page` to the heap file as page `page_id`, then report it.
    Write { page_id: u32, page: Page, offset_num: u32 },
    /// The record was inserted at this tuple ID.
    Done(TupleId),
    /// The insert failed with this error.
    Fail(TableError),
}

/// What an insert step needs of the directory and of the event, for a record
/// of `record_len` bytes: exactly the cases in which the step does not panic.
pub open spec fn insert_step_ready(dir: Seq<u8>, record_len: int, event: InsertEvent) -> bool {
    match event {
        InsertEvent::Start => space_needed(record_len) <= spec_fresh_page_free_space()
            ==> fit_scan_in_page(dir, space_needed(record_len)),
        InsertEvent::Extended { page_id } => dir_count(dir) < 511,
        InsertEvent::Loaded { page_id, page } => {
            &&& 8 <= page.spec_lower() <= page.spec_upper()
            &&& page.spec_free_space() >= space_needed(record_len) ==> page.spec_upper() <= 4096
        },
        InsertEvent::Written { page_id, page, offset_num } => {
            &&& id_scan_in_page(dir, page_id)
            &&& !not_tracked(dir_entries(dir), page_id)
            &&& page.spec_lower() <= page.spec_upper()
        },
    }
}

/// The first directory entry for `page_id`.
pub open spec fn first_match_index(entries: Seq<DirEntry>, page_id: u32) -> int {
    choose|i: int| is_first_match(entries, page_id, i)
}

/// The directory entries after an insert step handles `event`: a fresh page
/// is registered when the heap file grew, the written page's entry records
/// its free space once the page is on disk, and nothing changes otherwise.
pub open spec fn insert_step_entries(entries: Seq<DirEntry>, event: InsertEvent) -> Seq<
    DirEntry,
> {
    match event {
        InsertEvent::Extended { page_id } => entries.push(DirEntry { page_id, free_space: 4088 }),
        InsertEvent::Written { page_id, page, offset_num } => entries.update(
            first_match_index(entries, page_id),
            DirEntry { page_id, free_space: page.spec_free_space() as u32 },
        ),
        _ => entries,
    }
}

/// The pages of the heap file after the I/O that led to `event`: the file
/// grew by `fresh`, or the written page replaced the old one.
pub open spec fn insert_step_pages(pages: Map<u32, Page>, event: InsertEvent, fresh: Page) -> Map<
    u32,
    Page,
> {
    match event {
        InsertEvent::Extended { page_id } => pages.insert(page_id, fresh),
        InsertEvent::Written { page_id, page, offset_num } => pages.insert(page_id, page),
        _ => pages,
    }
}

/// One step of inserting `record`: given the event the program reports,
/// update the directory and say what the program does next.
///
/// The steps run: `Start` plans the insert (first fit, or a new page); after
/// `Extended` the new page is registered; after `Loaded` the record is
/// appended to the page; after `Written` (the page is on disk) the directory
/// records the page's new free space and the insert is done. The directory
/// changes only after the heap file has grown or the page was written.
pub fn insert_step(dir: &mut [u8; BLKSZ], record: &[u8], event: InsertEvent) -> (action:
    InsertAction)
    requires
        insert_step_ready(old(dir)@, record@.len() as int, event),
        record@.len() + 8 <= usize::MAX,
    ensures
        dir_entries(final(dir)@) == insert_step_entries(dir_entries(old(dir)@), event),
        dir_count(final(dir)@) == dir_count(old(dir)@) + if event is Extended {
            1int
        } else {
            0int
        },
        event is Start || event is Loaded ==> final(dir)@ == old(dir)@,
        event is Start && space_needed(record@.len() as int) > spec_fresh_page_free_space() ==> {
            &&& action matches InsertAction::Fail(TableError::RecordTooLarge { record_len })
            &&& record_len == record@.len()
        },
        event is Start && space_needed(record@.len() as int) <= spec_fresh_page_free_space() ==> {
            &&& (action is Extend) <==> no_fit(
                dir_entries(old(dir)@),
                space_needed(record@.len() as int),
            )
            &&& action is Extend || action is Load
            &&& action matches InsertAction::Load { page_id } ==> exists|i: int|
                is_first_fit(dir_entries(old(dir)@), space_needed(record@.len() as int), i)
                    && dir_entries(old(dir)@)[i].page_id == page_id
        },
        event matches InsertEvent::Extended { page_id: p } ==> action matches InsertAction::Load {
            page_id,
        } && page_id == p,
        event matches InsertEvent::Loaded { page_id: p, page } ==> if page.spec_free_space()
            < space_needed(record@.len() as int) {
            &&& action matches InsertAction::Fail(
                TableError::Page(PageError::InsufficientSpace { need, available }),
            )
            &&& need == record@.len() + 8
            &&& available == page.spec_free_space()
        } else {
            &&& action matches InsertAction::Write { page_id, page: q, offset_num }
            &&& page_id == p
            &&& offset_num == page.spec_count() + 1
            &&& q.bytes() == added_bytes(page.bytes(), record@, offset_num as int)
            &&& q.spec_free_space() == page.spec_free_space() - space_needed(
                record@.len() as int,
            )
            &&& page.wf() ==> q.wf() && q@ == page@.push(Some(record@))
        },
        event matches InsertEvent::Written { page_id, page, offset_num } ==> action
            == InsertAction::Done(TupleId { page_id, offset_num }),
{
    match event {
        InsertEvent::Start => match plan_insert(dir, record.len()) {
            Err(e) => InsertAction::Fail(e),
            Ok(InsertTarget::ExistingPage(page_id)) => InsertAction::Load { page_id },
            Ok(InsertTarget::NewPage) => InsertAction::Extend,
        },
        InsertEvent::Extended { page_id } => {
            register_new_page(dir, page_id);
            InsertAction::Load { page_id }
        },
        InsertEvent::Loaded { page_id, page } => {
            let mut page = page;
            match append_record(&mut page, record) {
                Ok(offset_num) => InsertAction::Write { page_id, page, offset_num },
                Err(e) => InsertAction::Fail(TableError::Page(e)),
            }
        },
        InsertEvent::Written { page_id, page, offset_num } => {
            let ghost entries = dir_entries(dir@);
            record_free_space(dir, page_id, &page);
            proof {
                let i = choose|i: int|
                    is_first_match(entries, page_id, i) && dir_entries(dir@) == entries.update(
                        i,
                        DirEntry { page_id, free_space: page.spec_free_space() as u32 },
                    );
                law_first_match_unique(entries, page_id, i, first_match_index(entries, page_id));
            }
            InsertAction::Done(TupleId { page_id, offset_num })
        },
    }
}

/// The directory stays truthful across every step of an insert: if every
/// entry matched its page before the step, and the heap file's pages changed
/// as the step's event reports (the file grew by a fresh page, or the page
/// holding the record was written), every entry matches its page after the
/// step too.
pub proof fn law_insert_step_keeps_directory_truthful(
    entries: Seq<DirEntry>,
    pages: Map<u32, Page>,
    event: InsertEvent,
    fresh: Page,
)
    requires
        dir_truthful(entries, pages),
        event matches InsertEvent::Extended { page_id } ==> !pages.contains_key(page_id)
            && fresh.spec_free_space() == spec_fresh_page_free_space(),
        event matches InsertEvent::Written { page_id, page, offset_num } ==> !not_tracked(
            entries,
            page_id,
        ) && 0 <= page.spec_free_space() <= u32::MAX,
    ensures
        dir_truthful(
            insert_step_entries(entries, event),
            insert_step_pages(pages, event, fresh),
        ),
{
    match event {
        InsertEvent::Extended { page_id } => {
            assert forall|j: int| 0 <= j < entries.len() implies #[trigger] entries[j].page_id
                != page_id by {
                assert(pages.contains_key(entries[j].page_id));
            }
            law_new_page_keeps_directory_truthful(entries, pages, page_id, fresh);
        },
        InsertEvent::Written { page_id, page, offset_num } => {
            let w = choose|w: int| 0 <= w < entries.len() && entries[w].page_id == page_id;
            lemma_first_match_exists(entries, page_id, w);
            let i = first_match_index(entries, page_id);
            law_insert_keeps_directory_truthful(entries, pages, page_id, i, page);
        },
        _ => {},
    }
}

/// A tracked page has a first entry.
proof fn lemma_first_match_exists(entries: Seq<DirEntry>, page_id: u32, w: int)
    requires
        0 <= w < entries.len(),
        entries[w].page_id == page_id,
    ensures
        is_first_match(entries, page_id, first_match_index(entries, page_id)),
    decreases w,
{
    if exists|j: int| 0 <= j < w && entries[j].page_id == page_id {
        let j = choose|j: int| 0 <= j < w && entries[j].page_id == page_id;
        lemma_first_match_exists(entries, page_id, j);
    } else {
        assert(is_first_match(entries, page_id, w));
    }
}

} // verus!
