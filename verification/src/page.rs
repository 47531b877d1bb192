//! Slotted page layout.
//!
//! A page is a 4 KiB block. Bytes `0..4` hold `lower` and bytes `4..8` hold
//! `upper` (both little-endian `u32`). Item metadata entries of 8 bytes each
//! (`offset`, `length`) grow upward from byte 8 up to `lower`; item data grows
//! downward from the end of the page down to `upper`. The bytes between
//! `lower` and `upper` are free space.
//!
//! A deleted slot keeps its metadata entry as a tombstone: its length is set
//! to 0 and its offset is kept. Since a live empty item also has length 0, it
//! is stored as the entry (0, 0), which no tombstone uses: a live non-empty
//! item lies at or above `upper`, never at offset 0, and deleting an entry
//! whose offset is 0 gives it the offset `BLKSZ`. So an entry is a tombstone
//! exactly when its length is 0 and its offset is not.
use crate::bytes::{lemma_u32_at_frame, put_bytes, put_u32, read_u32_le, u32_at, write_u32_le};
use vstd::prelude::*;
use vstd::slice::{slice_subrange, slice_to_vec};

verus! {

/// Database block size in bytes.
pub const BLKSZ: usize = 4096;

/// Offset of the first byte past the fixed header fields.
pub const PAGE_HEADER_SIZE: usize = 8;

/// Metadata for a single item within a page.
#[derive(Debug, Clone, Copy, PartialEq, Eq)]
pub struct PageItemMeta {
    /// Byte offset from the start of the page to the item data.
    pub offset: u32,
    /// Length of the item data in bytes.
    pub length: u32,
}

impl PageItemMeta {
    pub const SERIALIZED_SIZE: usize = 8;

    pub fn new(offset: u32, length: u32) -> (m: Self)
        ensures
            m.offset == offset,
            m.length == length,
    {
        Self { offset, length }
    }

    /// Whether this entry is a tombstone (the slot was deleted): length 0,
    /// except for the entry (0, 0), which holds a live empty item.
    pub open spec fn spec_is_deleted(&self) -> bool {
        self.length == 0 && self.offset != 0
    }

    /// Whether this slot has been deleted (tombstone).
    pub fn is_deleted(&self) -> (b: bool)
        ensures
            b == self.spec_is_deleted(),
    {
        self.length == 0 && self.offset != 0
    }
}

/// Declares `std::io::Error` so that error enums can carry it.
#[verifier::external_type_specification]
#[verifier::external_body]
pub struct ExIoError(std::io::Error);

/// Errors returned by page operations.
#[derive(Debug)]
pub enum PageError {
    /// The page is full: `need` bytes were needed but only `available` are free.
    InsufficientSpace { need: usize, available: usize },
    /// The 1-based offset number is not a valid slot for this operation.
    InvalidOffset { offset_number: u32, item_count: usize },
    /// An I/O error.
    Io(std::io::Error),
}

/// The slots of a page: `Some(bytes)` for a live item, `None` for a tombstone.
pub type Slots = Seq<Option<Seq<u8>>>;

/// Total number of item bytes held by the live slots.
pub open spec fn live_bytes(slots: Slots) -> int
    decreases slots.len(),
{
    if slots.len() == 0 {
        0
    } else {
        live_bytes(slots.drop_last()) + match slots.last() {
            Some(s) => s.len() as int,
            None => 0int,
        }
    }
}

/// The contents of the live slots, in slot order.
pub open spec fn live_contents(slots: Slots) -> Seq<Seq<u8>>
    decreases slots.len(),
{
    if slots.len() == 0 {
        Seq::empty()
    } else {
        match slots.last() {
            Some(s) => live_contents(slots.drop_last()).push(s),
            None => live_contents(slots.drop_last()),
        }
    }
}

/// Total length of a sequence of items.
pub open spec fn total_len(items: Seq<Seq<u8>>) -> int
    decreases items.len(),
{
    if items.len() == 0 {
        0
    } else {
        total_len(items.drop_last()) + items.last().len()
    }
}

/// Every item as a live slot.
pub open spec fn as_live_slots(items: Seq<Seq<u8>>) -> Slots {
    items.map_values(|s: Seq<u8>| Some(s))
}

/// The slots after storing `item` at the 1-based offset number `n`
/// (`n - 1 == slots.len()` appends a slot, a smaller `n` overwrites one).
pub open spec fn slots_after_add(slots: Slots, item: Seq<u8>, n: int) -> Slots {
    if n - 1 == slots.len() {
        slots.push(Some(item))
    } else {
        slots.update(n - 1, Some(item))
    }
}

/// The bytes of a freshly initialised page: all zero but the header, with
/// `lower` = 8 and `upper` = 4096.
pub open spec fn fresh_image() -> Seq<u8> {
    put_u32(put_u32(Seq::new(4096, |i: int| 0u8), 0, 8), 4, 4096)
}

/// The metadata offset recorded for an item stored at `new_upper`: 0 for an
/// empty item, `new_upper` otherwise.
pub open spec fn stored_offset(item_len: int, new_upper: int) -> int {
    if item_len == 0 {
        0
    } else {
        new_upper
    }
}

/// The bytes of a page after `add_item(item, n)` succeeds on bytes `b`:
/// `upper` lowered by the item's length, the item stored at the new `upper`,
/// metadata entry `n - 1` set to (`stored_offset`, length), and `lower`
/// advanced by one entry when slot `n - 1` is the next free one.
#[verifier::opaque]
pub open spec fn added_bytes(b: Seq<u8>, item: Seq<u8>, n: int) -> Seq<u8> {
    let lower = u32_at(b, 0);
    let upper = u32_at(b, 4);
    let new_upper = upper - item.len();
    let b1 = put_bytes(put_u32(b, 4, new_upper as u32), new_upper, item);
    let b2 = put_u32(
        put_u32(b1, 8 * n, stored_offset(item.len() as int, new_upper) as u32),
        8 * n + 4,
        item.len() as u32,
    );
    if n - 1 == (lower - 8) / 8 {
        put_u32(b2, 0, (lower + 8) as u32)
    } else {
        b2
    }
}

/// The offset a tombstone keeps: the entry's offset, or `BLKSZ` when that
/// offset is 0 (the entry of a live empty item).
pub open spec fn tombstone_offset(offset: int) -> int {
    if offset == 0 {
        4096
    } else {
        offset
    }
}

/// The bytes of a page after `delete_item(n)` succeeds on bytes `b`:
/// metadata entry `n - 1` becomes a tombstone, with length 0 and its offset
/// kept (`tombstone_offset`).
pub open spec fn deleted_bytes(b: Seq<u8>, n: int) -> Seq<u8> {
    put_u32(put_u32(b, 8 * n, tombstone_offset(u32_at(b, 8 * n)) as u32), 8 * n + 4, 0)
}

/// The bytes of a compacted page holding `items`: a fresh page to which the
/// items were appended in order.
pub open spec fn compacted_image(items: Seq<Seq<u8>>) -> Seq<u8>
    decreases items.len(),
{
    if items.len() == 0 {
        fresh_image()
    } else {
        added_bytes(compacted_image(items.drop_last()), items.last(), items.len() as int)
    }
}

/// Bytes `lo..hi` of `a` and `b` are equal.
pub open spec fn same_range(a: Seq<u8>, b: Seq<u8>, lo: int, hi: int) -> bool {
    forall|k: int| lo <= k < hi ==> #[trigger] a[k] == b[k]
}

/// A slotted page backed by a fixed-size buffer.
pub struct Page {
    data: [u8; BLKSZ],
}

impl Page {
    /// The raw bytes of the page.
    pub closed spec fn bytes(&self) -> Seq<u8> {
        self.data@
    }

    pub open spec fn spec_lower(&self) -> int {
        u32_at(self.bytes(), 0)
    }

    pub open spec fn spec_upper(&self) -> int {
        u32_at(self.bytes(), 4)
    }

    /// Number of metadata entries, for a page whose `lower` is well placed.
    pub open spec fn spec_count(&self) -> int {
        (self.spec_lower() - 8) / 8
    }

    pub open spec fn spec_free_space(&self) -> int {
        self.spec_upper() - self.spec_lower()
    }

    /// `offset` field of the `i`th (0-based) metadata entry.
    pub open spec fn meta_offset(&self, i: int) -> int {
        u32_at(self.bytes(), 8 + 8 * i)
    }

    /// `length` field of the `i`th (0-based) metadata entry.
    pub open spec fn meta_length(&self, i: int) -> int {
        u32_at(self.bytes(), 12 + 8 * i)
    }

    /// Metadata entry `i` is a tombstone: length 0 and offset not 0.
    pub open spec fn is_tombstone(&self, i: int) -> bool {
        self.meta_length(i) == 0 && self.meta_offset(i) != 0
    }

    /// Content of the `i`th (0-based) slot.
    pub open spec fn slot(&self, i: int) -> Option<Seq<u8>> {
        if self.is_tombstone(i) {
            None
        } else {
            Some(
                self.bytes().subrange(
                    self.meta_offset(i),
                    self.meta_offset(i) + self.meta_length(i),
                ),
            )
        }
    }

    /// Header fields in range, with `lower` on a metadata entry boundary.
    pub open spec fn header_wf(&self) -> bool {
        &&& 8 <= self.spec_lower() <= self.spec_upper() <= 4096
        &&& (self.spec_lower() - 8) % 8 == 0
    }

    /// Every entry with a nonzero length is a live item lying in the item
    /// area, between `upper` and the end of the page. (An entry with length
    /// 0 is a live empty item when its offset is 0 and a tombstone
    /// otherwise.)
    pub open spec fn items_wf(&self) -> bool {
        forall|i: int|
            0 <= i < self.spec_count() && #[trigger] self.meta_length(i) != 0 ==> {
                &&& self.spec_upper() <= self.meta_offset(i)
                &&& self.meta_offset(i) + self.meta_length(i) <= 4096
            }
    }

    /// What compaction needs of a page: an item count, every non-deleted
    /// entry's bytes inside the page, and room on an empty page for all live
    /// items together with their metadata entries.
    pub open spec fn compactable(&self) -> bool {
        &&& 8 <= self.spec_lower() <= 4096
        &&& forall|i: int|
            0 <= i < self.spec_count() && !#[trigger] self.is_tombstone(i) ==> self.meta_offset(i)
                + self.meta_length(i) <= 4096
        &&& total_len(live_contents(self@)) + 8 * live_contents(self@).len() <= 4088
    }

    /// The page layout invariant that every page operation keeps.
    pub open spec fn wf(&self) -> bool {
        &&& self.header_wf()
        &&& self.items_wf()
        &&& live_bytes(self@) <= 4096 - self.spec_upper()
    }
}

impl View for Page {
    type V = Slots;

    open spec fn view(&self) -> Slots {
        Seq::new(self.spec_count() as nat, |i: int| self.slot(i))
    }
}

proof fn lemma_live_bytes_nonneg(s: Slots)
    ensures
        live_bytes(s) >= 0,
    decreases s.len(),
{
    if s.len() > 0 {
        lemma_live_bytes_nonneg(s.drop_last());
    }
}

/// `live_bytes` after replacing slot `k`.
proof fn lemma_live_bytes_update(s: Slots, k: int, v: Option<Seq<u8>>)
    requires
        0 <= k < s.len(),
    ensures
        live_bytes(s.update(k, v)) == live_bytes(s) - match s[k] {
            Some(x) => x.len() as int,
            None => 0int,
        } + match v {
            Some(x) => x.len() as int,
            None => 0int,
        },
    decreases s.len(),
{
    if k == s.len() - 1 {
        assert(s.update(k, v).drop_last() =~= s.drop_last());
    } else {
        lemma_live_bytes_update(s.drop_last(), k, v);
        assert(s.update(k, v).drop_last() =~= s.drop_last().update(k, v));
    }
}

proof fn lemma_live_bytes_push(s: Slots, v: Option<Seq<u8>>)
    ensures
        live_bytes(s.push(v)) == live_bytes(s) + match v {
            Some(x) => x.len() as int,
            None => 0int,
        },
{
    assert(s.push(v).drop_last() =~= s);
}

/// The live bytes are the total length of the live contents, and there are
/// no more live items than slots.
proof fn lemma_live_contents_facts(s: Slots)
    ensures
        live_bytes(s) == total_len(live_contents(s)),
        live_contents(s).len() <= s.len(),
    decreases s.len(),
{
    if s.len() > 0 {
        lemma_live_contents_facts(s.drop_last());
        match s.last() {
            Some(x) => {
                assert(live_contents(s).drop_last() =~= live_contents(s.drop_last()));
            },
            None => {},
        }
    }
}

/// The total length of a prefix grows by the next item's length.
proof fn lemma_total_len_take(items: Seq<Seq<u8>>, k: int)
    requires
        0 <= k < items.len(),
    ensures
        total_len(items.take(k + 1)) == total_len(items.take(k)) + items[k].len(),
        total_len(items.take(k + 1)) <= total_len(items),
{
    assert(items.take(k + 1).drop_last() =~= items.take(k));
    lemma_total_len_prefix(items, k + 1);
}

proof fn lemma_total_len_prefix(items: Seq<Seq<u8>>, k: int)
    requires
        0 <= k <= items.len(),
    ensures
        total_len(items.take(k)) <= total_len(items),
    decreases items.len() - k,
{
    if k < items.len() {
        lemma_total_len_prefix(items, k + 1);
        assert(items.take(k + 1).drop_last() =~= items.take(k));
    } else {
        assert(items.take(k) =~= items);
    }
}

/// The live contents of a prefix of slots extend by the next live slot.
proof fn lemma_live_contents_take(s: Slots, i: int)
    requires
        0 <= i < s.len(),
    ensures
        live_contents(s.take(i + 1)) == match s[i] {
            Some(x) => live_contents(s.take(i)).push(x),
            None => live_contents(s.take(i)),
        },
{
    assert(s.take(i + 1).drop_last() =~= s.take(i));
}

/// Appending item `k` to the compacted image of the first `k` items gives
/// the compacted image of the first `k + 1`.
proof fn lemma_compacted_image_step(live: Seq<Seq<u8>>, k: int)
    requires
        0 <= k < live.len(),
    ensures
        compacted_image(live.take(k + 1)) == added_bytes(
            compacted_image(live.take(k)),
            live[k],
            k + 1,
        ),
{
    assert(live.take(k + 1).drop_last() =~= live.take(k));
    assert(live.take(k + 1).last() == live[k]);
}

/// One step of re-inserting the live items during compaction keeps the
/// compaction invariants.
proof fn lemma_compact_step(prev: Page, next: Page, live: Seq<Seq<u8>>, k: int)
    requires
        0 <= k < live.len(),
        live.len() <= 511,
        total_len(live) + 8 * live.len() <= 4088,
        prev.wf(),
        prev@ == as_live_slots(live.take(k)),
        prev.spec_upper() == 4096 - total_len(live.take(k)),
        prev.spec_lower() == 8 + 8 * k,
        forall|j: int|
            0 <= j < k ==> {
                &&& #[trigger] prev.meta_offset(j) == stored_offset(
                    live[j].len() as int,
                    4096 - total_len(live.take(j + 1)),
                )
                &&& prev.meta_length(j) == live[j].len()
            },
        forall|x: int| prev.spec_lower() <= x < prev.spec_upper() ==> #[trigger] prev.bytes()[x] == 0,
        next.wf(),
        next@ == slots_after_add(prev@, live[k], k + 1),
        next.spec_upper() == prev.spec_upper() - live[k].len(),
        next.spec_lower() == prev.spec_lower() + 8,
        next.meta_offset(k) == stored_offset(live[k].len() as int, next.spec_upper()),
        next.meta_length(k) == live[k].len(),
        forall|x: int|
            0 <= x < 4096 && !(0 <= x < 8) && !(8 * (k + 1) <= x < 8 * (k + 1) + 8) && !(
            next.spec_upper() <= x < prev.spec_upper()) ==> #[trigger] next.bytes()[x]
                == prev.bytes()[x],
    ensures
        next@ == as_live_slots(live.take(k + 1)),
        next.spec_upper() == 4096 - total_len(live.take(k + 1)),
        next.spec_lower() == 8 + 8 * (k + 1),
        forall|j: int|
            0 <= j < k + 1 ==> {
                &&& #[trigger] next.meta_offset(j) == stored_offset(
                    live[j].len() as int,
                    4096 - total_len(live.take(j + 1)),
                )
                &&& next.meta_length(j) == live[j].len()
            },
        forall|x: int| next.spec_lower() <= x < next.spec_upper() ==> #[trigger] next.bytes()[x] == 0,
{
    next.lemma_bytes_len();
    prev.lemma_bytes_len();
    lemma_total_len_take(live, k);
    assert(next@ =~= as_live_slots(live.take(k + 1)));
    assert forall|j: int| 0 <= j < k + 1 implies {
        &&& #[trigger] next.meta_offset(j) == stored_offset(
                    live[j].len() as int,
                    4096 - total_len(live.take(j + 1)),
                )
        &&& next.meta_length(j) == live[j].len()
    } by {
        if j < k {
            assert(prev.meta_offset(j) == stored_offset(
                    live[j].len() as int,
                    4096 - total_len(live.take(j + 1)),
                ));
            lemma_u32_at_frame(next.bytes(), prev.bytes(), 8 + 8 * j);
            lemma_u32_at_frame(next.bytes(), prev.bytes(), 12 + 8 * j);
        }
    }
    assert forall|x: int| next.spec_lower() <= x < next.spec_upper() implies #[trigger] next.bytes()[x]
        == 0 by {
        assert(prev.bytes()[x] == 0);
    }
}

/// A slot whose metadata and item bytes are unchanged has unchanged content.
proof fn lemma_slot_frame(p: Page, q: Page, i: int)
    requires
        0 <= i,
        16 + 8 * i <= 4096,
        same_range(p.bytes(), q.bytes(), 8 + 8 * i, 16 + 8 * i),
        p.meta_length(i) != 0 ==> p.meta_offset(i) + p.meta_length(i) <= 4096,
        p.meta_length(i) != 0 ==> same_range(
            p.bytes(),
            q.bytes(),
            p.meta_offset(i),
            p.meta_offset(i) + p.meta_length(i),
        ),
    ensures
        q.meta_offset(i) == p.meta_offset(i),
        q.meta_length(i) == p.meta_length(i),
        q.slot(i) == p.slot(i),
{
    let b1 = p.bytes();
    let b2 = q.bytes();
    lemma_u32_at_frame(b1, b2, 8 + 8 * i);
    lemma_u32_at_frame(b1, b2, 12 + 8 * i);
    if p.meta_length(i) != 0 {
        let lo = p.meta_offset(i);
        let hi = lo + p.meta_length(i);
        assert(b1.subrange(lo, hi) =~= b2.subrange(lo, hi));
    } else if p.meta_offset(i) == 0 {
        assert(b1.subrange(0, 0) =~= b2.subrange(0, 0));
    }
}

/// The slot with 1-based offset number `n`, or `None` when there is no such
/// slot or it is a tombstone.
pub open spec fn slot_at(slots: Slots, n: int) -> Option<Seq<u8>> {
    if 1 <= n <= slots.len() {
        slots[n - 1]
    } else {
        None
    }
}

impl Page {
    pub proof fn lemma_bytes_len(&self)
        ensures
            self.bytes().len() == 4096,
    {
    }

    /// Create a new zeroed page with proper header initialization.
    ///
    /// After initialization `lower` is `PAGE_HEADER_SIZE` and `upper` is
    /// `BLKSZ`: the entire page past the header is free space.
    pub fn new() -> (p: Self)
        ensures
            p.wf(),
            p@ == Seq::<Option<Seq<u8>>>::empty(),
            p.spec_lower() == 8,
            p.spec_upper() == 4096,
            p.bytes() == fresh_image(),
            forall|k: int| 8 <= k < 4096 ==> #[trigger] p.bytes()[k] == 0,
    {
        let mut page = Self { data: [0u8; BLKSZ] };
        page.init();
        page
    }

    /// Re-initialize the page (clear all data and reset header).
    pub fn init(&mut self)
        ensures
            final(self).wf(),
            final(self)@ == Seq::<Option<Seq<u8>>>::empty(),
            final(self).spec_lower() == 8,
            final(self).spec_upper() == 4096,
            final(self).bytes() == fresh_image(),
            forall|k: int| 8 <= k < 4096 ==> #[trigger] final(self).bytes()[k] == 0,
    {
        self.data = [0u8; BLKSZ];
        assert(self.bytes() =~= Seq::new(4096, |i: int| 0u8));
        self.set_lower(PAGE_HEADER_SIZE as u32);
        self.set_upper(BLKSZ as u32);
        assert(self@ =~= Seq::<Option<Seq<u8>>>::empty());
    }

    /// The `lower` header field: the end of the item metadata array.
    pub fn lower(&self) -> (v: u32)
        ensures
            v == self.spec_lower(),
    {
        read_u32_le(&self.data, 0)
    }

    /// The `upper` header field: the start of the item data area.
    pub fn upper(&self) -> (v: u32)
        ensures
            v == self.spec_upper(),
    {
        read_u32_le(&self.data, 4)
    }

    fn set_lower(&mut self, val: u32)
        ensures
            final(self).bytes() == put_u32(old(self).bytes(), 0, val),
            final(self).spec_lower() == val,
            forall|k: int|
                0 <= k < 4096 && !(0 <= k < 4) ==> #[trigger] final(self).bytes()[k] == old(self).bytes()[k],
    {
        write_u32_le(&mut self.data, 0, val);
    }

    fn set_upper(&mut self, val: u32)
        ensures
            final(self).bytes() == put_u32(old(self).bytes(), 4, val),
            final(self).spec_upper() == val,
            forall|k: int|
                0 <= k < 4096 && !(4 <= k < 8) ==> #[trigger] final(self).bytes()[k] == old(self).bytes()[k],
    {
        write_u32_le(&mut self.data, 4, val);
    }

    /// Number of bytes of free space between the item metadata and the item data.
    pub fn free_space(&self) -> (r: u32)
        requires
            self.spec_lower() <= self.spec_upper(),
        ensures
            r == self.spec_free_space(),
    {
        self.upper() - self.lower()
    }

    /// Number of item metadata entries currently stored.
    pub fn item_count(&self) -> (r: u32)
        requires
            self.spec_lower() >= 8,
        ensures
            r == self.spec_count(),
    {
        (self.lower() - PAGE_HEADER_SIZE as u32) / PageItemMeta::SERIALIZED_SIZE as u32
    }

    /// Whether metadata entry `i` (0-based) lies inside the metadata area:
    /// below `lower` and within the page.
    pub open spec fn meta_in_area(&self, i: int) -> bool {
        &&& 0 <= i
        &&& 16 + 8 * i <= self.spec_lower()
        &&& 16 + 8 * i <= 4096
    }

    /// Read the `i`th item metadata entry (0-based index), or `None` when it
    /// lies past `lower` or past the end of the page.
    fn read_item_meta(&self, i: u32) -> (r: Option<PageItemMeta>)
        ensures
            r is None <==> !self.meta_in_area(i as int),
            r matches Some(m) ==> m.offset == self.meta_offset(i as int) && m.length
                == self.meta_length(i as int),
    {
        let start: u64 = PAGE_HEADER_SIZE as u64 + i as u64 * PageItemMeta::SERIALIZED_SIZE as u64;
        if start + PageItemMeta::SERIALIZED_SIZE as u64 > BLKSZ as u64 {
            return None;
        }
        // Also check against lower so as not to read past the metadata area.
        if start + PageItemMeta::SERIALIZED_SIZE as u64 > self.lower() as u64 {
            return None;
        }
        proof {
            self.lemma_bytes_len();
        }
        let start = start as usize;
        let offset = read_u32_le(&self.data, start);
        let length = read_u32_le(&self.data, start + 4);
        Some(PageItemMeta { offset, length })
    }

    /// Write the `i`th item metadata entry (0-based index).
    fn write_item_meta(&mut self, i: usize, meta: &PageItemMeta)
        requires
            16 + 8 * i <= 4096,
        ensures
            final(self).bytes() == put_u32(
                put_u32(old(self).bytes(), 8 + 8 * i, meta.offset),
                12 + 8 * i,
                meta.length,
            ),
            final(self).meta_offset(i as int) == meta.offset,
            final(self).meta_length(i as int) == meta.length,
            forall|k: int|
                0 <= k < 4096 && !(8 + 8 * i <= k < 16 + 8 * i) ==> #[trigger] final(self).bytes()[k] == old(self).bytes()[k],
    {
        let start = PAGE_HEADER_SIZE + i * PageItemMeta::SERIALIZED_SIZE;
        write_u32_le(&mut self.data, start, meta.offset);
        write_u32_le(&mut self.data, start + 4, meta.length);
    }

    /// Retrieve an item by its 1-based offset number.
    ///
    /// Returns `None` if the offset is out of bounds or the item was deleted.
    pub fn get_item(&self, offset_number: u32) -> (r: Option<&[u8]>)
        requires
            offset_number >= 1 && self.meta_in_area(offset_number - 1) && !self.is_tombstone(
                offset_number - 1,
            ) ==> self.meta_offset(offset_number - 1) + self.meta_length(offset_number - 1)
                <= 4096,
        ensures
            offset_number == 0 || !self.meta_in_area(offset_number - 1) ==> r is None,
            offset_number >= 1 && self.meta_in_area(offset_number - 1) ==> (match r {
                Some(s) => Some(s@),
                None => None::<Seq<u8>>,
            }) == self.slot(offset_number - 1),
            self.wf() ==> (match r {
                Some(s) => Some(s@),
                None => None::<Seq<u8>>,
            }) == slot_at(self@, offset_number as int),
    {
        if offset_number == 0 {
            return None;
        }
        let meta = match self.read_item_meta(offset_number - 1) {
            Some(m) => m,
            None => return None,
        };
        if meta.is_deleted() {
            return None;
        }
        proof {
            self.lemma_bytes_len();
        }
        let offset = meta.offset as usize;
        Some(slice_subrange(self.data.as_slice(), offset, offset + meta.length as usize))
    }

    /// Get the metadata for an item by its 1-based offset number, or `None`
    /// when there is no such entry.
    pub fn get_item_meta(&self, offset_number: u32) -> (r: Option<PageItemMeta>)
        ensures
            r is None <==> offset_number == 0 || !self.meta_in_area(offset_number - 1),
            r matches Some(m) ==> {
                &&& m.offset == self.meta_offset(offset_number - 1)
                &&& m.length == self.meta_length(offset_number - 1)
            },
            self.header_wf() ==> (r is None <==> offset_number == 0 || offset_number
                > self.spec_count()),
            self.wf() ==> (r matches Some(m) ==> (m.length != 0 ==> {
                &&& self.spec_upper() <= m.offset
                &&& m.offset + m.length <= 4096
            })),
    {
        if offset_number == 0 {
            return None;
        }
        self.read_item_meta(offset_number - 1)
    }

    /// Read the raw page bytes.
    pub fn as_bytes(&self) -> (r: &[u8; BLKSZ])
        ensures
            r@ == self.bytes(),
    {
        &self.data
    }

    /// Construct a page from a raw byte buffer.
    pub fn from_bytes(data: [u8; BLKSZ]) -> (p: Self)
        ensures
            p.bytes() == data@,
    {
        Self { data }
    }
}

impl Default for Page {
    fn default() -> (p: Self)
        ensures
            p.wf(),
            p@ == Seq::<Option<Seq<u8>>>::empty(),
            p.spec_lower() == 8,
            p.spec_upper() == 4096,
            p.bytes() == fresh_image(),
            forall|k: int| 8 <= k < 4096 ==> #[trigger] p.bytes()[k] == 0,
    {
        Self::new()
    }
}

impl Page {
    /// Add an item to the page.
    ///
    /// The item is stored at the given 1-based `offset_number`: either the
    /// next free slot (`item_count() + 1`, an append) or an existing slot,
    /// which is overwritten. An add needs free space for the item bytes plus
    /// one metadata entry; an append uses both, an overwrite only the item
    /// bytes. The entry records the item's offset and length, except that an
    /// empty item is recorded as (0, 0), which is not a tombstone.
    ///
    /// Returns `PageError::InsufficientSpace` if the page doesn't have room,
    /// and otherwise `PageError::InvalidOffset` if the offset number is out
    /// of range. On error the page is unchanged.
    pub fn add_item(&mut self, item: &[u8], offset_number: u32) -> (r: Result<(), PageError>)
        requires
            8 <= old(self).spec_lower() <= old(self).spec_upper(),
            old(self).spec_free_space() >= item@.len() + 8 ==> old(self).spec_upper() <= 4096,
            item@.len() + 8 <= usize::MAX,
        ensures
            old(self).wf() ==> final(self).wf(),
            old(self).spec_free_space() < item@.len() + 8 ==> {
                &&& r matches Err(PageError::InsufficientSpace { need, available })
                &&& need == item@.len() + 8
                &&& available == old(self).spec_free_space()
                &&& *final(self) == *old(self)
            },
            old(self).spec_free_space() >= item@.len() + 8 && (offset_number == 0
                || offset_number > old(self).spec_count() + 1) ==> {
                &&& r matches Err(PageError::InvalidOffset { offset_number: o, item_count })
                &&& o == offset_number
                &&& item_count == old(self).spec_count()
                &&& *final(self) == *old(self)
            },
            old(self).spec_free_space() >= item@.len() + 8 && 1 <= offset_number
                <= old(self).spec_count() + 1 ==> {
                &&& r is Ok
                &&& final(self).bytes() == added_bytes(
                    old(self).bytes(),
                    item@,
                    offset_number as int,
                )
                &&& final(self).spec_upper() == old(self).spec_upper() - item@.len()
                &&& final(self).spec_lower() == old(self).spec_lower() + if offset_number - 1
                    == old(self).spec_count() {
                    8int
                } else {
                    0int
                }
                &&& final(self).meta_offset(offset_number - 1) == stored_offset(
                    item@.len() as int,
                    final(self).spec_upper(),
                )
                &&& final(self).meta_length(offset_number - 1) == item@.len()
                &&& final(self).bytes().subrange(
                    final(self).spec_upper(),
                    old(self).spec_upper(),
                ) == item@
                &&& forall|x: int|
                    0 <= x < 4096 && !(0 <= x < 8) && !(8 * offset_number <= x < 8
                        * offset_number + 8) && !(final(self).spec_upper() <= x < old(self).spec_upper()) ==> #[trigger] final(self).bytes()[x] == old(self).bytes()[x]
                &&& old(self).wf() ==> final(self)@ == slots_after_add(
                    old(self)@,
                    item@,
                    offset_number as int,
                )
            },
    {
        let len = item.len();
        let space_needed = len + PageItemMeta::SERIALIZED_SIZE;
        let free = self.free_space();
        if (free as usize) < space_needed {
            return Err(PageError::InsufficientSpace { need: space_needed, available: free as usize });
        }
        // Offset numbers are 1-based; the slot index is 0-based. Writing to the
        // next available slot appends; a smaller one overwrites that slot.
        let count = self.item_count();
        if offset_number == 0 || offset_number - 1 > count {
            return Err(PageError::InvalidOffset { offset_number, item_count: count as usize });
        }
        let slot_index = offset_number - 1;
        let lower = self.lower();
        let upper = self.upper();
        let ghost before = *self;
        proof {
            self.lemma_bytes_len();
        }

        // Shift upper down to make room for the item data.
        let new_upper = upper - len as u32;
        self.set_upper(new_upper);
        let ghost moved = self.bytes();

        // Copy item data into the page.
        let start = new_upper as usize;
        let mut j: usize = 0;
        while j < len
            invariant
                0 <= j <= len,
                len == item@.len(),
                start == new_upper,
                new_upper + len == upper,
                upper <= 4096,
                16 <= new_upper,
                self.spec_upper() == new_upper,
                forall|k: int|
                    0 <= k < 4096 && !(4 <= k < 8) && !(start <= k < start + j) ==> #[trigger] self.bytes()[k]
                        == before.bytes()[k],
                forall|t: int| 0 <= t < j ==> #[trigger] self.bytes()[start + t] == item@[t],
                self.bytes() == put_bytes(moved, start as int, item@.take(j as int)),
                moved.len() == 4096,
            decreases len - j,
        {
            self.data[start + j] = item[j];
            assert(self.bytes() =~= put_bytes(moved, start as int, item@.take(j + 1)));
            j += 1;
        }
        assert(item@.take(len as int) =~= item@);

        // Write the item metadata. An empty item is recorded as (0, 0), so it
        // is not mistaken for a tombstone.
        let stored = if len == 0 {
            0
        } else {
            new_upper
        };
        let meta = PageItemMeta::new(stored, len as u32);
        let ghost after_copy = *self;
        self.write_item_meta(slot_index as usize, &meta);

        // Advance lower past the new metadata entry (only when appending).
        if slot_index == count {
            self.set_lower(lower + PageItemMeta::SERIALIZED_SIZE as u32);
        }
        proof {
            assert(self.bytes() == added_bytes(before.bytes(), item@, offset_number as int)) by {
                reveal(added_bytes);
            }
            assert forall|t: int| 0 <= t < len implies #[trigger] self.bytes()[start + t]
                == item@[t] by {
                assert(after_copy.bytes()[start + t] == item@[t]);
            }
            assert forall|t: int| 0 <= t < len implies self.bytes().subrange(
                new_upper as int,
                upper as int,
            )[t] == item@[t] by {
                assert(self.bytes()[start + t] == item@[t]);
            }
            assert(self.bytes().subrange(new_upper as int, upper as int) =~= item@);
            if before.wf() {
                self.lemma_add_item_effect(before, item@, slot_index as int, new_upper as int);
            }
        }
        Ok(())
    }

    proof fn lemma_add_item_effect(&self, before: Page, item: Seq<u8>, k: int, new_upper: int)
        requires
            before.wf(),
            0 <= k <= before.spec_count(),
            new_upper == before.spec_upper() - item.len(),
            before.spec_lower() + 8 <= new_upper,
            self.spec_upper() == new_upper,
            self.spec_lower() == before.spec_lower() + if k == before.spec_count() {
                8int
            } else {
                0int
            },
            self.meta_offset(k) == stored_offset(item.len() as int, new_upper),
            self.meta_length(k) == item.len(),
            forall|t: int| 0 <= t < item.len() ==> #[trigger] self.bytes()[new_upper + t] == item[t],
            forall|x: int|
                0 <= x < 4096 && !(0 <= x < 8) && !(8 + 8 * k <= x < 16 + 8 * k) && !(new_upper <= x
                    < before.spec_upper()) ==> #[trigger] self.bytes()[x] == before.bytes()[x],
        ensures
            self.wf(),
            self@ == slots_after_add(before@, item, k + 1),
    {
        self.lemma_bytes_len();
        before.lemma_bytes_len();
        let expected = slots_after_add(before@, item, k + 1);
        assert forall|j: int| 0 <= j < self.spec_count() implies #[trigger] self.slot(j) == expected[j] by {
            if j == k && item.len() == 0 {
                assert(self.bytes().subrange(0, 0) =~= item);
            } else if j == k {
                assert forall|t: int| 0 <= t < item.len() implies self.bytes().subrange(
                    new_upper,
                    new_upper + item.len(),
                )[t] == item[t] by {
                    assert(self.bytes()[new_upper + t] == item[t]);
                }
                assert(self.bytes().subrange(new_upper, new_upper + item.len()) =~= item);
            } else {
                assert(before.meta_length(j) != 0 ==> before.spec_upper() <= before.meta_offset(j));
                lemma_slot_frame(before, *self, j);
            }
        }
        assert(self@ =~= expected);
        assert forall|i: int| 0 <= i < self.spec_count() && #[trigger] self.meta_length(i) != 0 implies {
            &&& self.spec_upper() <= self.meta_offset(i)
            &&& self.meta_offset(i) + self.meta_length(i) <= 4096
        } by {
            if i != k {
                assert(before.meta_length(i) != 0 ==> before.spec_upper() <= before.meta_offset(i));
                lemma_slot_frame(before, *self, i);
            }
        }
        if k == before.spec_count() {
            lemma_live_bytes_push(before@, Some(item));
        } else {
            lemma_live_bytes_update(before@, k, Some(item));
            match before@[k] {
                Some(x) => {},
                None => {},
            }
        }
    }
}

impl Page {
    /// Mark an item as deleted by setting its length to 0 (tombstone).
    ///
    /// The entry keeps its offset (an empty item's entry (0, 0) gets the
    /// offset `BLKSZ` instead, so that it reads as deleted), the slot keeps
    /// its offset number, and no bytes are reclaimed until `compact`. Returns `PageError::InvalidOffset` (and leaves the page
    /// unchanged) if there is no slot with that offset number.
    pub fn delete_item(&mut self, offset_number: u32) -> (r: Result<(), PageError>)
        requires
            old(self).spec_lower() >= 8,
            1 <= offset_number <= old(self).spec_count() ==> 8 + 8 * offset_number <= 4096,
        ensures
            old(self).wf() ==> final(self).wf(),
            offset_number == 0 || offset_number > old(self).spec_count() ==> {
                &&& r matches Err(PageError::InvalidOffset { offset_number: o, item_count })
                &&& o == offset_number
                &&& item_count == old(self).spec_count()
                &&& *final(self) == *old(self)
            },
            1 <= offset_number <= old(self).spec_count() ==> {
                &&& r is Ok
                &&& final(self).bytes() == deleted_bytes(old(self).bytes(), offset_number as int)
                &&& final(self).meta_offset(offset_number - 1) == tombstone_offset(
                    old(self).meta_offset(offset_number - 1),
                )
                &&& final(self).meta_length(offset_number - 1) == 0
                &&& final(self).is_tombstone(offset_number - 1)
                &&& forall|x: int|
                    0 <= x < 4096 && !(8 * offset_number <= x < 8 * offset_number + 8)
                        ==> #[trigger] final(self).bytes()[x] == old(self).bytes()[x]
                &&& final(self).spec_upper() == old(self).spec_upper()
                &&& final(self).spec_lower() == old(self).spec_lower()
                &&& old(self).wf() ==> final(self)@ == old(self)@.update(offset_number - 1, None)
            },
    {
        let count = self.item_count();
        if offset_number == 0 || offset_number - 1 >= count {
            return Err(PageError::InvalidOffset { offset_number, item_count: count as usize });
        }
        let slot_index = (offset_number - 1) as usize;
        let ghost before = *self;
        proof {
            self.lemma_bytes_len();
        }
        let meta = match self.read_item_meta(slot_index as u32) {
            Some(m) => m,
            None => {
                // The entry lies below `lower` and inside the page.
                assert(false);
                return Ok(());
            },
        };
        // The tombstone keeps the entry's offset; the entry (0, 0) of a live
        // empty item gets the offset `BLKSZ` so that it reads as deleted.
        let kept_offset = if meta.offset == 0 {
            BLKSZ as u32
        } else {
            meta.offset
        };
        let tombstone = PageItemMeta::new(kept_offset, 0);
        self.write_item_meta(slot_index, &tombstone);
        proof {
            lemma_u32_at_frame(self.bytes(), before.bytes(), 0);
            lemma_u32_at_frame(self.bytes(), before.bytes(), 4);
            if before.wf() {
                self.lemma_delete_item_effect(before, slot_index as int);
            }
        }
        Ok(())
    }

    proof fn lemma_delete_item_effect(&self, before: Page, k: int)
        requires
            before.wf(),
            0 <= k < before.spec_count(),
            self.meta_offset(k) != 0,
            self.meta_length(k) == 0,
            forall|x: int|
                0 <= x < 4096 && !(8 + 8 * k <= x < 16 + 8 * k) ==> #[trigger] self.bytes()[x]
                    == before.bytes()[x],
        ensures
            self.wf(),
            self@ == before@.update(k, None),
            self.spec_upper() == before.spec_upper(),
            self.spec_lower() == before.spec_lower(),
    {
        self.lemma_bytes_len();
        before.lemma_bytes_len();
        lemma_u32_at_frame(self.bytes(), before.bytes(), 0);
        lemma_u32_at_frame(self.bytes(), before.bytes(), 4);
        let expected = before@.update(k, None);
        assert forall|j: int| 0 <= j < self.spec_count() implies #[trigger] self.slot(j) == expected[j] by {
            if j != k {
                assert(before.meta_length(j) != 0 ==> before.spec_upper() <= before.meta_offset(j));
                lemma_slot_frame(before, *self, j);
            }
        }
        assert(self@ =~= expected);
        assert forall|i: int| 0 <= i < self.spec_count() && #[trigger] self.meta_length(i) != 0 implies {
            &&& self.spec_upper() <= self.meta_offset(i)
            &&& self.meta_offset(i) + self.meta_length(i) <= 4096
        } by {
            if i != k {
                assert(before.meta_length(i) != 0 ==> before.spec_upper() <= before.meta_offset(i));
                lemma_slot_frame(before, *self, i);
            }
        }
        lemma_live_bytes_update(before@, k, None);
        match before@[k] {
            Some(x) => {},
            None => {},
        }
    }

    /// Compact the page by removing deleted items and defragmenting.
    ///
    /// After compaction, all live items are contiguous from the top of the
    /// page, in their previous slot order, and the metadata array has no gaps:
    /// the `i`th live item now has offset number `i + 1`. The free space
    /// between the metadata and the items is zeroed.
    pub fn compact(&mut self)
        requires
            old(self).compactable(),
        ensures
            final(self).wf(),
            final(self).bytes() == compacted_image(live_contents(old(self)@)),
            final(self)@ == as_live_slots(live_contents(old(self)@)),
            final(self).spec_upper() == 4096 - total_len(live_contents(old(self)@)),
            final(self).spec_lower() == 8 + 8 * live_contents(old(self)@).len(),
            forall|j: int|
                0 <= j < live_contents(old(self)@).len() ==> {
                    &&& #[trigger] final(self).meta_offset(j) == stored_offset(
                        live_contents(old(self)@)[j].len() as int,
                        4096 - total_len(live_contents(old(self)@).take(j + 1)),
                    )
                    &&& final(self).meta_length(j) == live_contents(old(self)@)[j].len()
                },
            forall|x: int|
                final(self).spec_lower() <= x < final(self).spec_upper() ==> #[trigger] final(self).bytes()[x] == 0,
    {
        let ghost before = *self;
        let count = self.item_count() as usize;

        // Collect live items.
        let mut live_items: Vec<Vec<u8>> = Vec::new();
        let mut i: usize = 0;
        while i < count
            invariant
                *self == before,
                before.compactable(),
                count == before.spec_count(),
                0 <= i <= count,
                live_items.deep_view() == live_contents(before@.take(i as int)),
            decreases count - i,
        {
            proof {
                lemma_live_contents_take(before@, i as int);
                assert(!before.is_tombstone(i as int) ==> before.meta_offset(i as int)
                    + before.meta_length(i as int) <= 4096);
            }
            if let Some(data) = self.get_item((i + 1) as u32) {
                let ghost prev = live_items.deep_view();
                let copy = slice_to_vec(data);
                assert(copy.deep_view() =~= data@);
                live_items.push(copy);
                assert(live_items.deep_view() =~= prev.push(data@));
            }
            i += 1;
        }
        assert(before@.take(count as int) =~= before@);
        let ghost live = live_items.deep_view();
        proof {
            lemma_live_contents_facts(before@);
            lemma_live_bytes_nonneg(before@);
        }

        // Re-initialize the page.
        self.init();
        assert(live.take(0) =~= Seq::<Seq<u8>>::empty());

        // Re-insert all live items sequentially.
        let mut k: usize = 0;
        while k < live_items.len()
            invariant
                live == live_items.deep_view(),
                live == live_contents(before@),
                total_len(live) + 8 * live.len() <= 4088,
                live.len() <= 511,
                0 <= k <= live.len(),
                self.wf(),
                self@ == as_live_slots(live.take(k as int)),
                self.spec_upper() == 4096 - total_len(live.take(k as int)),
                self.spec_lower() == 8 + 8 * k,
                self.bytes() == compacted_image(live.take(k as int)),
                forall|j: int|
                    0 <= j < k ==> {
                        &&& #[trigger] self.meta_offset(j) == stored_offset(
                    live[j].len() as int,
                    4096 - total_len(live.take(j + 1)),
                )
                        &&& self.meta_length(j) == live[j].len()
                    },
                forall|x: int|
                    self.spec_lower() <= x < self.spec_upper() ==> #[trigger] self.bytes()[x] == 0,
            decreases live.len() - k,
        {
            proof {
                lemma_total_len_take(live, k as int);
            }
            let item = live_items[k].as_slice();
            assert(item@ == live[k as int]);
            let ghost prev = *self;
            let r = self.add_item(item, (k + 1) as u32);
            assert(r is Ok);
            proof {
                lemma_compact_step(prev, *self, live, k as int);
                lemma_compacted_image_step(live, k as int);
            }
            k += 1;
        }
        assert(live.take(live.len() as int) =~= live);
    }

    /// Whether the page satisfies the layout invariant `wf`, which every
    /// page operation requires. A page built from raw bytes need not.
    pub fn is_well_formed(&self) -> (b: bool)
        ensures
            b == self.wf(),
    {
        let lower = self.lower();
        let upper = self.upper();
        if lower < 8 || lower > upper || upper > 4096 || (lower - 8) % 8 != 0 {
            return false;
        }
        proof {
            self.lemma_bytes_len();
        }
        let count = (lower - 8) / 8;
        let mut total: u64 = 0;
        let mut i: u32 = 0;
        while i < count
            invariant
                self.header_wf(),
                count == self.spec_count(),
                upper == self.spec_upper(),
                0 <= i <= count,
                count <= 511,
                total <= i * 4096,
                total == live_bytes(self@.take(i as int)),
                forall|j: int|
                    0 <= j < i && #[trigger] self.meta_length(j) != 0 ==> {
                        &&& self.spec_upper() <= self.meta_offset(j)
                        &&& self.meta_offset(j) + self.meta_length(j) <= 4096
                    },
            decreases count - i,
        {
            let start = PAGE_HEADER_SIZE + (i as usize) * PageItemMeta::SERIALIZED_SIZE;
            let offset = read_u32_le(&self.data, start);
            let length = read_u32_le(&self.data, start + 4);
            assert(self@.take(i + 1).drop_last() =~= self@.take(i as int));
            if length != 0 {
                if offset < upper || offset as u64 + length as u64 > 4096 {
                    return false;
                }
                assert(self.slot(i as int) == Some(self.bytes().subrange(offset as int, offset + length)));
                total = total + length as u64;
            } else if offset == 0 {
                assert(self.slot(i as int) == Some(self.bytes().subrange(0, 0)));
            }
            i += 1;
        }
        assert(self@.take(count as int) =~= self@);
        total <= (4096 - upper) as u64
    }
}

/// A well-formed page can be compacted.
pub proof fn lemma_wf_compactable(p: Page)
    requires
        p.wf(),
    ensures
        p.compactable(),
{
    lemma_live_contents_facts(p@);
    assert forall|i: int| 0 <= i < p.spec_count() && !#[trigger] p.is_tombstone(i) implies p.meta_offset(i)
        + p.meta_length(i) <= 4096 by {
        if p.meta_length(i) != 0 {
        }
    }
}

/// Reading slot `n` right after storing `item` there gives back `item`, and
/// every other offset number reads as before.
pub proof fn law_get_after_add(slots: Slots, item: Seq<u8>, n: int, m: int)
    requires
        1 <= n <= slots.len() + 1,
    ensures
        slot_at(slots_after_add(slots, item, n), n) == Some(item),
        m != n ==> slot_at(slots_after_add(slots, item, n), m) == slot_at(slots, m),
{
}

/// A deleted slot reads as `None`, and every other offset number reads as
/// before.
pub proof fn law_get_after_delete(slots: Slots, n: int, m: int)
    requires
        1 <= n <= slots.len(),
    ensures
        slot_at(slots.update(n - 1, None), n) is None,
        m != n ==> slot_at(slots.update(n - 1, None), m) == slot_at(slots, m),
{
}

/// Compaction keeps exactly the live items, in order, leaves no tombstone,
/// and compacting a compacted page changes nothing.
pub proof fn law_compaction_keeps_live_items(slots: Slots)
    ensures
        live_contents(as_live_slots(live_contents(slots))) == live_contents(slots),
        forall|i: int|
            0 <= i < live_contents(slots).len() ==> #[trigger] as_live_slots(
                live_contents(slots),
            )[i] is Some,
        as_live_slots(live_contents(as_live_slots(live_contents(slots)))) == as_live_slots(
            live_contents(slots),
        ),
{
    lemma_live_contents_of_live(live_contents(slots));
}

proof fn lemma_live_contents_of_live(items: Seq<Seq<u8>>)
    ensures
        live_contents(as_live_slots(items)) == items,
    decreases items.len(),
{
    if items.len() > 0 {
        lemma_live_contents_of_live(items.drop_last());
        assert(as_live_slots(items).drop_last() =~= as_live_slots(items.drop_last()));
        assert(items.drop_last().push(items.last()) =~= items);
    } else {
        assert(live_contents(as_live_slots(items)) =~= items);
    }
}

/// Compacting a compacted page changes no byte: `compact` turns a page into
/// `compacted_image` of its live items, and the live items of a compacted
/// page are the same items, so a second compaction writes the same bytes.
pub proof fn law_compaction_idempotent_bytes(slots: Slots)
    ensures
        compacted_image(live_contents(as_live_slots(live_contents(slots)))) == compacted_image(
            live_contents(slots),
        ),
{
    lemma_live_contents_of_live(live_contents(slots));
}

/// On a well-formed page, free space, metadata entries and live item bytes
/// together never exceed the space past the header.
pub proof fn law_page_space_accounting(p: Page)
    requires
        p.wf(),
    ensures
        p.spec_free_space() + 8 * p.spec_count() + live_bytes(p@) <= 4088,
        p.spec_free_space() >= 0,
{
}

/// A page rebuilt from another page's bytes (as when a page is written out
/// with `as_bytes` and read back with `from_bytes`) has the same header,
/// the same slots and the same well-formedness.
pub proof fn law_page_bytes_round_trip(p: Page, q: Page)
    requires
        q.bytes() == p.bytes(),
    ensures
        q.spec_lower() == p.spec_lower(),
        q.spec_upper() == p.spec_upper(),
        q@ == p@,
        q.wf() == p.wf(),
{
    assert(q.data =~= p.data);
    assert(q == p);
}

} // verus!
