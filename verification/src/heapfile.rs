//! Heap file addressing.
//!
//! A heap file is a sequence of `BLKSZ`-byte pages stored back to back in one
//! file and addressed by their 0-based ID. This module holds the arithmetic
//! and bounds checks of that addressing; the file itself is opened, read and
//! written by the program around the library.
use crate::page::BLKSZ;
use vstd::prelude::*;

verus! {

/// Errors returned by heap file operations.
#[derive(Debug)]
pub enum HeapFileError {
    /// An I/O error.
    Io(std::io::Error),
    /// The page ID is past the last page of the file.
    InvalidPageId { page_id: u64, num_pages: u32 },
}

/// Number of whole pages in a file of `file_size` bytes, as the `u32` page
/// count of the file (the quotient is truncated to 32 bits).
pub fn pages_in_file(file_size: u64) -> (n: u32)
    ensures
        n == (file_size / 4096) as u32,
{
    (file_size / BLKSZ as u64) as u32
}

/// Byte offset of page `page_id` in a file of `num_pages` pages.
///
/// Returns `HeapFileError::InvalidPageId` if `page_id` is out of bounds.
pub fn page_offset(page_id: u64, num_pages: u32) -> (r: Result<u64, HeapFileError>)
    ensures
        page_id >= num_pages ==> {
            &&& r matches Err(HeapFileError::InvalidPageId { page_id: p, num_pages: n })
            &&& p == page_id
            &&& n == num_pages
        },
        page_id < num_pages ==> (r matches Ok(off) && off == page_id * 4096),
{
    if page_id >= num_pages as u64 {
        return Err(HeapFileError::InvalidPageId { page_id, num_pages });
    }
    Ok(page_id * BLKSZ as u64)
}

/// Distinct pages of a heap file occupy disjoint byte ranges: page `a`
/// ends at or before the offset where a later page `b` starts.
pub proof fn law_pages_do_not_overlap(a: u64, b: u64)
    requires
        a < b,
    ensures
        a * 4096 + 4096 <= b * 4096,
{
}

} // verus!
