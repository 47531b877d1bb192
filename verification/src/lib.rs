//! Mosken: a small storage engine built from slotted pages, a page
//! directory, and the decision logic of a heap-file table.

pub mod bytes;
pub mod page;
pub mod pagedir;
pub mod heapfile;
pub mod table;
pub mod payment;
