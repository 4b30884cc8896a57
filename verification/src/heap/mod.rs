//! Variable-length rows in slotted pages, and heaps made of such pages.

pub mod access_laws;
pub mod heap_file;
pub mod heap_laws;
pub mod heap_model;
pub mod page_format;
pub mod page_laws;
pub mod page_layout;
mod page_lemmas;
pub mod pooled;
pub mod pooled_laws;
mod slotted_page;
pub mod structure_laws;

pub use heap_file::{
    HeapFile, HeapFileError, HeapOpening, HeapRecord, HeapScan, InsertStep, OpenStep, PageRequest,
    MAX_RECORD_SIZE,
};
pub use slotted_page::{SlottedPage, SlottedPageError, SLOT_ENTRY_SIZE};
