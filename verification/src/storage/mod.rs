//! Raw pages, row identifiers, the database file and its page cache.

pub mod buffer_pool;
pub mod disk;
pub mod disk_format;
pub mod file_laws;
pub mod flush_laws;
pub mod page;
pub mod pin_laws;
pub mod pool_laws;
pub mod pool_model;
pub mod rid;

pub use buffer_pool::{BufferPool, BufferPoolError, BufferPoolStats, PageGuard, PoolStep};
pub use disk::{DatabaseHeader, DiskManager, DiskManagerError};
pub use page::{Page, PageError, PageId, PAGE_HEADER_SIZE, PAGE_SIZE};
pub use rid::{Rid, SlotId, RID_SIZE};
