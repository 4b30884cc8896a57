//! How page zero describes the database file.

use vstd::prelude::*;

use crate::codec;

use super::disk::DiskManagerError;
use super::{PageId, PAGE_SIZE};

verus! {

/// `NORTHDB` and a zero byte.
pub const DATABASE_MAGIC: [u8; 8] = [78, 79, 82, 84, 72, 68, 66, 0];

pub const DATABASE_FORMAT_VERSION: u16 = 1;

/// The page that holds the header.
pub const DATABASE_HEADER_PAGE_ID: u32 = 0;

pub const FIRST_DATA_PAGE_ID: u32 = 1;

pub const NO_CATALOG_ROOT: u32 = 0xffff_ffff;

pub const FORMAT_VERSION_OFFSET: usize = 8;

pub const PAGE_SIZE_OFFSET: usize = 12;

pub const NEXT_PAGE_ID_OFFSET: usize = 16;

pub const CATALOG_ROOT_PAGE_ID_OFFSET: usize = 20;

/// The metadata in page zero.
pub struct Header {
    /// The first page that was never allocated.
    pub next_page_id: u32,
    pub catalog_root: Option<PageId>,
}

impl Header {
    pub open spec fn valid(self) -> bool {
        &&& self.next_page_id >= FIRST_DATA_PAGE_ID
        &&& self.catalog_root != Some(PageId(NO_CATALOG_ROOT))
    }

    /// Whether `page_id` is a data page that was allocated.
    pub open spec fn allocated(self, page_id: PageId) -> bool {
        FIRST_DATA_PAGE_ID <= page_id.0 < self.next_page_id
    }

    /// Why `page_id` cannot be read or written; `None` where it can.
    pub open spec fn access_fault(self, page_id: PageId) -> Option<DiskManagerError> {
        if page_id.0 == DATABASE_HEADER_PAGE_ID {
            Some(DiskManagerError::HeaderPageIsReserved)
        } else if page_id.0 >= self.next_page_id {
            Some(DiskManagerError::PageNotAllocated(page_id))
        } else {
            None
        }
    }

    pub open spec fn stored_root(self) -> u32 {
        match self.catalog_root {
            Some(page_id) => page_id.0,
            None => NO_CATALOG_ROOT,
        }
    }

    /// The bytes of page zero.
    pub open spec fn encoded(self) -> Seq<u8> {
        DATABASE_MAGIC@ + codec::u16_bytes(DATABASE_FORMAT_VERSION) + seq![0u8, 0u8]
            + codec::u32_bytes(PAGE_SIZE as u32) + codec::u32_bytes(self.next_page_id)
            + codec::u32_bytes(self.stored_root()) + Seq::new((PAGE_SIZE - 24) as nat, |i: int| 0u8)
    }
}

/// The header that the bytes of page zero describe.
pub open spec fn decode_header(bytes: Seq<u8>) -> Result<Header, &'static str> {
    if bytes.subrange(0, 8) != DATABASE_MAGIC@ {
        Err("invalid database magic")
    } else if codec::u16_at(bytes, FORMAT_VERSION_OFFSET as int) != DATABASE_FORMAT_VERSION {
        Err("unsupported database format version")
    } else if codec::u32_at(bytes, PAGE_SIZE_OFFSET as int) != PAGE_SIZE {
        Err("incompatible database page size")
    } else if codec::u32_at(bytes, NEXT_PAGE_ID_OFFSET as int) < FIRST_DATA_PAGE_ID {
        Err("invalid next page ID")
    } else {
        let root = codec::u32_at(bytes, CATALOG_ROOT_PAGE_ID_OFFSET as int);
        Ok(
            Header {
                next_page_id: codec::u32_at(bytes, NEXT_PAGE_ID_OFFSET as int),
                catalog_root: if root == NO_CATALOG_ROOT {
                    None
                } else {
                    Some(PageId(root))
                },
            },
        )
    }
}

/// Whether a database file can be `length` bytes long.
pub open spec fn is_file_length(length: u64) -> bool {
    length >= PAGE_SIZE && length as int % PAGE_SIZE as int == 0
}

/// The header of a database file of this length whose page zero holds `bytes`,
/// or why it cannot be opened.
pub open spec fn open_file(length: u64, bytes: Seq<u8>) -> Result<Header, DiskManagerError> {
    if !is_file_length(length) {
        Err(DiskManagerError::InvalidFileLength { length })
    } else {
        match decode_header(bytes) {
            Err(reason) => Err(DiskManagerError::Corrupt(reason)),
            Ok(header) => if length as int / PAGE_SIZE as int >= header.next_page_id {
                Ok(header)
            } else {
                Err(
                    DiskManagerError::Corrupt(
                        "database header references pages beyond the end of the file",
                    ),
                )
            },
        }
    }
}

/// A valid header is decoded from its page unchanged.
pub proof fn encoded_headers_decode(header: Header)
    requires
        header.valid(),
    ensures
        header.encoded().len() == PAGE_SIZE,
        decode_header(header.encoded()) == Ok::<Header, &'static str>(header),
{
    let bytes = header.encoded();
    assert(bytes.subrange(0, 8) =~= DATABASE_MAGIC@);
    codec::lemma_u16_round_trip(DATABASE_FORMAT_VERSION);
    codec::lemma_u32_round_trip(PAGE_SIZE as u32);
    codec::lemma_u32_round_trip(header.next_page_id);
    codec::lemma_u32_round_trip(header.stored_root());
    assert(bytes.subrange(8, 10) =~= codec::u16_bytes(DATABASE_FORMAT_VERSION));
    assert(bytes.subrange(12, 16) =~= codec::u32_bytes(PAGE_SIZE as u32));
    assert(bytes.subrange(16, 20) =~= codec::u32_bytes(header.next_page_id));
    assert(bytes.subrange(20, 24) =~= codec::u32_bytes(header.stored_root()));
    assert(codec::u16_at(bytes, 8) == codec::u16_at(bytes.subrange(8, 10), 0));
    codec::lemma_u32_at_subrange(bytes, 12);
    codec::lemma_u32_at_subrange(bytes, 16);
    codec::lemma_u32_at_subrange(bytes, 20);
}

/// A database file that holds a page for every allocated page is opened with the
/// header that was written to it.
pub proof fn written_headers_open(header: Header, length: u64)
    requires
        header.valid(),
        is_file_length(length),
        length as int / PAGE_SIZE as int >= header.next_page_id,
    ensures
        open_file(length, header.encoded()) == Ok::<Header, DiskManagerError>(header),
{
    encoded_headers_decode(header);
}

/// Allocated pages lie inside a file that was opened, and do not overlap each
/// other or the header.
pub proof fn allocated_pages_lie_in_the_file(
    length: u64,
    bytes: Seq<u8>,
    page_id: PageId,
    other: PageId,
)
    requires
        open_file(length, bytes) is Ok,
        open_file(length, bytes)->Ok_0.allocated(page_id),
        page_id.0 != other.0,
    ensures
        page_id.0 * PAGE_SIZE + PAGE_SIZE <= length,
        page_id.0 * PAGE_SIZE >= PAGE_SIZE,
        other.0 * PAGE_SIZE + PAGE_SIZE <= page_id.0 * PAGE_SIZE || page_id.0 * PAGE_SIZE
            + PAGE_SIZE <= other.0 * PAGE_SIZE,
{
}

} // verus!
