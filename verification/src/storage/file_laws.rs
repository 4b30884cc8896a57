//! Which pages of the database file can be read, written and allocated, and which files
//! can be opened.

use vstd::prelude::*;

use crate::codec;

use super::disk::{self, Disk, DiskManagerError};
use super::disk_format::{self, Header};
use super::PageId;

verus! {

/// The pages that can be read are those from page one up to the first that was never
/// allocated. Of the others, page zero is said to be reserved, and the rest not to be
/// allocated.
pub proof fn allocated_pages_can_be_read(header: Header, page_id: PageId)
    requires
        header.valid(),
    ensures
        header.access_fault(page_id) is None <==> 1 <= page_id.0 < header.next_page_id,
        header.allocated(page_id) <==> 1 <= page_id.0 < header.next_page_id,
        page_id.0 == 0 ==> header.access_fault(page_id) == Some(
            DiskManagerError::HeaderPageIsReserved,
        ),
        page_id.0 > 0 && page_id.0 >= header.next_page_id ==> header.access_fault(page_id) == Some(
            DiskManagerError::PageNotAllocated(page_id),
        ),
{
}

/// The same pages can be written, unless the file is read-only, which is said first.
pub proof fn allocated_pages_can_be_written(disk: Disk, page_id: PageId)
    requires
        disk.header.valid(),
    ensures
        disk::write_fault(disk, page_id) is None <==> !disk.read_only && 1 <= page_id.0
            < disk.header.next_page_id,
        disk.read_only ==> disk::write_fault(disk, page_id) == Some(DiskManagerError::ReadOnly),
        !disk.read_only ==> disk::write_fault(disk, page_id) == disk.header.access_fault(page_id),
{
}

/// A page can be allocated as long as a number is left, unless the file is read-only,
/// which is said first. It gets the next number.
pub proof fn pages_can_be_allocated(disk: Disk)
    ensures
        disk::allocation_fault(disk) is None <==> !disk.read_only && disk.header.next_page_id
            < 0xffff_ffff,
        disk.read_only ==> disk::allocation_fault(disk) == Some(DiskManagerError::ReadOnly),
        !disk.read_only && disk.header.next_page_id == 0xffff_ffff ==> disk::allocation_fault(disk)
            == Some(DiskManagerError::PageIdExhausted),
        disk::allocation_fault(disk) is None ==> {
            let after = disk::after_allocation(disk);
            &&& after.header.next_page_id == disk.header.next_page_id + 1
            &&& after.header.catalog_root == disk.header.catalog_root
            &&& after.read_only == disk.read_only
        },
{
}

/// An allocated page can become the catalog root where there is none, unless the file
/// is read-only. That the page cannot be written is said first, and that there is a
/// root last.
pub proof fn allocated_pages_can_become_the_root(disk: Disk, page_id: PageId)
    requires
        disk.header.valid(),
    ensures
        disk::root_fault(disk, page_id) is None <==> {
            &&& !disk.read_only
            &&& 1 <= page_id.0 < disk.header.next_page_id
            &&& disk.header.catalog_root is None
        },
        disk.read_only ==> disk::root_fault(disk, page_id) == Some(DiskManagerError::ReadOnly),
        !disk.read_only && page_id.0 == 0 ==> disk::root_fault(disk, page_id) == Some(
            DiskManagerError::HeaderPageIsReserved,
        ),
        !disk.read_only && page_id.0 > 0 && page_id.0 >= disk.header.next_page_id
            ==> disk::root_fault(disk, page_id) == Some(
            DiskManagerError::PageNotAllocated(page_id),
        ),
        !disk.read_only && 1 <= page_id.0 < disk.header.next_page_id ==> (
        disk.header.catalog_root matches Some(root) ==> disk::root_fault(disk, page_id) == Some(
            DiskManagerError::CatalogRootAlreadySet(root),
        )),
{
}

/// Page zero is `NORTHDB` and a zero byte, version 1, two zero bytes, the size of a
/// page, the first page that was never allocated, and the catalog root, or the largest
/// number where there is none; the rest is zero.
pub proof fn headers_have_their_fields(header: Header)
    ensures
        ({
            let bytes = header.encoded();
            &&& bytes.len() == 8192
            &&& bytes.take(12) == seq![78u8, 79, 82, 84, 72, 68, 66, 0, 1, 0, 0, 0]
            &&& codec::u32_at(bytes, 12) == 8192
            &&& codec::u32_at(bytes, 16) == header.next_page_id
            &&& codec::u32_at(bytes, 20) == match header.catalog_root {
                Some(root) => root.0,
                None => 0xffff_ffff,
            }
            &&& forall|k: int| 24 <= k < 8192 ==> #[trigger] bytes[k] == 0
        }),
{
    let bytes = header.encoded();
    codec::lemma_u32_round_trip(8192);
    codec::lemma_u32_round_trip(header.next_page_id);
    codec::lemma_u32_round_trip(header.stored_root());
    assert(bytes.subrange(12, 16) =~= codec::u32_bytes(8192));
    assert(bytes.subrange(16, 20) =~= codec::u32_bytes(header.next_page_id));
    assert(bytes.subrange(20, 24) =~= codec::u32_bytes(header.stored_root()));
    codec::lemma_u32_at_subrange(bytes, 12);
    codec::lemma_u32_at_subrange(bytes, 16);
    codec::lemma_u32_at_subrange(bytes, 20);
    assert(bytes.take(12) =~= seq![78u8, 79, 82, 84, 72, 68, 66, 0, 1, 0, 0, 0]);
}

/// Whether page zero says that the file is a database of this version and page size.
pub open spec fn names_a_database(bytes: Seq<u8>) -> bool {
    &&& bytes.take(8) == seq![78u8, 79, 82, 84, 72, 68, 66, 0]
    &&& codec::u16_at(bytes, 8) == 1
    &&& codec::u32_at(bytes, 12) == 8192
    &&& codec::u32_at(bytes, 16) >= 1
}

/// A file can be opened exactly where it is made of whole pages, at least one, its page
/// zero names a database, and it has every page that page zero counts. What is opened
/// is what page zero says.
pub proof fn databases_can_be_opened(length: u64, bytes: Seq<u8>)
    requires
        bytes.len() == 8192,
    ensures
        disk_format::open_file(length, bytes) is Ok <==> {
            &&& length >= 8192
            &&& length % 8192 == 0
            &&& names_a_database(bytes)
            &&& length >= 8192 * codec::u32_at(bytes, 16)
        },
        disk_format::open_file(length, bytes) matches Ok(header) ==> {
            &&& header.valid()
            &&& header.next_page_id == codec::u32_at(bytes, 16)
            &&& header.catalog_root == if codec::u32_at(bytes, 20) == 0xffff_ffff {
                None
            } else {
                Some(PageId(codec::u32_at(bytes, 20)))
            }
        },
        length < 8192 || length % 8192 != 0 ==> disk_format::open_file(length, bytes) == Err::<
            Header,
            DiskManagerError,
        >(DiskManagerError::InvalidFileLength { length }),
{
    lemma_magic(bytes);
    if length % 8192 == 0 {
        assert(length as int == 8192 * (length as int / 8192));
    }
}

proof fn lemma_magic(bytes: Seq<u8>)
    requires
        bytes.len() >= 8,
    ensures
        bytes.subrange(0, 8) == disk_format::DATABASE_MAGIC@ <==> bytes.take(8) == seq![
            78u8,
            79,
            82,
            84,
            72,
            68,
            66,
            0,
        ],
{
    assert(bytes.subrange(0, 8) =~= bytes.take(8));
    assert(disk_format::DATABASE_MAGIC@ =~= seq![78u8, 79, 82, 84, 72, 68, 66, 0]);
}

/// What is said of a file of whole pages that cannot be opened is the first thing that
/// is wrong with it: its name, its version, the size of its pages, their number, and
/// that pages are missing.
pub proof fn file_faults_are_true(length: u64, bytes: Seq<u8>)
    requires
        bytes.len() == 8192,
        length >= 8192,
        length % 8192 == 0,
    ensures
        ({
            let result = disk_format::open_file(length, bytes);
            let named = bytes.take(8) == seq![78u8, 79, 82, 84, 72, 68, 66, 0];
            let version = codec::u16_at(bytes, 8);
            let size = codec::u32_at(bytes, 12);
            let next = codec::u32_at(bytes, 16);
            &&& !named ==> result == Err::<Header, DiskManagerError>(
                DiskManagerError::Corrupt("invalid database magic"),
            )
            &&& named && version != 1 ==> result == Err::<Header, DiskManagerError>(
                DiskManagerError::Corrupt("unsupported database format version"),
            )
            &&& named && version == 1 && size != 8192 ==> result == Err::<Header, DiskManagerError>(
                DiskManagerError::Corrupt("incompatible database page size"),
            )
            &&& named && version == 1 && size == 8192 && next == 0 ==> result == Err::<
                Header,
                DiskManagerError,
            >(DiskManagerError::Corrupt("invalid next page ID"))
            &&& names_a_database(bytes) && length < 8192 * next ==> result == Err::<
                Header,
                DiskManagerError,
            >(
                DiskManagerError::Corrupt(
                    "database header references pages beyond the end of the file",
                ),
            )
        }),
{
    lemma_magic(bytes);
    assert(length as int == 8192 * (length as int / 8192));
}

} // verus!
