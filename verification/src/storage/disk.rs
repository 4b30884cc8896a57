//! The rules of the database file.
//!
//! Nothing here touches a file: each operation says what may be read or written
//! where, and the caller performs it.

use vstd::prelude::*;

use crate::codec;
use crate::message::{self, Message};

use super::disk_format::{
    self, CATALOG_ROOT_PAGE_ID_OFFSET, DATABASE_FORMAT_VERSION, DATABASE_HEADER_PAGE_ID,
    DATABASE_MAGIC, FIRST_DATA_PAGE_ID, FORMAT_VERSION_OFFSET, NEXT_PAGE_ID_OFFSET,
    NO_CATALOG_ROOT, PAGE_SIZE_OFFSET,
};
use super::{Page, PageId, PAGE_SIZE};

verus! {

/// The validated metadata stored in database page zero.
#[derive(Clone, Copy, Debug, PartialEq, Eq)]
pub struct DatabaseHeader {
    next_page_id: u32,
    catalog_root_page_id: Option<PageId>,
}

impl View for DatabaseHeader {
    type V = disk_format::Header;

    closed spec fn view(&self) -> disk_format::Header {
        disk_format::Header {
            next_page_id: self.next_page_id,
            catalog_root: self.catalog_root_page_id,
        }
    }
}

impl DatabaseHeader {
    #[verifier::type_invariant]
    spec fn inv(&self) -> bool {
        self@.valid()
    }

    pub fn next_page_id(self) -> (page_id: PageId)
        ensures
            page_id == PageId(self@.next_page_id),
    {
        PageId::new(self.next_page_id)
    }

    pub fn allocated_page_count(self) -> (count: u32)
        ensures
            count == self@.next_page_id - FIRST_DATA_PAGE_ID,
    {
        proof {
            use_type_invariant(&self);
        }
        self.next_page_id - FIRST_DATA_PAGE_ID
    }

    pub fn catalog_root_page_id(self) -> (page_id: Option<PageId>)
        ensures
            page_id == self@.catalog_root,
    {
        self.catalog_root_page_id
    }
}

/// What a disk manager knows of its file.
pub struct Disk {
    pub header: disk_format::Header,
    pub read_only: bool,
}

/// Decides how the database file is read and written.
///
/// Page zero stores `DatabaseHeader`; all allocatable pages begin at page one.
pub struct DiskManager {
    header: DatabaseHeader,
    read_only: bool,
}

impl View for DiskManager {
    type V = Disk;

    closed spec fn view(&self) -> Disk {
        Disk { header: self.header@, read_only: self.read_only }
    }
}

impl DiskManager {
    /// Manages a new database file, to which its header page is yet to be written.
    pub fn create() -> (manager: Self)
        ensures
            manager@ == (Disk {
                header: disk_format::Header {
                    next_page_id: FIRST_DATA_PAGE_ID,
                    catalog_root: None,
                },
                read_only: false,
            }),
    {
        let header = DatabaseHeader {
            next_page_id: FIRST_DATA_PAGE_ID,
            catalog_root_page_id: None,
        };
        Self { header, read_only: false }
    }

    /// Manages a file of this length, given its page zero.
    pub fn open(file_length: u64, header_page: &[u8; PAGE_SIZE]) -> (result: Result<
        Self,
        DiskManagerError,
    >)
        ensures
            match disk_format::open_file(file_length, header_page@) {
                Ok(header) => result matches Ok(manager) && manager@ == (Disk {
                    header,
                    read_only: false,
                }),
                Err(error) => result matches Err(found) && found == error,
            },
    {
        Self::open_with_mode(file_length, header_page, false)
    }

    /// Manages a file of this length, given its page zero, and refuses to change
    /// it.
    pub fn open_read_only(file_length: u64, header_page: &[u8; PAGE_SIZE]) -> (result: Result<
        Self,
        DiskManagerError,
    >)
        ensures
            match disk_format::open_file(file_length, header_page@) {
                Ok(header) => result matches Ok(manager) && manager@ == (Disk {
                    header,
                    read_only: true,
                }),
                Err(error) => result matches Err(found) && found == error,
            },
    {
        Self::open_with_mode(file_length, header_page, true)
    }

    fn open_with_mode(
        file_length: u64,
        header_page: &[u8; PAGE_SIZE],
        read_only: bool,
    ) -> (result: Result<Self, DiskManagerError>)
        ensures
            match disk_format::open_file(file_length, header_page@) {
                Ok(header) => result matches Ok(manager) && manager@ == (Disk {
                    header,
                    read_only,
                }),
                Err(error) => result matches Err(found) && found == error,
            },
    {
        match validate_file_length(file_length) {
            Ok(()) => {},
            Err(error) => {
                return Err(error);
            },
        }
        let header = match decode_header(header_page) {
            Ok(header) => header,
            Err(error) => {
                return Err(error);
            },
        };
        let physical_page_count: u64 = file_length / PAGE_SIZE as u64;
        if physical_page_count < header.next_page_id as u64 {
            return Err(
                DiskManagerError::Corrupt(
                    "database header references pages beyond the end of the file",
                ),
            );
        }
        Ok(Self { header, read_only })
    }

    pub fn header(&self) -> (header: DatabaseHeader)
        ensures
            header@ == self@.header,
            header@.valid(),
    {
        proof {
            use_type_invariant(&self.header);
        }
        self.header
    }

    pub fn is_read_only(&self) -> (read_only: bool)
        ensures
            read_only == self@.read_only,
    {
        self.read_only
    }

    /// The contents of page zero.
    pub fn header_page(&self) -> (page: Page)
        ensures
            page@ == self@.header.encoded(),
            page.spec_id() == PageId(DATABASE_HEADER_PAGE_ID),
    {
        encode_header(self.header)
    }

    /// Sets the catalog root, which can be done once. The header page is to be
    /// written afterwards.
    pub fn set_catalog_root_page_id(&mut self, page_id: PageId) -> (result: Result<
        (),
        DiskManagerError,
    >)
        ensures
            match root_fault(old(self)@, page_id) {
                Some(error) => result == Err::<(), _>(error) && final(self)@ == old(self)@,
                None => result is Ok && final(self)@ == (Disk {
                    header: disk_format::Header {
                        catalog_root: Some(page_id),
                        ..old(self)@.header
                    },
                    ..old(self)@
                }),
            },
    {
        match self.ensure_writable() {
            Ok(()) => {},
            Err(error) => {
                return Err(error);
            },
        }
        match self.ensure_allocated_data_page(page_id) {
            Ok(()) => {},
            Err(error) => {
                return Err(error);
            },
        }
        if let Some(existing) = self.header.catalog_root_page_id {
            return Err(DiskManagerError::CatalogRootAlreadySet(existing));
        }
        self.header = DatabaseHeader {
            next_page_id: self.header.next_page_id,
            catalog_root_page_id: Some(page_id),
        };
        Ok(())
    }

    /// The zeroed page that an allocation writes to the end of the file before it
    /// takes effect.
    pub fn begin_allocation(&self) -> (result: Result<Page, DiskManagerError>)
        ensures
            match allocation_fault(self@) {
                Some(error) => result matches Err(found) && found == error,
                None => {
                    &&& result matches Ok(page)
                    &&& page.spec_id() == PageId(self@.header.next_page_id)
                    &&& page@ == zero_page()
                    &&& !page.spec_dirty()
                },
            },
    {
        match self.ensure_writable() {
            Ok(()) => {},
            Err(error) => {
                return Err(error);
            },
        }
        if self.header.next_page_id == u32::MAX {
            return Err(DiskManagerError::PageIdExhausted);
        }
        Ok(Page::zeroed(PageId::new(self.header.next_page_id)))
    }

    /// Allocates the page at the end of the file, where the zeroed page was
    /// written. The header page is to be written afterwards.
    pub fn allocate_page(&mut self) -> (result: Result<Page, DiskManagerError>)
        ensures
            match allocation_fault(old(self)@) {
                Some(error) => {
                    &&& result matches Err(found)
                    &&& found == error
                    &&& final(self)@ == old(self)@
                },
                None => {
                    &&& result matches Ok(page)
                    &&& page.spec_id() == PageId(old(self)@.header.next_page_id)
                    &&& page@ == zero_page()
                    &&& !page.spec_dirty()
                    &&& final(self)@ == after_allocation(old(self)@)
                },
            },
    {
        let page = match self.begin_allocation() {
            Ok(page) => page,
            Err(error) => {
                return Err(error);
            },
        };
        proof {
            use_type_invariant(&self.header);
        }
        self.header = DatabaseHeader {
            next_page_id: self.header.next_page_id + 1,
            catalog_root_page_id: self.header.catalog_root_page_id,
        };
        Ok(page)
    }

    /// Where a page is read in the file.
    pub fn read_offset(&self, page_id: PageId) -> (result: Result<u64, DiskManagerError>)
        ensures
            match self@.header.access_fault(page_id) {
                Some(error) => result == Err::<u64, _>(error),
                None => result == Ok::<u64, DiskManagerError>((page_id.0 * PAGE_SIZE) as u64),
            },
    {
        match self.ensure_allocated_data_page(page_id) {
            Ok(()) => Ok(page_id.file_offset()),
            Err(error) => Err(error),
        }
    }

    /// The page that was read from the file.
    pub fn read_page(&self, page_id: PageId, bytes: Box<[u8; PAGE_SIZE]>) -> (result: Result<
        Page,
        DiskManagerError,
    >)
        ensures
            match self@.header.access_fault(page_id) {
                Some(error) => result matches Err(found) && found == error,
                None => {
                    &&& result matches Ok(page)
                    &&& page.spec_id() == page_id
                    &&& page@ == bytes@
                    &&& !page.spec_dirty()
                },
            },
    {
        match self.ensure_allocated_data_page(page_id) {
            Ok(()) => Ok(Page::from_bytes(page_id, bytes)),
            Err(error) => Err(error),
        }
    }

    /// Where a page is written in the file.
    pub fn write_offset(&self, page_id: PageId) -> (result: Result<u64, DiskManagerError>)
        ensures
            match write_fault(self@, page_id) {
                Some(error) => result == Err::<u64, _>(error),
                None => result == Ok::<u64, DiskManagerError>((page_id.0 * PAGE_SIZE) as u64),
            },
    {
        match self.ensure_writable() {
            Ok(()) => {},
            Err(error) => {
                return Err(error);
            },
        }
        match self.ensure_allocated_data_page(page_id) {
            Ok(()) => Ok(page_id.file_offset()),
            Err(error) => Err(error),
        }
    }

    /// Notes that a page was written to the file: it is clean then.
    pub fn write_page(&self, page: &mut Page) -> (result: Result<(), DiskManagerError>)
        ensures
            match write_fault(self@, old(page).spec_id()) {
                Some(error) => result == Err::<(), _>(error) && *final(page) == *old(page),
                None => {
                    &&& result is Ok
                    &&& final(page).spec_id() == old(page).spec_id()
                    &&& final(page)@ == old(page)@
                    &&& !final(page).spec_dirty()
                },
            },
    {
        match self.write_offset(page.id()) {
            Ok(_) => {
                page.mark_clean();
                Ok(())
            },
            Err(error) => Err(error),
        }
    }

    fn ensure_writable(&self) -> (result: Result<(), DiskManagerError>)
        ensures
            result == if self@.read_only {
                Err::<(), _>(DiskManagerError::ReadOnly)
            } else {
                Ok(())
            },
    {
        if self.read_only {
            return Err(DiskManagerError::ReadOnly);
        }
        Ok(())
    }

    fn ensure_allocated_data_page(&self, page_id: PageId) -> (result: Result<(), DiskManagerError>)
        ensures
            match self@.header.access_fault(page_id) {
                Some(error) => result == Err::<(), _>(error),
                None => result is Ok,
            },
    {
        if page_id.get() == DATABASE_HEADER_PAGE_ID {
            return Err(DiskManagerError::HeaderPageIsReserved);
        }
        if page_id.get() >= self.header.next_page_id {
            return Err(DiskManagerError::PageNotAllocated(page_id));
        }
        Ok(())
    }
}

pub open spec fn zero_page() -> Seq<u8> {
    Seq::new(PAGE_SIZE as nat, |i: int| 0u8)
}

/// Why a page cannot be written; `None` where it can.
pub open spec fn write_fault(disk: Disk, page_id: PageId) -> Option<DiskManagerError> {
    if disk.read_only {
        Some(DiskManagerError::ReadOnly)
    } else {
        disk.header.access_fault(page_id)
    }
}

/// Why no page can be allocated; `None` where one can.
pub open spec fn allocation_fault(disk: Disk) -> Option<DiskManagerError> {
    if disk.read_only {
        Some(DiskManagerError::ReadOnly)
    } else if disk.header.next_page_id == u32::MAX {
        Some(DiskManagerError::PageIdExhausted)
    } else {
        None
    }
}

/// The disk after one more page was allocated.
pub open spec fn after_allocation(disk: Disk) -> Disk {
    Disk {
        header: disk_format::Header {
            next_page_id: (disk.header.next_page_id + 1) as u32,
            ..disk.header
        },
        ..disk
    }
}

/// Why `page_id` cannot become the catalog root; `None` where it can.
pub open spec fn root_fault(disk: Disk, page_id: PageId) -> Option<DiskManagerError> {
    match write_fault(disk, page_id) {
        Some(error) => Some(error),
        None => match disk.header.catalog_root {
            Some(existing) => Some(DiskManagerError::CatalogRootAlreadySet(existing)),
            None => None,
        },
    }
}

/// The catalog root can be set once: after that every attempt fails, and an
/// attempt that nothing else forbids names the root.
pub proof fn catalog_roots_are_set_once(disk: Disk, root: PageId, other: PageId)
    requires
        root_fault(disk, root) is None,
    ensures
        ({
            let after = Disk {
                header: disk_format::Header { catalog_root: Some(root), ..disk.header },
                ..disk
            };
            &&& root_fault(after, other) is Some
            &&& write_fault(disk, other) is None ==> root_fault(after, other) == Some(
                DiskManagerError::CatalogRootAlreadySet(root),
            )
            &&& disk.header.valid() ==> after.header.valid()
        }),
{
}

/// An allocation adds one page, which was not allocated before, and keeps the
/// others.
pub proof fn allocations_add_one_page(disk: Disk, page_id: PageId)
    requires
        disk.header.valid(),
        allocation_fault(disk) is None,
    ensures
        after_allocation(disk).header.valid(),
        after_allocation(disk).header.allocated(page_id) <==> disk.header.allocated(page_id)
            || page_id == PageId(disk.header.next_page_id),
        !disk.header.allocated(PageId(disk.header.next_page_id)),
{
}

/// The file can be opened between the two writes of an allocation and after both:
/// the zeroed page is written before the header speaks of it.
pub proof fn growing_files_can_be_opened(disk: Disk, length: u64, grown: u64)
    requires
        disk.header.valid(),
        allocation_fault(disk) is None,
        disk_format::is_file_length(length),
        length as int / PAGE_SIZE as int >= disk.header.next_page_id,
        grown == if length < (disk.header.next_page_id + 1) * PAGE_SIZE {
            (disk.header.next_page_id + 1) * PAGE_SIZE
        } else {
            length as int
        },
    ensures
        disk_format::open_file(grown, disk.header.encoded()) == Ok::<_, DiskManagerError>(
            disk.header,
        ),
        disk_format::open_file(grown, after_allocation(disk).header.encoded()) == Ok::<
            _,
            DiskManagerError,
        >(after_allocation(disk).header),
{
    disk_format::written_headers_open(disk.header, grown);
    disk_format::written_headers_open(after_allocation(disk).header, grown);
}

/// A read-only database stays as it is.
pub proof fn read_only_databases_stay(disk: Disk, page_id: PageId)
    requires
        disk.read_only,
    ensures
        write_fault(disk, page_id) == Some(DiskManagerError::ReadOnly),
        allocation_fault(disk) == Some(DiskManagerError::ReadOnly),
        root_fault(disk, page_id) == Some(DiskManagerError::ReadOnly),
{
}

fn encode_header(header: DatabaseHeader) -> (page: Page)
    ensures
        page@ == header@.encoded(),
        page.spec_id() == PageId(DATABASE_HEADER_PAGE_ID),
{
    let mut page = Page::zeroed(PageId::new(DATABASE_HEADER_PAGE_ID));
    let root: u32 = match header.catalog_root_page_id {
        Some(page_id) => page_id.get(),
        None => NO_CATALOG_ROOT,
    };
    page.write(0, &DATABASE_MAGIC).unwrap();
    page.write_u16(FORMAT_VERSION_OFFSET, DATABASE_FORMAT_VERSION).unwrap();
    page.write_u32(PAGE_SIZE_OFFSET, PAGE_SIZE as u32).unwrap();
    page.write_u32(NEXT_PAGE_ID_OFFSET, header.next_page_id).unwrap();
    page.write_u32(CATALOG_ROOT_PAGE_ID_OFFSET, root).unwrap();
    assert(page@ =~= header@.encoded());
    page
}

fn decode_header(bytes: &[u8; PAGE_SIZE]) -> (result: Result<DatabaseHeader, DiskManagerError>)
    ensures
        match disk_format::decode_header(bytes@) {
            Ok(header) => result matches Ok(decoded) && decoded@ == header,
            Err(reason) => result matches Err(error) && error == DiskManagerError::Corrupt(reason),
        },
{
    if !codec::equal(&bytes[0..8], &DATABASE_MAGIC) {
        return Err(DiskManagerError::Corrupt("invalid database magic"));
    }
    if codec::read_u16(bytes, FORMAT_VERSION_OFFSET) != DATABASE_FORMAT_VERSION {
        return Err(DiskManagerError::Corrupt("unsupported database format version"));
    }
    if codec::read_u32(bytes, PAGE_SIZE_OFFSET) != PAGE_SIZE as u32 {
        return Err(DiskManagerError::Corrupt("incompatible database page size"));
    }
    let next_page_id: u32 = codec::read_u32(bytes, NEXT_PAGE_ID_OFFSET);
    if next_page_id < FIRST_DATA_PAGE_ID {
        return Err(DiskManagerError::Corrupt("invalid next page ID"));
    }
    let root: u32 = codec::read_u32(bytes, CATALOG_ROOT_PAGE_ID_OFFSET);
    let catalog_root_page_id = if root == NO_CATALOG_ROOT {
        None
    } else {
        Some(PageId::new(root))
    };
    Ok(DatabaseHeader { next_page_id, catalog_root_page_id })
}

/// A database file is a positive number of whole pages.
pub fn validate_file_length(length: u64) -> (result: Result<(), DiskManagerError>)
    ensures
        result == if disk_format::is_file_length(length) {
            Ok(())
        } else {
            Err::<(), _>(DiskManagerError::InvalidFileLength { length })
        },
{
    if length < PAGE_SIZE as u64 || length % PAGE_SIZE as u64 != 0 {
        return Err(DiskManagerError::InvalidFileLength { length });
    }
    Ok(())
}

#[derive(Clone, Debug, PartialEq, Eq)]
pub enum DiskManagerError {
    /// An operation on the file failed, for the reason that the system gave.
    Io { operation: &'static str, path: String, source: String },
    InvalidFileLength { length: u64 },
    Corrupt(&'static str),
    ReadOnly,
    HeaderPageIsReserved,
    PageNotAllocated(PageId),
    PageIdExhausted,
    CatalogRootAlreadySet(PageId),
}

impl DiskManagerError {
    pub open spec fn text(self) -> Seq<char> {
        match self {
            DiskManagerError::Io { operation, path, source } => {
                "failed to "@ + operation@ + " at "@ + path@ + ": "@ + source@
            },
            DiskManagerError::InvalidFileLength { length } => {
                "invalid database file length "@ + message::decimal(length as int)
                    + "; it must be a positive multiple of 8192"@
            },
            DiskManagerError::Corrupt(reason) => "corrupt database header: "@ + reason@,
            DiskManagerError::ReadOnly => "database was opened read-only"@,
            DiskManagerError::HeaderPageIsReserved => "database header page is reserved"@,
            DiskManagerError::PageNotAllocated(page_id) => {
                "page "@ + message::decimal(page_id.0 as int) + " has not been allocated"@
            },
            DiskManagerError::PageIdExhausted => "database has exhausted allocatable page IDs"@,
            DiskManagerError::CatalogRootAlreadySet(page_id) => {
                "database catalog root is already page "@ + message::decimal(page_id.0 as int)
            },
        }
    }

    /// What went wrong, for people to read.
    pub fn message(&self) -> (message: String)
        ensures
            message@ == self.text(),
    {
        match self {
            Self::Io { operation, path, source } => Message::new("failed to ").text(
                operation,
            ).text(" at ").text(path.as_str()).text(": ").text(source.as_str()).finish(),
            Self::InvalidFileLength { length } => Message::new(
                "invalid database file length ",
            ).number(*length).text("; it must be a positive multiple of 8192").finish(),
            Self::Corrupt(reason) => Message::new("corrupt database header: ").text(
                reason,
            ).finish(),
            Self::ReadOnly => "database was opened read-only".to_owned(),
            Self::HeaderPageIsReserved => "database header page is reserved".to_owned(),
            Self::PageNotAllocated(page_id) => Message::new("page ").number(
                page_id.get() as u64,
            ).text(" has not been allocated").finish(),
            Self::PageIdExhausted => "database has exhausted allocatable page IDs".to_owned(),
            Self::CatalogRootAlreadySet(page_id) => Message::new(
                "database catalog root is already page ",
            ).number(page_id.get() as u64).finish(),
        }
    }
}

} // verus!
