use north_db::catalog::{
    decode_table_record, encode_table_record, Catalog, CatalogError, CatalogStep, CreationStep,
    TableId, TableMetadata, TableStep,
};
use north_db::heap::{
    HeapFile, HeapFileError, HeapRecord, InsertStep, OpenStep, PageRequest, SlottedPage,
    SlottedPageError, MAX_RECORD_SIZE,
};
use north_db::schema::{ColumnSchema, DataType, SchemaError, TableSchema, Value, ValueRef};
use north_db::storage::disk::validate_file_length;
use north_db::storage::{
    BufferPool, BufferPoolError, BufferPoolStats, DiskManager, DiskManagerError, Page, PageGuard,
    PageId, PoolStep, Rid, SlotId, PAGE_SIZE,
};

/// A database file in memory.
#[derive(Clone)]
struct File {
    bytes: Vec<u8>,
    syncs: usize,
    fail_writes: bool,
}

fn broken() -> DiskManagerError {
    DiskManagerError::Io {
        operation: "write database page",
        path: "memory".to_owned(),
        source: "broken".to_owned(),
    }
}

impl File {
    fn create() -> (File, DiskManager) {
        let disk = DiskManager::create();
        let mut file = File { bytes: Vec::new(), syncs: 0, fail_writes: false };
        file.write(0, disk.header_page().as_bytes()).unwrap();
        (file, disk)
    }

    fn page_at(&self, offset: u64) -> Box<[u8; PAGE_SIZE]> {
        let start = usize::try_from(offset).unwrap();
        let mut page = Box::new([0; PAGE_SIZE]);
        page.copy_from_slice(&self.bytes[start..start + PAGE_SIZE]);
        page
    }

    fn write(&mut self, offset: u64, bytes: &[u8; PAGE_SIZE]) -> Result<(), DiskManagerError> {
        if self.fail_writes {
            return Err(broken());
        }
        let start = usize::try_from(offset).unwrap();
        if self.bytes.len() < start + PAGE_SIZE {
            self.bytes.resize(start + PAGE_SIZE, 0);
        }
        self.bytes[start..start + PAGE_SIZE].copy_from_slice(bytes);
        Ok(())
    }

    fn open(&self) -> Result<DiskManager, DiskManagerError> {
        let length = self.bytes.len() as u64;
        validate_file_length(length)?;
        DiskManager::open(length, &self.page_at(0))
    }

    fn open_read_only(&self) -> Result<DiskManager, DiskManagerError> {
        let length = self.bytes.len() as u64;
        validate_file_length(length)?;
        DiskManager::open_read_only(length, &self.page_at(0))
    }

    fn allocate(&mut self, disk: &mut DiskManager) -> Result<Page, DiskManagerError> {
        let blank = disk.begin_allocation()?;
        self.write(blank.id().file_offset(), blank.as_bytes())?;
        let page = disk.allocate_page()?;
        self.write(0, disk.header_page().as_bytes())?;
        Ok(page)
    }

    fn read_page(&self, disk: &DiskManager, page_id: PageId) -> Result<Page, DiskManagerError> {
        let offset = disk.read_offset(page_id)?;
        disk.read_page(page_id, self.page_at(offset))
    }

    fn write_page(&mut self, disk: &DiskManager, page: &mut Page) -> Result<(), DiskManagerError> {
        let offset = disk.write_offset(page.id())?;
        self.write(offset, page.as_bytes())?;
        disk.write_page(page)
    }

    fn set_root(&mut self, disk: &mut DiskManager, root: PageId) -> Result<(), DiskManagerError> {
        disk.set_catalog_root_page_id(root)?;
        self.write(0, disk.header_page().as_bytes())
    }
}

/// A pool with its file.
struct Database {
    file: File,
    pool: BufferPool,
}

impl Database {
    fn create(capacity: usize) -> Database {
        let (file, disk) = File::create();
        Database { file, pool: BufferPool::new(disk, capacity).unwrap() }
    }

    fn with_pages(count: usize, capacity: usize) -> Database {
        let (mut file, mut disk) = File::create();
        for _ in 0..count {
            file.allocate(&mut disk).unwrap();
        }
        Database { file, pool: BufferPool::new(disk, capacity).unwrap() }
    }

    fn reopen_read_only(self, capacity: usize) -> Database {
        let disk = self.file.open_read_only().unwrap();
        Database { file: self.file, pool: BufferPool::new(disk, capacity).unwrap() }
    }

    fn run(
        &mut self,
        first: Result<PoolStep, BufferPoolError>,
    ) -> Result<Option<PageGuard>, BufferPoolError> {
        let mut step = first?;
        loop {
            step = match step {
                PoolStep::Done => return Ok(None),
                PoolStep::Pinned(guard) => return Ok(Some(guard)),
                PoolStep::WriteCached(page_id) => {
                    let page = self.pool.cached_page(page_id);
                    self.file.write(page_id.file_offset(), page.as_bytes())?;
                    self.pool.written()?
                }
                PoolStep::Write(page) => {
                    self.file.write(page.id().file_offset(), page.as_bytes())?;
                    self.pool.written()?
                }
                PoolStep::Read(page_id) => {
                    let bytes = self.file.page_at(page_id.file_offset());
                    self.pool.loaded(bytes)?
                }
                PoolStep::Sync => {
                    self.file.syncs += 1;
                    self.pool.synced()
                }
            };
        }
    }

    fn pin(&mut self, page_id: u32) -> Result<PageGuard, BufferPoolError> {
        let first = self.pool.pin(PageId::new(page_id));
        Ok(self.run(first)?.unwrap())
    }

    fn allocate(&mut self) -> Result<PageGuard, BufferPoolError> {
        let first = self.pool.allocate_page();
        Ok(self.run(first)?.unwrap())
    }

    fn touch(&mut self, page_id: u32) {
        let guard = self.pin(page_id).unwrap();
        self.pool.unpin(guard);
    }

    fn sync(&mut self) -> Result<(), BufferPoolError> {
        let first = self.pool.sync();
        self.run(first)?;
        Ok(())
    }

    fn write_bytes(&mut self, page_id: u32, offset: usize, bytes: &[u8]) {
        let guard = self.pin(page_id).unwrap();
        self.pool.write(&guard).unwrap();
        self.pool.page_mut(&guard).write(offset, bytes).unwrap();
        self.pool.release_write(&guard);
        self.pool.unpin(guard);
    }

    fn create_heap(&mut self) -> Result<HeapFile, HeapFileError> {
        let guard = self.allocate()?;
        HeapFile::create(&mut self.pool, guard)
    }

    fn open_heap(&mut self, first: PageId) -> Result<HeapFile, HeapFileError> {
        let mut opening = HeapFile::open(first);
        loop {
            let guard = self.pin(opening.page_id().get())?;
            match opening.visit(&mut self.pool, guard)? {
                OpenStep::Visit(next) => opening = next,
                OpenStep::Opened(heap) => return Ok(heap),
            }
        }
    }

    fn page_for(&mut self, request: PageRequest) -> Result<PageGuard, HeapFileError> {
        Ok(match request {
            PageRequest::Write(page_id) => self.pin(page_id.get())?,
            PageRequest::Allocate => self.allocate()?,
        })
    }

    fn insert(&mut self, heap: &mut HeapFile, record: &[u8]) -> Result<Rid, HeapFileError> {
        let mut step = heap.insert(record)?;
        while let Some(request) = heap.insert_request(step) {
            let guard = self.page_for(request)?;
            step = heap.insert_step(&mut self.pool, guard, step, record)?;
        }
        match step {
            InsertStep::Inserted(rid) => Ok(rid),
            _ => unreachable!(),
        }
    }

    fn get(&mut self, heap: &HeapFile, rid: Rid) -> Result<Vec<u8>, HeapFileError> {
        let page_id = heap.locate(rid)?;
        let guard = self.pin(page_id.get())?;
        heap.get(&mut self.pool, guard, rid)
    }

    fn delete(&mut self, heap: &HeapFile, rid: Rid) -> Result<(), HeapFileError> {
        let page_id = heap.locate(rid)?;
        let guard = self.pin(page_id.get())?;
        heap.delete(&mut self.pool, guard, rid)
    }

    fn scan(&mut self, heap: &HeapFile) -> Result<Vec<HeapRecord>, HeapFileError> {
        let mut scan = heap.scan();
        while !scan.is_complete(heap) {
            let guard = self.pin(scan.page_id(heap).get())?;
            scan.visit(heap, &mut self.pool, guard)?;
        }
        Ok(scan.finish())
    }

    fn create_catalog(&mut self) -> Result<Catalog, CatalogError> {
        let mut creation = Catalog::create(self.pool.database_header())?;
        loop {
            match creation.step() {
                CreationStep::Allocate => {
                    let guard = self.page_for(PageRequest::Allocate)?;
                    creation.place(&mut self.pool, guard)?;
                }
                CreationStep::Flush(page_id) => {
                    let flush = self.pool.flush_page(page_id);
                    self.run(flush)?;
                    creation.flushed();
                }
                CreationStep::SetRoot(page_id) => {
                    let set_root = self.pool.set_catalog_root_page_id(page_id);
                    self.run(set_root)?;
                    return Ok(creation.finish());
                }
            }
        }
    }

    fn open_catalog(&mut self) -> Result<Catalog, CatalogError> {
        let mut opening = Catalog::open(self.pool.database_header())?;
        loop {
            let guard = self.page_for(PageRequest::Write(opening.page_id()))?;
            match opening.visit(&mut self.pool, guard)? {
                CatalogStep::Visit(next) => opening = next,
                CatalogStep::Opened(catalog) => return Ok(catalog),
            }
        }
    }

    fn create_table(
        &mut self,
        catalog: &mut Catalog,
        schema: TableSchema,
    ) -> Result<(), CatalogError> {
        let mut creation = catalog.create_table(schema)?;
        loop {
            let guard = self.page_for(creation.request(catalog))?;
            match creation.visit(catalog, &mut self.pool, guard)? {
                TableStep::Visit(next) => creation = next,
                TableStep::Created => return Ok(()),
            }
        }
    }

    fn open_table_heap(
        &mut self,
        catalog: &Catalog,
        name: &str,
    ) -> Result<HeapFile, CatalogError> {
        let opening = catalog.open_table_heap(name)?;
        let first = opening.page_id();
        Ok(self.open_heap(first)?)
    }
}

#[test]
fn creates_a_single_header_page() {
    let (file, manager) = File::create();

    assert_eq!(file.bytes.len(), PAGE_SIZE);
    assert_eq!(manager.header().allocated_page_count(), 0);
    assert_eq!(manager.header().next_page_id(), PageId::new(1));
    assert_eq!(manager.header().catalog_root_page_id(), None);
}

#[test]
fn allocates_writes_and_reopens_pages() {
    let (mut file, mut manager) = File::create();
    let mut first = file.allocate(&mut manager).unwrap();
    let second = file.allocate(&mut manager).unwrap();
    assert_eq!(first.id(), PageId::new(1));
    assert_eq!(second.id(), PageId::new(2));

    first.write(0, b"north persists pages").unwrap();
    file.write_page(&manager, &mut first).unwrap();
    assert!(!first.is_dirty());
    drop(manager);

    let reopened = file.open().unwrap();
    assert_eq!(reopened.header().allocated_page_count(), 2);
    let page = file.read_page(&reopened, PageId::new(1)).unwrap();
    assert_eq!(page.read(0, 20).unwrap(), b"north persists pages");
}

#[test]
fn rejects_header_page_and_unallocated_pages() {
    let (file, manager) = File::create();
    assert!(matches!(
        file.read_page(&manager, PageId::new(0)),
        Err(DiskManagerError::HeaderPageIsReserved)
    ));
    assert!(matches!(
        file.read_page(&manager, PageId::new(1)),
        Err(DiskManagerError::PageNotAllocated(_))
    ));
}

#[test]
fn read_only_manager_rejects_mutations() {
    let (mut file, mut writable) = File::create();
    let page = file.allocate(&mut writable).unwrap();
    drop(writable);

    let mut read_only = file.open_read_only().unwrap();
    assert!(read_only.is_read_only());
    assert!(matches!(
        file.allocate(&mut read_only),
        Err(DiskManagerError::ReadOnly)
    ));
    let mut page = page;
    assert!(matches!(
        file.write_page(&read_only, &mut page),
        Err(DiskManagerError::ReadOnly)
    ));
}

#[test]
fn rejects_misaligned_and_corrupt_files() {
    let file = File { bytes: b"not a page".to_vec(), syncs: 0, fail_writes: false };
    assert!(matches!(
        file.open(),
        Err(DiskManagerError::InvalidFileLength { .. })
    ));

    let file = File { bytes: vec![0; PAGE_SIZE], syncs: 0, fail_writes: false };
    assert!(matches!(
        file.open(),
        Err(DiskManagerError::Corrupt("invalid database magic"))
    ));
}

#[test]
fn persists_catalog_root_exactly_once() {
    let (mut file, mut manager) = File::create();
    let root = file.allocate(&mut manager).unwrap().id();
    file.set_root(&mut manager, root).unwrap();
    assert!(matches!(
        file.set_root(&mut manager, root),
        Err(DiskManagerError::CatalogRootAlreadySet(existing)) if existing == root
    ));
    drop(manager);

    let reopened = file.open().unwrap();
    assert_eq!(reopened.header().catalog_root_page_id(), Some(root));
}

#[test]
fn header_page_has_the_documented_layout() {
    let (mut file, mut manager) = File::create();
    file.allocate(&mut manager).unwrap();
    let mut expected = vec![0; PAGE_SIZE];
    expected[0..8].copy_from_slice(b"NORTHDB\0");
    expected[8] = 1;
    expected[12..16].copy_from_slice(&8192_u32.to_le_bytes());
    expected[16] = 2;
    expected[20..24].copy_from_slice(&[255; 4]);
    assert_eq!(file.bytes[..PAGE_SIZE], expected[..]);
}

#[test]
fn opening_names_what_is_wrong_with_the_header() {
    let (file, _) = File::create();
    let reason = |offset: usize, value: u8| {
        let mut changed = file.clone();
        changed.bytes[offset] = value;
        match changed.open() {
            Err(DiskManagerError::Corrupt(reason)) => reason,
            _ => "none",
        }
    };
    assert_eq!(reason(100, 7), "none");
    assert_eq!(reason(8, 2), "unsupported database format version");
    assert_eq!(reason(13, 0), "incompatible database page size");
    assert_eq!(reason(16, 0), "invalid next page ID");
    assert_eq!(
        reason(16, 2),
        "database header references pages beyond the end of the file"
    );
    assert_eq!(
        validate_file_length(0),
        Err(DiskManagerError::InvalidFileLength { length: 0 })
    );
    assert_eq!(
        validate_file_length(8193),
        Err(DiskManagerError::InvalidFileLength { length: 8193 })
    );
    assert_eq!(validate_file_length(16384), Ok(()));
}

#[test]
fn files_can_be_opened_between_the_writes_of_an_allocation() {
    let (mut file, mut disk) = File::create();
    let blank = disk.begin_allocation().unwrap();
    file.write(blank.id().file_offset(), blank.as_bytes()).unwrap();
    assert_eq!(file.open().unwrap().header().allocated_page_count(), 0);
    disk.allocate_page().unwrap();
    file.write(0, disk.header_page().as_bytes()).unwrap();
    assert_eq!(file.open().unwrap().header().allocated_page_count(), 1);
}

#[test]
fn pool_operations_take_a_bounded_number_of_steps() {
    let mut database = Database::create(1);
    database.create_heap().unwrap();
    let mut writes = 0;
    let mut step = database.pool.allocate_page().unwrap();
    let guard = loop {
        step = match step {
            PoolStep::Pinned(guard) => break guard,
            PoolStep::WriteCached(_) | PoolStep::Write(_) => {
                writes += 1;
                database.pool.written().unwrap()
            }
            _ => unreachable!(),
        };
    };
    assert_eq!(writes, 3);
    assert_eq!(guard.page_id(), PageId::new(2));
    database.pool.unpin(guard);
}

#[test]
fn page_ids_run_out() {
    let (mut file, _) = File::create();
    file.bytes[16..20].copy_from_slice(&u32::MAX.to_le_bytes());
    let header: &[u8; PAGE_SIZE] = file.bytes[..PAGE_SIZE].try_into().unwrap();
    let length = u64::from(u32::MAX) * PAGE_SIZE as u64;
    let mut manager = DiskManager::open(length, header).unwrap();
    assert_eq!(manager.allocate_page().err(), Some(DiskManagerError::PageIdExhausted));
    let mut pool = BufferPool::new(manager, 1).unwrap();
    assert_eq!(
        pool.allocate_page().err(),
        Some(BufferPoolError::Disk(Box::new(DiskManagerError::PageIdExhausted)))
    );
}

#[test]
fn the_root_must_be_an_allocated_page() {
    let (mut file, mut manager) = File::create();
    assert_eq!(
        file.set_root(&mut manager, PageId::new(0)),
        Err(DiskManagerError::HeaderPageIsReserved)
    );
    assert_eq!(
        file.set_root(&mut manager, PageId::new(1)),
        Err(DiskManagerError::PageNotAllocated(PageId::new(1)))
    );
    let mut read_only = file.open_read_only().unwrap();
    assert_eq!(
        file.set_root(&mut read_only, PageId::new(1)),
        Err(DiskManagerError::ReadOnly)
    );
}

#[test]
fn rejects_zero_capacity() {
    let (_, disk) = File::create();
    assert!(matches!(
        BufferPool::new(disk, 0),
        Err(BufferPoolError::ZeroCapacity)
    ));
}

#[test]
fn cache_hit_avoids_second_disk_read() {
    let mut database = Database::with_pages(1, 2);

    database.touch(1);
    database.touch(1);
    assert_eq!(
        database.pool.stats(),
        BufferPoolStats {
            hits: 1,
            misses: 1,
            evictions: 0,
            disk_writes: 0,
        }
    );
}

#[test]
fn pinned_frame_cannot_be_evicted() {
    let mut database = Database::with_pages(2, 1);
    let _first = database.pin(1).unwrap();

    assert!(matches!(
        database.pin(2),
        Err(BufferPoolError::AllFramesPinned)
    ));
}

#[test]
fn evicts_least_recently_used_unpinned_frame() {
    let mut database = Database::with_pages(3, 2);

    database.touch(1);
    database.touch(2);
    database.touch(1);
    database.touch(3);

    assert!(database.pool.contains_page(PageId::new(1)));
    assert!(!database.pool.contains_page(PageId::new(2)));
    assert!(database.pool.contains_page(PageId::new(3)));
    assert_eq!(database.pool.stats().evictions, 1);
}

#[test]
fn dirty_eviction_writes_page_before_reuse() {
    let mut database = Database::with_pages(2, 1);

    database.write_bytes(1, 0, b"dirty data");
    database.touch(2);

    let first_again = database.pin(1).unwrap();
    database.pool.read(&first_again).unwrap();
    assert_eq!(
        database.pool.page(&first_again).read(0, 10).unwrap(),
        b"dirty data"
    );
    assert_eq!(database.pool.stats().disk_writes, 1);
}

#[test]
fn allocate_returns_cached_pinned_page() {
    let mut database = Database::create(1);

    let page = database.allocate().unwrap();
    assert_eq!(page.page_id(), PageId::new(1));
    assert!(database.pool.contains_page(PageId::new(1)));
    assert_eq!(database.pool.cached_page_count(), 1);
}

#[test]
fn sync_persists_dirty_cached_pages() {
    let mut database = Database::with_pages(1, 2);
    database.write_bytes(1, 32, b"synced");

    database.sync().unwrap();
    assert_eq!(database.file.syncs, 1);
    let reopened = database.file.open().unwrap();
    assert_eq!(
        database
            .file
            .read_page(&reopened, PageId::new(1))
            .unwrap()
            .read(32, 6)
            .unwrap(),
        b"synced"
    );
}

#[test]
fn read_only_pool_rejects_mutable_guard() {
    let mut database = Database::with_pages(1, 1).reopen_read_only(1);
    let page = database.pin(1).unwrap();

    assert!(matches!(
        database.pool.write(&page),
        Err(BufferPoolError::ReadOnly)
    ));
    assert!(matches!(
        database.allocate(),
        Err(BufferPoolError::ReadOnly)
    ));
}

#[test]
fn simultaneous_read_guards_are_allowed() {
    let mut database = Database::with_pages(1, 1);
    let first = database.pin(1).unwrap();
    let second = database.pin(1).unwrap();

    database.pool.read(&first).unwrap();
    database.pool.read(&second).unwrap();
    let first_read = database.pool.page(&first);
    let second_read = database.pool.page(&second);
    assert_eq!(first_read.id(), second_read.id());
}

#[test]
fn writers_are_exclusive() {
    let mut database = Database::with_pages(1, 1);
    let first = database.pin(1).unwrap();
    let second = database.pin(1).unwrap();
    let borrowed = Err(BufferPoolError::PageBorrowed(PageId::new(1)));

    database.pool.read(&first).unwrap();
    assert_eq!(database.pool.write(&second), borrowed);
    database.pool.release_read(&first);
    database.pool.write(&second).unwrap();
    assert_eq!(database.pool.read(&first), borrowed);
    assert_eq!(database.pool.write(&first), borrowed);
    let flush = database.pool.flush_page(PageId::new(1));
    assert_eq!(database.run(flush).err(), borrowed.clone().err());
    assert_eq!(database.sync(), borrowed);
    database.pool.release_write(&second);
    database.pool.read(&first).unwrap();
}

#[test]
fn flushing_writes_dirty_pages_once() {
    let mut database = Database::with_pages(2, 2);
    database.write_bytes(1, 0, b"one");
    database.write_bytes(2, 0, b"two");
    let flush = database.pool.flush_page(PageId::new(2));
    database.run(flush).unwrap();
    assert_eq!(database.pool.stats().disk_writes, 1);
    assert_eq!(&database.file.page_at(PageId::new(2).file_offset())[..3], b"two");
    assert_eq!(&database.file.page_at(PageId::new(1).file_offset())[..3], &[0, 0, 0]);
    let flush = database.pool.flush_all();
    database.run(flush).unwrap();
    assert_eq!(database.pool.stats().disk_writes, 2);
    assert_eq!(database.file.syncs, 0);
    let flush = database.pool.flush_all();
    database.run(flush).unwrap();
    assert_eq!(database.pool.stats().disk_writes, 2);
    assert_eq!(
        database.pool.flush_page(PageId::new(3)).err(),
        Some(BufferPoolError::PageNotCached(PageId::new(3)))
    );
}

#[test]
fn a_failed_write_keeps_the_page_dirty_and_cached() {
    let mut database = Database::with_pages(2, 1);
    database.write_bytes(1, 0, b"kept");
    database.file.fail_writes = true;
    assert_eq!(database.pin(2).err(), Some(BufferPoolError::Disk(Box::new(broken()))));
    assert!(database.pool.contains_page(PageId::new(1)));
    assert_eq!(database.pool.stats().evictions, 0);
    database.file.fail_writes = false;
    database.touch(2);
    assert_eq!(&database.file.page_at(PageId::new(1).file_offset())[..4], b"kept");
}

#[test]
fn pinning_pages_that_do_not_exist_fails() {
    let mut database = Database::with_pages(1, 1);
    assert_eq!(
        database.pin(0).err(),
        Some(BufferPoolError::Disk(Box::new(DiskManagerError::HeaderPageIsReserved)))
    );
    database.touch(1);
    assert_eq!(
        database.pin(9).err(),
        Some(BufferPoolError::Disk(Box::new(DiskManagerError::PageNotAllocated(PageId::new(9)))))
    );
    assert!(!database.pool.contains_page(PageId::new(1)));
    assert_eq!(database.pool.stats().misses, 3);
    assert_eq!(database.pool.capacity(), 1);
}

#[test]
fn closing_gives_the_disk_manager_back() {
    let mut database = Database::create(2);
    let guard = database.allocate().unwrap();
    database.pool.unpin(guard);
    database.sync().unwrap();
    let disk = database.pool.close();
    assert_eq!(disk.header().allocated_page_count(), 1);
    assert_eq!(database.file.open().unwrap().header(), disk.header());
}

#[test]
fn creates_inserts_reads_and_deletes() {
    let mut database = Database::create(2);
    let mut heap = database.create_heap().unwrap();
    let rid = database.insert(&mut heap, b"north row").unwrap();

    assert_eq!(database.get(&heap, rid).unwrap(), b"north row");
    database.delete(&heap, rid).unwrap();
    assert!(matches!(
        database.get(&heap, rid),
        Err(HeapFileError::Page(error))
            if matches!(*error, SlottedPageError::InvalidRid(_))
    ));
}

#[test]
fn grows_and_reopens_multi_page_chain() {
    let mut database = Database::create(2);
    let mut heap = database.create_heap().unwrap();
    let first_page = heap.first_page_id();
    let first = database.insert(&mut heap, &vec![1; 4_000]).unwrap();
    let second = database.insert(&mut heap, &vec![2; 4_000]).unwrap();
    let third = database.insert(&mut heap, &vec![3; 4_000]).unwrap();

    assert_eq!(first.page_id(), second.page_id());
    assert_ne!(third.page_id(), first.page_id());
    assert_eq!(heap.page_count(), 2);

    database.sync().unwrap();
    drop(heap);
    let mut read_only = database.reopen_read_only(1);
    let reopened = read_only.open_heap(first_page).unwrap();
    let records = read_only.scan(&reopened).unwrap();
    assert_eq!(records.len(), 3);
    assert_eq!(records[0].bytes, vec![1; 4_000]);
    assert_eq!(records[2].bytes, vec![3; 4_000]);
}

#[test]
fn reuses_space_in_an_earlier_page() {
    let mut database = Database::create(2);
    let mut heap = database.create_heap().unwrap();
    let first = database.insert(&mut heap, &vec![1; 3_000]).unwrap();
    database.insert(&mut heap, &vec![2; 3_000]).unwrap();
    database.insert(&mut heap, &vec![3; 3_000]).unwrap();
    assert_eq!(heap.page_count(), 2);

    database.delete(&heap, first).unwrap();
    let replacement = database.insert(&mut heap, &vec![4; 2_500]).unwrap();
    assert_eq!(replacement.page_id(), first.page_id());
    assert_eq!(heap.page_count(), 2);
}

#[test]
fn rejects_rids_from_another_heap() {
    let mut database = Database::create(3);
    let mut first = database.create_heap().unwrap();
    let second = database.create_heap().unwrap();
    let rid = database.insert(&mut first, b"owned by first").unwrap();
    assert!(matches!(
        database.get(&second, rid),
        Err(HeapFileError::RidOutsideHeap(_))
    ));
}

#[test]
fn detects_page_chain_cycles() {
    let mut database = Database::create(2);
    let heap = database.create_heap().unwrap();
    let first_page = heap.first_page_id();
    let guard = database.pin(first_page.get()).unwrap();
    database.pool.write(&guard).unwrap();
    let page = Page::from_bytes(first_page, Box::new(*database.pool.page(&guard).as_bytes()));
    let mut slotted = SlottedPage::from_page(page).unwrap();
    slotted.set_next_page_id(Some(first_page));
    database.pool.page_mut(&guard).write(0, slotted.page().as_bytes()).unwrap();
    database.pool.release_write(&guard);
    database.pool.unpin(guard);

    assert!(matches!(
        database.open_heap(first_page),
        Err(HeapFileError::PageChainCycle(page_id)) if page_id == first_page
    ));
}

#[test]
fn heap_rows_are_limited_to_one_page() {
    let mut database = Database::create(2);
    let mut heap = database.create_heap().unwrap();
    assert_eq!(MAX_RECORD_SIZE, 8_152);
    let rid = database.insert(&mut heap, &vec![5; 8_152]).unwrap();
    assert_eq!(rid, Rid::new(PageId::new(1), SlotId::new(0), 1));
    assert_eq!(
        database.insert(&mut heap, &vec![5; 8_153]),
        Err(HeapFileError::RecordTooLarge { size: 8_153, maximum: 8_152 })
    );
}

#[test]
fn a_page_without_space_for_a_slot_stops_an_insertion() {
    let mut database = Database::create(2);
    let mut heap = database.create_heap().unwrap();
    database.insert(&mut heap, &vec![5; 8_150]).unwrap();
    assert_eq!(
        database.insert(&mut heap, b"row"),
        Err(HeapFileError::Page(Box::new(SlottedPageError::Corrupt(
            "page metadata and live records exceed page size"
        ))))
    );
}

#[test]
fn scans_list_rows_by_page_and_slot() {
    let mut database = Database::create(2);
    let mut heap = database.create_heap().unwrap();
    let first = database.insert(&mut heap, &vec![1; 5_000]).unwrap();
    let second = database.insert(&mut heap, &vec![2; 5_000]).unwrap();
    let third = database.insert(&mut heap, b"three").unwrap();
    let records = database.scan(&heap).unwrap();
    assert_eq!(records.iter().map(|record| record.rid).collect::<Vec<_>>(), [first, third, second]);
    assert_eq!(records[1].bytes, b"three");
    database.delete(&heap, first).unwrap();
    assert_eq!(database.scan(&heap).unwrap().len(), 2);
    assert_eq!(
        database.delete(&heap, first),
        Err(HeapFileError::Page(Box::new(SlottedPageError::InvalidRid(first))))
    );
}

#[test]
fn pages_that_are_no_heap_pages_are_refused() {
    let mut database = Database::create(2);
    let mut heap = database.create_heap().unwrap();
    let rid = database.insert(&mut heap, b"row").unwrap();
    database.write_bytes(1, 0, b"XXXX");
    let corrupt = || {
        Some(HeapFileError::Page(Box::new(SlottedPageError::Corrupt("invalid heap-page magic"))))
    };
    assert_eq!(database.open_heap(PageId::new(1)).err(), corrupt());
    assert_eq!(database.insert(&mut heap, b"row").err(), corrupt());
    assert_eq!(database.get(&heap, rid).err(), corrupt());
    assert_eq!(database.delete(&heap, rid).err(), corrupt());
    assert_eq!(database.scan(&heap).err(), corrupt());
    let guard = database.pin(1).unwrap();
    let link = InsertStep::Link(rid, PageId::new(2));
    let result = heap.insert_step(&mut database.pool, guard, link, b"row");
    assert_eq!(result.err(), corrupt());
    assert_eq!(heap.page_count(), 1);
}

#[test]
fn heap_operations_keep_the_reserved_header_fields() {
    let mut database = Database::create(2);
    let mut heap = database.create_heap().unwrap();
    database.write_bytes(1, 28, &[1, 2, 3, 4]);
    let rid = database.insert(&mut heap, &[1; 8_000]).unwrap();
    database.insert(&mut heap, &[2; 8_000]).unwrap();
    database.delete(&heap, rid).unwrap();
    database.sync().unwrap();
    assert_eq!(heap.page_count(), 2);
    assert_eq!(database.file.page_at(PAGE_SIZE as u64)[28..32], [1, 2, 3, 4]);
    assert_eq!(database.file.page_at(2 * PAGE_SIZE as u64)[20..32], [0; 12]);
}

#[test]
fn heaps_of_a_read_only_database_cannot_change() {
    let mut database = Database::create(2);
    let mut heap = database.create_heap().unwrap();
    let rid = database.insert(&mut heap, b"row").unwrap();
    database.sync().unwrap();
    let mut database = database.reopen_read_only(2);
    let read_only = || Some(HeapFileError::Buffer(Box::new(BufferPoolError::ReadOnly)));
    assert_eq!(database.insert(&mut heap, b"row").err(), read_only());
    assert_eq!(database.delete(&heap, rid).err(), read_only());
    assert_eq!(database.create_heap().err(), read_only());
    assert_eq!(database.get(&heap, rid).unwrap(), b"row");
}

#[test]
fn a_borrowed_page_stops_heap_operations_and_stays_pinned() {
    let mut database = Database::create(2);
    let mut heap = database.create_heap().unwrap();
    let rid = database.insert(&mut heap, b"row").unwrap();
    let guard = database.pin(1).unwrap();
    database.pool.write(&guard).unwrap();
    let borrowed =
        || Some(HeapFileError::Buffer(Box::new(BufferPoolError::PageBorrowed(PageId::new(1)))));
    assert_eq!(database.get(&heap, rid).err(), borrowed());
    assert_eq!(database.insert(&mut heap, b"row").err(), borrowed());
    database.pool.release_write(&guard);
    assert_eq!(database.get(&heap, rid).unwrap(), b"row");
    database.pool.unpin(guard);
}

#[test]
fn opening_a_heap_reports_pool_errors() {
    let mut database = Database::create(1);
    assert_eq!(
        database.open_heap(PageId::new(4)).err(),
        Some(HeapFileError::Buffer(Box::new(BufferPoolError::Disk(Box::new(
            DiskManagerError::PageNotAllocated(PageId::new(4))
        )))))
    );
}

fn schema(name: &str) -> TableSchema {
    TableSchema::new(
        name,
        vec![
            ColumnSchema::primary_key("id", DataType::Int),
            ColumnSchema::required("name", DataType::Text),
        ],
    )
    .unwrap()
}

#[test]
fn creates_catalog_root_and_rejects_second_initialization() {
    let mut database = Database::create(3);
    let catalog = database.create_catalog().unwrap();
    assert_eq!(
        database.pool.database_header().catalog_root_page_id(),
        Some(catalog.root_page_id())
    );
    assert!(matches!(
        database.create_catalog(),
        Err(CatalogError::AlreadyInitialized(_))
    ));
}

#[test]
fn persists_immutable_table_metadata() {
    let mut database = Database::create(3);
    let mut catalog = database.create_catalog().unwrap();
    database.create_table(&mut catalog, schema("users")).unwrap();
    let users = catalog.table("users").unwrap();
    assert_eq!(users.id(), TableId::new(1));
    assert_eq!(users.schema().primary_key().name(), "id");
    assert_eq!(catalog.table_count(), 1);
    assert!(matches!(
        database.create_table(&mut catalog, schema("users")),
        Err(CatalogError::DuplicateTableName(name)) if name == "users"
    ));

    database.sync().unwrap();
    drop(catalog);
    let mut read_only = database.reopen_read_only(2);
    let reopened = read_only.open_catalog().unwrap();
    assert_eq!(reopened.table_count(), 1);
    assert_eq!(reopened.table("users").unwrap().schema(), &schema("users"));
}

#[test]
fn table_rows_survive_catalog_and_heap_reopen() {
    let mut database = Database::create(3);
    let mut catalog = database.create_catalog().unwrap();
    database.create_table(&mut catalog, schema("users")).unwrap();
    let users_schema = catalog.table("users").unwrap().schema().clone();
    let mut heap = database.open_table_heap(&catalog, "users").unwrap();
    let encoded = users_schema
        .encode_row(&[Value::Int(7), Value::Text("Ada".into())])
        .unwrap();
    database.insert(&mut heap, &encoded).unwrap();
    database.sync().unwrap();
    drop(heap);
    drop(catalog);

    let mut read_only = database.reopen_read_only(2);
    let catalog = read_only.open_catalog().unwrap();
    let heap = read_only.open_table_heap(&catalog, "users").unwrap();
    let records = read_only.scan(&heap).unwrap();
    assert_eq!(records.len(), 1);
    assert_eq!(
        catalog
            .table("users")
            .unwrap()
            .schema()
            .decode_row(&records[0].bytes)
            .unwrap(),
        vec![ValueRef::Int(7), ValueRef::Text("Ada")]
    );
}

#[test]
fn reports_missing_tables_and_uninitialized_database() {
    let mut database = Database::create(3);
    assert!(matches!(
        database.open_catalog(),
        Err(CatalogError::NotInitialized)
    ));
    let catalog = database.create_catalog().unwrap();
    assert!(matches!(
        database.open_table_heap(&catalog, "missing"),
        Err(CatalogError::TableNotFound(name)) if name == "missing"
    ));
}

#[test]
fn tables_are_listed_by_name_and_numbered_in_order() {
    let mut database = Database::create(3);
    let mut catalog = database.create_catalog().unwrap();
    for name in ["m", "a", "z", "M", "ab"] {
        database.create_table(&mut catalog, schema(name)).unwrap();
    }
    let listed = |catalog: &Catalog| {
        catalog
            .tables()
            .iter()
            .map(|table| (table.schema().name().to_owned(), table.id().get()))
            .collect::<Vec<_>>()
    };
    let expected = [("M", 4), ("a", 2), ("ab", 5), ("m", 1), ("z", 3)];
    assert_eq!(listed(&catalog), expected.map(|(name, id)| (name.to_owned(), id)));

    database.sync().unwrap();
    let disk = database.file.open().unwrap();
    let mut reopened = Database { file: database.file, pool: BufferPool::new(disk, 2).unwrap() };
    let mut catalog = reopened.open_catalog().unwrap();
    assert_eq!(listed(&catalog), expected.map(|(name, id)| (name.to_owned(), id)));
    reopened.create_table(&mut catalog, schema("n")).unwrap();
    assert_eq!(catalog.table("n").unwrap().id(), TableId::new(6));
}

fn table_record(id: u32, heap: u32, name: &str) -> Vec<u8> {
    let schema = schema(name).encode();
    let mut record = b"NTBL".to_vec();
    record.extend_from_slice(&[1, 0, 0, 0]);
    record.extend_from_slice(&id.to_le_bytes());
    record.extend_from_slice(&heap.to_le_bytes());
    record.extend_from_slice(&(schema.len() as u32).to_le_bytes());
    record.extend_from_slice(&schema);
    record
}

fn decoded(record: &[u8]) -> TableMetadata {
    decode_table_record(record).unwrap()
}

#[test]
fn table_records_round_trip() {
    let record = table_record(5, 9, "users");
    let metadata = decoded(&record);
    assert_eq!(metadata.id(), TableId::new(5));
    assert_eq!(metadata.heap_first_page_id(), PageId::new(9));
    assert_eq!(metadata.schema(), &schema("users"));
    assert_eq!(encode_table_record(&metadata), record);
}

#[test]
fn table_record_decoding_names_what_is_wrong() {
    let record = table_record(1, 2, "users");
    let reason = |bytes: &[u8]| match decode_table_record(bytes) {
        Err(CatalogError::CorruptRecord(reason)) => reason,
        _ => "none",
    };
    let changed = |offset: usize, value: u8| {
        let mut bytes = record.clone();
        bytes[offset] = value;
        bytes
    };
    assert_eq!(reason(&record[..19]), "table record is truncated");
    assert_eq!(reason(&changed(0, 0)), "invalid table record magic");
    assert_eq!(reason(&changed(4, 2)), "unsupported table record version");
    assert_eq!(reason(&changed(6, 1)), "table record reserved flags are not zero");
    assert_eq!(reason(&changed(8, 0)), "invalid table ID");
    assert_eq!(reason(&changed(12, 0)), "invalid table heap root");
    assert_eq!(
        reason(&record[..record.len() - 1]),
        "table record schema length does not match record"
    );
    assert_eq!(
        decode_table_record(&changed(20, 0)),
        Err(CatalogError::Schema(Box::new(SchemaError::CorruptEncoding("invalid schema magic"))))
    );
}

/// A database whose catalog holds these records.
fn with_records(records: &[Vec<u8>]) -> Database {
    let mut database = Database::create(4);
    database.create_catalog().unwrap();
    let root = database.pool.database_header().catalog_root_page_id().unwrap();
    let mut heap = database.open_heap(root).unwrap();
    for record in records {
        database.insert(&mut heap, record).unwrap();
    }
    for _ in 0..3 {
        database.create_heap().unwrap();
    }
    database
}

#[test]
fn loading_refuses_duplicate_names_and_numbers() {
    let mut database = with_records(&[table_record(3, 2, "users"), table_record(3, 3, "other")]);
    assert_eq!(
        database.open_catalog().err(),
        Some(CatalogError::DuplicateTableId(TableId::new(3)))
    );
    let mut database = with_records(&[table_record(3, 2, "users"), table_record(4, 3, "users")]);
    assert_eq!(
        database.open_catalog().err(),
        Some(CatalogError::DuplicateTableName("users".to_owned()))
    );
    let mut database = with_records(&[table_record(3, 2, "users"), table_record(1, 3, "other")]);
    let catalog = database.open_catalog().unwrap();
    assert_eq!(catalog.table_count(), 2);
    assert_eq!(catalog.table("users").unwrap().id(), TableId::new(3));
}

#[test]
fn loading_opens_the_heap_of_each_table() {
    let mut database = with_records(&[table_record(1, 2, "users"), vec![0; 30]]);
    assert_eq!(
        database.open_catalog().err(),
        Some(CatalogError::CorruptRecord("invalid table record magic"))
    );
    let mut database = with_records(&[table_record(1, 9, "users"), vec![0; 30]]);
    assert_eq!(
        database.open_catalog().err(),
        Some(CatalogError::Heap(Box::new(HeapFileError::Buffer(Box::new(BufferPoolError::Disk(
            Box::new(DiskManagerError::PageNotAllocated(PageId::new(9)))
        ))))))
    );
}

#[test]
fn table_numbers_run_out() {
    let mut database = with_records(&[table_record(u32::MAX, 2, "last")]);
    let catalog = database.open_catalog().unwrap();
    assert_eq!(catalog.create_table(schema("more")).err(), Some(CatalogError::TableIdExhausted));
    assert_eq!(
        catalog.create_table(schema("last")).err(),
        Some(CatalogError::DuplicateTableName("last".to_owned()))
    );
}

#[test]
fn table_records_must_fit_into_a_row() {
    let mut columns = vec![ColumnSchema::primary_key("id", DataType::Int)];
    for index in 0..100 {
        columns.push(ColumnSchema::required(&format!("c{index:0>99}"), DataType::Bool));
    }
    let wide = TableSchema::new("wide", columns).unwrap();
    let size = 20 + wide.encode().len();
    let mut database = Database::create(2);
    let catalog = database.create_catalog().unwrap();
    assert_eq!(
        catalog.create_table(wide).err(),
        Some(CatalogError::TableRecordTooLarge { size, maximum: 8_152 })
    );
}
