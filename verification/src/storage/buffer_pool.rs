//! A bounded page cache.
//!
//! The pool never touches the database file: an operation that needs it stops
//! with a step that says what to read or write, and goes on when it is told that
//! this was done.

use vstd::prelude::*;

use crate::message::{self, Message};

use super::disk::{self, DatabaseHeader, DiskManager, DiskManagerError};
use super::page;
use super::pool_model::{self, FrameState, Outcome, PoolState, Step};
use super::{Page, PageId, PAGE_SIZE};

verus! {

broadcast use page::page_length;

/// Observable counters for buffer-pool behavior.
#[derive(Clone, Copy, Debug, PartialEq, Eq, Structural)]
pub struct BufferPoolStats {
    pub hits: u64,
    pub misses: u64,
    pub evictions: u64,
    pub disk_writes: u64,
}

impl Default for BufferPoolStats {
    fn default() -> (stats: Self)
        ensures
            stats == (BufferPoolStats { hits: 0, misses: 0, evictions: 0, disk_writes: 0 }),
    {
        Self { hits: 0, misses: 0, evictions: 0, disk_writes: 0 }
    }
}

/// How a cached page is borrowed.
#[derive(Clone, Copy, Debug, PartialEq, Eq, Structural)]
pub enum Borrow {
    Free,
    /// By this many readers.
    Read(u32),
    /// By one writer.
    Write,
}

/// What space in the pool is wanted for.
#[derive(Clone, Copy, Debug, PartialEq, Eq, Structural)]
pub enum Purpose {
    Pin(PageId),
    Allocate,
}

/// What a stopped operation waits for.
#[derive(Clone, Copy, Debug, PartialEq, Eq, Structural)]
pub enum Task {
    /// Nothing: no operation is stopped.
    Idle,
    /// The victim is being written, to make space.
    Evict(PageId, Purpose),
    /// The page is being read.
    Load(PageId),
    /// A zeroed page is being written to the end of the file.
    Extend,
    /// The header is being written, after the file grew by a page.
    Advance,
    /// The header is being written, after the catalog root was set.
    Root,
    /// One page is being written.
    Flush(PageId),
    /// The page of this frame is being written, and those behind it are next; at
    /// the end the file is to be synchronized or not.
    FlushAll(usize, bool),
    /// The file is being synchronized.
    Sync,
}

/// What the caller of the pool does next.
pub enum PoolStep {
    /// The operation is complete.
    Done,
    /// The operation is complete, and the page is pinned.
    Pinned(PageGuard),
    /// Write the cached page to the file, and then call `written`.
    WriteCached(PageId),
    /// Write this page to the file, and then call `written`.
    Write(Page),
    /// Read the page from the file, and then call `loaded`.
    Read(PageId),
    /// Force the writes of the file to stable storage, and then call `synced`.
    Sync,
}

impl View for PoolStep {
    type V = Step;

    open spec fn view(&self) -> Step {
        match *self {
            PoolStep::Done => Step::Done,
            PoolStep::Pinned(guard) => Step::Pinned(guard.spec_page_id()),
            PoolStep::WriteCached(page_id) => Step::WriteCached(page_id),
            PoolStep::Write(page) => Step::Write(page.spec_id(), page@),
            PoolStep::Read(page_id) => Step::Read(page_id),
            PoolStep::Sync => Step::Sync,
        }
    }
}

/// One pin on a cached page, to be given back by `unpin`.
#[derive(Debug)]
pub struct PageGuard {
    page_id: PageId,
}

impl PageGuard {
    pub closed spec fn spec_page_id(&self) -> PageId {
        self.page_id
    }

    pub fn page_id(&self) -> (page_id: PageId)
        ensures
            page_id == self.spec_page_id(),
    {
        self.page_id
    }
}

struct Frame {
    page: Page,
    pin_count: u32,
    borrow: Borrow,
    last_used: u64,
    writable: bool,
}

impl View for Frame {
    type V = FrameState;

    closed spec fn view(&self) -> FrameState {
        FrameState {
            page_id: self.page.spec_id(),
            bytes: self.page@,
            dirty: self.page.spec_dirty(),
            pins: self.pin_count,
            borrow: self.borrow,
            last_used: self.last_used,
            writable: self.writable,
        }
    }
}

/// A bounded page cache.
///
/// Page guards keep frames pinned. When capacity is reached, the least recently
/// used unpinned frame is evicted, with dirty data written first.
pub struct BufferPool {
    disk: DiskManager,
    capacity: usize,
    frames: Vec<Frame>,
    clock: u64,
    stats: BufferPoolStats,
    task: Task,
}

impl View for BufferPool {
    type V = PoolState;

    closed spec fn view(&self) -> PoolState {
        PoolState {
            disk: self.disk@,
            capacity: self.capacity,
            frames: Seq::new(self.frames@.len(), |i: int| self.frames@[i]@),
            clock: self.clock,
            stats: self.stats,
            task: self.task,
        }
    }
}

/// Whether a pool came out in this state and returned this.
pub open spec fn follows(
    outcome: Outcome,
    state: PoolState,
    result: Result<PoolStep, BufferPoolError>,
) -> bool {
    &&& state == outcome.state
    &&& match outcome.result {
        Ok(step) => result matches Ok(found) && found@ == step,
        Err(error) => result matches Err(found) && found == error,
    }
}

impl BufferPool {
    /// A pool of `capacity` frames, none of them in use.
    pub fn new(disk: DiskManager, capacity: usize) -> (result: Result<Self, BufferPoolError>)
        ensures
            match result {
                Ok(pool) => {
                    &&& capacity > 0
                    &&& pool@.wf()
                    &&& pool@ == (PoolState {
                        disk: disk@,
                        capacity,
                        frames: Seq::empty(),
                        clock: 0,
                        stats: BufferPoolStats {
                            hits: 0,
                            misses: 0,
                            evictions: 0,
                            disk_writes: 0,
                        },
                        task: Task::Idle,
                    })
                },
                Err(error) => capacity == 0 && error == BufferPoolError::ZeroCapacity,
            },
    {
        if capacity == 0 {
            return Err(BufferPoolError::ZeroCapacity);
        }
        let _ = disk.header();
        let pool = Self {
            disk,
            capacity,
            frames: Vec::new(),
            clock: 0,
            stats: BufferPoolStats::default(),
            task: Task::Idle,
        };
        assert(pool@.frames =~= Seq::empty());
        Ok(pool)
    }

    /// Pins a page; one that is not cached is read from the file first.
    pub fn pin(&mut self, page_id: PageId) -> (result: Result<PoolStep, BufferPoolError>)
        requires
            old(self)@.wf(),
        ensures
            final(self)@.wf(),
            follows(old(self)@.pin(page_id), final(self)@, result),
            result matches Ok(step) ==> final(self)@.expects(step@),
    {
        self.task = Task::Idle;
        self.next_tick();
        match self.find(page_id) {
            Some(index) => {
                self.stats.hits = self.stats.hits.saturating_add(1);
                let pins: u32 = self.frames[index].pin_count;
                if pins == u32::MAX {
                    return Err(BufferPoolError::PinCountExhausted(page_id));
                }
                let ghost before = self@;
                self.frames[index].pin_count = pins + 1;
                self.frames[index].last_used = self.clock;
                proof {
                    let frame = FrameState {
                        pins: (pins + 1) as u32,
                        last_used: before.clock,
                        ..before.frames[index as int]
                    };
                    assert(before.frames[index as int].wf(before.disk, before.clock));
                    assert(self@.frames =~= before.frames.update(index as int, frame));
                    pool_model::lemma_same_places(before.frames, page_id, frame);
                }
                Ok(PoolStep::Pinned(PageGuard { page_id }))
            },
            None => {
                self.stats.misses = self.stats.misses.saturating_add(1);
                self.claim(Purpose::Pin(page_id))
            },
        }
    }

    /// Allocates a page of the file and pins it.
    pub fn allocate_page(&mut self) -> (result: Result<PoolStep, BufferPoolError>)
        requires
            old(self)@.wf(),
        ensures
            final(self)@.wf(),
            follows(old(self)@.allocate(), final(self)@, result),
            result matches Ok(step) ==> final(self)@.expects(step@),
    {
        self.task = Task::Idle;
        if self.disk.is_read_only() {
            return Err(BufferPoolError::ReadOnly);
        }
        self.claim(Purpose::Allocate)
    }

    /// Writes a cached page to the file if it is dirty.
    pub fn flush_page(&mut self, page_id: PageId) -> (result: Result<PoolStep, BufferPoolError>)
        requires
            old(self)@.wf(),
        ensures
            final(self)@.wf(),
            follows(old(self)@.flush_page(page_id), final(self)@, result),
            result matches Ok(step) ==> final(self)@.expects(step@),
    {
        self.task = Task::Idle;
        let index: usize = match self.find(page_id) {
            Some(index) => index,
            None => {
                return Err(BufferPoolError::PageNotCached(page_id));
            },
        };
        if self.frames[index].borrow != Borrow::Free {
            return Err(BufferPoolError::PageBorrowed(page_id));
        }
        if self.frames[index].page.is_dirty() {
            self.task = Task::Flush(page_id);
            return Ok(PoolStep::WriteCached(page_id));
        }
        Ok(PoolStep::Done)
    }

    /// Writes every dirty cached page to the file, without forcing it to stable
    /// storage.
    pub fn flush_all(&mut self) -> (result: Result<PoolStep, BufferPoolError>)
        requires
            old(self)@.wf(),
        ensures
            final(self)@.wf(),
            follows(old(self)@.flush_from(0, false), final(self)@, result),
            result matches Ok(step) ==> final(self)@.expects(step@),
    {
        self.flush_from(0, false)
    }

    /// Writes every dirty cached page to the file and forces it to stable storage.
    pub fn sync(&mut self) -> (result: Result<PoolStep, BufferPoolError>)
        requires
            old(self)@.wf(),
        ensures
            final(self)@.wf(),
            follows(old(self)@.flush_from(0, true), final(self)@, result),
            result matches Ok(step) ==> final(self)@.expects(step@),
    {
        self.flush_from(0, true)
    }

    /// Sets the catalog root, which can be done once, and writes the header.
    pub fn set_catalog_root_page_id(&mut self, page_id: PageId) -> (result: Result<
        PoolStep,
        BufferPoolError,
    >)
        requires
            old(self)@.wf(),
        ensures
            final(self)@.wf(),
            follows(old(self)@.set_root(page_id), final(self)@, result),
            result matches Ok(step) ==> final(self)@.expects(step@),
    {
        self.task = Task::Idle;
        match self.disk.set_catalog_root_page_id(page_id) {
            Ok(()) => {
                self.task = Task::Root;
                Ok(PoolStep::Write(self.disk.header_page()))
            },
            Err(error) => Err(BufferPoolError::Disk(Box::new(error))),
        }
    }

    /// Goes on after the write that was asked for.
    pub fn written(&mut self) -> (result: Result<PoolStep, BufferPoolError>)
        requires
            old(self)@.wf(),
            old(self)@.awaits_write(),
        ensures
            final(self)@.wf(),
            follows(old(self)@.written(), final(self)@, result),
            result matches Ok(step) ==> final(self)@.expects(step@),
            final(self)@.steps_left() < old(self)@.steps_left(),
    {
        let task = self.task;
        self.task = Task::Idle;
        match task {
            Task::Evict(page_id, purpose) => {
                match self.find(page_id) {
                    Some(index) => {
                        self.stats.disk_writes = self.stats.disk_writes.saturating_add(1);
                        self.evict(index);
                        self.proceed(purpose)
                    },
                    None => Ok(PoolStep::Done),
                }
            },
            Task::Extend => {
                let _ = self.disk.allocate_page();
                self.task = Task::Advance;
                Ok(PoolStep::Write(self.disk.header_page()))
            },
            Task::Advance => {
                let next: u32 = self.disk.header().next_page_id().get();
                let page_id = PageId::new(next - 1);
                self.next_tick();
                self.install(Page::zeroed(page_id));
                Ok(PoolStep::Pinned(PageGuard { page_id }))
            },
            Task::Flush(page_id) => {
                if let Some(index) = self.find(page_id) {
                    self.clean(index);
                }
                Ok(PoolStep::Done)
            },
            Task::FlushAll(position, sync) => {
                self.clean(position);
                self.flush_from(position + 1, sync)
            },
            _ => Ok(PoolStep::Done),
        }
    }

    /// Goes on after the page that was asked for was read.
    pub fn loaded(&mut self, bytes: Box<[u8; PAGE_SIZE]>) -> (result: Result<
        PoolStep,
        BufferPoolError,
    >)
        requires
            old(self)@.wf(),
            old(self)@.task is Load,
        ensures
            final(self)@.wf(),
            follows(old(self)@.loaded(bytes@), final(self)@, result),
            result matches Ok(step) ==> final(self)@.expects(step@),
            final(self)@.steps_left() < old(self)@.steps_left(),
    {
        let task = self.task;
        self.task = Task::Idle;
        match task {
            Task::Load(page_id) => {
                self.install(Page::from_bytes(page_id, bytes));
                Ok(PoolStep::Pinned(PageGuard { page_id }))
            },
            _ => Ok(PoolStep::Done),
        }
    }

    /// Goes on after the file was synchronized.
    pub fn synced(&mut self) -> (step: PoolStep)
        requires
            old(self)@.wf(),
            old(self)@.task is Sync,
        ensures
            final(self)@.wf(),
            final(self)@ == old(self)@.with_task(Task::Idle),
            final(self)@.clean_up_to(final(self)@.frames.len() as int),
            step@ == Step::Done,
    {
        self.task = Task::Idle;
        PoolStep::Done
    }

    /// A cached page, to be written to the file.
    pub fn cached_page(&self, page_id: PageId) -> (page: &Page)
        requires
            self@.wf(),
            self@.has_frame(page_id),
        ensures
            page.spec_id() == page_id,
            page@ == self@.frame(page_id).bytes,
    {
        let index: usize = self.find(page_id).unwrap();
        &self.frames[index].page
    }

    /// Borrows a pinned page for reading. Any number of readers may do so.
    pub fn read(&mut self, guard: &PageGuard) -> (result: Result<(), BufferPoolError>)
        requires
            old(self)@.wf(),
            old(self)@.pinned(guard.spec_page_id()),
        ensures
            final(self)@.wf(),
            match old(self)@.read_fault(guard.spec_page_id()) {
                Some(error) => {
                    &&& result == Err::<(), _>(error)
                    &&& final(self)@ == old(self)@.with_task(Task::Idle)
                },
                None => {
                    &&& result is Ok
                    &&& final(self)@ == old(self)@.with_borrow(
                        guard.spec_page_id(),
                        old(self)@.read_borrow(guard.spec_page_id()),
                    )
                },
            },
    {
        self.task = Task::Idle;
        let index: usize = self.find(guard.page_id).unwrap();
        assert(self@.frames[index as int].wf(self@.disk, self@.clock));
        let borrow = match self.frames[index].borrow {
            Borrow::Free => Borrow::Read(1),
            Borrow::Read(readers) => {
                if readers == u32::MAX {
                    return Err(BufferPoolError::PageBorrowed(guard.page_id));
                }
                Borrow::Read(readers + 1)
            },
            Borrow::Write => {
                return Err(BufferPoolError::PageBorrowed(guard.page_id));
            },
        };
        self.set_borrow(index, borrow);
        Ok(())
    }

    /// Borrows a pinned page for writing, exclusively.
    pub fn write(&mut self, guard: &PageGuard) -> (result: Result<(), BufferPoolError>)
        requires
            old(self)@.wf(),
            old(self)@.pinned(guard.spec_page_id()),
        ensures
            final(self)@.wf(),
            match old(self)@.write_fault(guard.spec_page_id()) {
                Some(error) => {
                    &&& result == Err::<(), _>(error)
                    &&& final(self)@ == old(self)@.with_task(Task::Idle)
                },
                None => {
                    &&& result is Ok
                    &&& final(self)@ == old(self)@.with_borrow(
                        guard.spec_page_id(),
                        Borrow::Write,
                    )
                },
            },
    {
        self.task = Task::Idle;
        let index: usize = self.find(guard.page_id).unwrap();
        assert(self@.frames[index as int].wf(self@.disk, self@.clock));
        if !self.frames[index].writable {
            return Err(BufferPoolError::ReadOnly);
        }
        if self.frames[index].borrow != Borrow::Free {
            return Err(BufferPoolError::PageBorrowed(guard.page_id));
        }
        self.set_borrow(index, Borrow::Write);
        Ok(())
    }

    /// The page that a guard pins, while it is borrowed.
    pub fn page(&self, guard: &PageGuard) -> (page: &Page)
        requires
            self@.wf(),
            self@.pinned(guard.spec_page_id()),
            self@.frame(guard.spec_page_id()).borrow != Borrow::Free,
        ensures
            page.spec_id() == guard.spec_page_id(),
            page@ == self@.frame(guard.spec_page_id()).bytes,
            page.spec_dirty() == self@.frame(guard.spec_page_id()).dirty,
    {
        let index: usize = self.find(guard.page_id).unwrap();
        &self.frames[index].page
    }

    /// The page that a guard pins, while it is borrowed for writing. The page must
    /// stay the page that it is.
    pub fn page_mut(&mut self, guard: &PageGuard) -> (page: &mut Page)
        requires
            old(self)@.wf(),
            old(self)@.pinned(guard.spec_page_id()),
            old(self)@.frame(guard.spec_page_id()).borrow is Write,
        ensures
            page.spec_id() == guard.spec_page_id(),
            page@ == old(self)@.frame(guard.spec_page_id()).bytes,
            page.spec_dirty() == old(self)@.frame(guard.spec_page_id()).dirty,
            final(page).spec_id() == guard.spec_page_id() ==> {
                &&& final(self)@.wf()
                &&& final(self)@ == old(self)@.with_contents(
                    guard.spec_page_id(),
                    final(page)@,
                    final(page).spec_dirty(),
                )
            },
    {
        let index: usize = self.find(guard.page_id).unwrap();
        let ghost before = self@;
        proof {
            assert(before.frames[index as int].wf(before.disk, before.clock));
            assert forall|bytes: Seq<u8>, dirty: bool|
                bytes.len() == PAGE_SIZE implies (#[trigger] before.with_contents(
                guard.page_id,
                bytes,
                dirty,
            )).wf() by {
                pool_model::lemma_contents_keep_wf(before, guard.page_id, bytes, dirty);
            }
        }
        let page = &mut self.frames[index].page;
        assert(after_borrow(self)@.frames =~= before.frames.update(
            index as int,
            FrameState {
                page_id: final(page).spec_id(),
                bytes: final(page)@,
                dirty: final(page).spec_dirty(),
                ..before.frames[index as int]
            },
        ));
        assert(final(page)@.len() == PAGE_SIZE);
        page
    }

    /// Ends the loan of one reader of a page.
    pub fn release_read(&mut self, guard: &PageGuard)
        requires
            old(self)@.wf(),
            old(self)@.pinned(guard.spec_page_id()),
            old(self)@.frame(guard.spec_page_id()).borrow is Read,
        ensures
            final(self)@.wf(),
            final(self)@ == old(self)@.with_borrow(
                guard.spec_page_id(),
                old(self)@.released_borrow(guard.spec_page_id()),
            ),
    {
        self.task = Task::Idle;
        let index: usize = self.find(guard.page_id).unwrap();
        assert(self@.frames[index as int].wf(self@.disk, self@.clock));
        let borrow = match self.frames[index].borrow {
            Borrow::Read(readers) if readers > 1 => Borrow::Read(readers - 1),
            _ => Borrow::Free,
        };
        self.set_borrow(index, borrow);
    }

    /// Ends the loan of the writer of a page.
    pub fn release_write(&mut self, guard: &PageGuard)
        requires
            old(self)@.wf(),
            old(self)@.pinned(guard.spec_page_id()),
            old(self)@.frame(guard.spec_page_id()).borrow is Write,
        ensures
            final(self)@.wf(),
            final(self)@ == old(self)@.with_borrow(guard.spec_page_id(), Borrow::Free),
    {
        self.task = Task::Idle;
        let index: usize = self.find(guard.page_id).unwrap();
        assert(self@.frames[index as int].wf(self@.disk, self@.clock));
        self.set_borrow(index, Borrow::Free);
    }

    /// Gives back one pin on a page. The last one can be given back once nobody
    /// borrows the page.
    pub fn unpin(&mut self, guard: PageGuard)
        requires
            old(self)@.wf(),
            old(self)@.pinned(guard.spec_page_id()),
            old(self)@.frame(guard.spec_page_id()).pins > 1 || old(self)@.frame(
                guard.spec_page_id(),
            ).borrow == Borrow::Free,
        ensures
            final(self)@.wf(),
            final(self)@ == old(self)@.unpin(guard.spec_page_id()),
    {
        self.task = Task::Idle;
        let index: usize = self.find(guard.page_id).unwrap();
        assert(self@.frames[index as int].wf(self@.disk, self@.clock));
        let ghost before = self@;
        let pins: u32 = self.frames[index].pin_count;
        self.frames[index].pin_count = pins - 1;
        assert(self@.frames =~= before.frames.update(
            index as int,
            FrameState { pins: (pins - 1) as u32, ..before.frames[index as int] },
        ));
    }

    /// Ends the pool and gives back its disk manager. Every page must have been
    /// written to the file.
    pub fn close(self) -> (disk: DiskManager)
        requires
            self@.wf(),
            self@.clean_up_to(self@.frames.len() as int),
        ensures
            disk@ == self@.disk,
    {
        self.disk
    }

    fn set_borrow(&mut self, index: usize, borrow: Borrow)
        requires
            old(self)@.wf(),
            old(self)@.task is Idle,
            index < old(self)@.frames.len(),
            borrow != Borrow::Free ==> old(self)@.frames[index as int].pins > 0,
            borrow is Write ==> old(self)@.frames[index as int].writable,
            borrow != Borrow::Read(0),
        ensures
            final(self)@.wf(),
            final(self)@ == old(self)@.with_borrow(
                old(self)@.frames[index as int].page_id,
                borrow,
            ),
    {
        let ghost before = self@;
        assert(before.frames[index as int].wf(before.disk, before.clock));
        self.frames[index].borrow = borrow;
        proof {
            let page_id = before.frames[index as int].page_id;
            assert(pool_model::index_of(before.frames, page_id) == index);
            assert(self@.frames =~= before.frames.update(
                index as int,
                FrameState { borrow, ..before.frames[index as int] },
            ));
        }
    }

    pub fn contains_page(&self, page_id: PageId) -> (contained: bool)
        requires
            self@.wf(),
        ensures
            contained == self@.has_frame(page_id),
    {
        self.find(page_id).is_some()
    }

    pub fn cached_page_count(&self) -> (count: usize)
        ensures
            count == self@.frames.len(),
    {
        self.frames.len()
    }

    pub fn capacity(&self) -> (capacity: usize)
        ensures
            capacity == self@.capacity,
    {
        self.capacity
    }

    pub fn stats(&self) -> (stats: BufferPoolStats)
        ensures
            stats == self@.stats,
    {
        self.stats
    }

    pub fn database_header(&self) -> (header: DatabaseHeader)
        ensures
            header@ == self@.disk.header,
    {
        self.disk.header()
    }

    /// Where `page_id` is cached.
    fn find(&self, page_id: PageId) -> (index: Option<usize>)
        requires
            pool_model::distinct(self@.frames),
        ensures
            match index {
                Some(index) => {
                    &&& index < self@.frames.len()
                    &&& index == pool_model::index_of(self@.frames, page_id)
                    &&& self@.frames[index as int].page_id == page_id
                    &&& self@.has_frame(page_id)
                },
                None => !self@.has_frame(page_id),
            },
    {
        let mut index: usize = 0;
        while index < self.frames.len()
            invariant
                index <= self.frames@.len(),
                pool_model::distinct(self@.frames),
                forall|j: int| 0 <= j < index ==> (#[trigger] self@.frames[j]).page_id != page_id,
            decreases self.frames@.len() - index,
        {
            if self.frames[index].page.id() == page_id {
                assert(self@.frames[index as int].page_id == page_id);
                return Some(index);
            }
            index += 1;
        }
        None
    }

    /// Advances the clock. When it is exhausted, all uses are forgotten.
    fn next_tick(&mut self)
        requires
            old(self)@.wf(),
            old(self)@.task is Idle,
        ensures
            final(self)@.wf(),
            final(self)@ == old(self)@.tick(),
            final(self)@.all_used_before(),
    {
        if self.clock < u64::MAX {
            self.clock = self.clock + 1;
            return;
        }
        let mut index: usize = 0;
        while index < self.frames.len()
            invariant
                index <= self.frames@.len(),
                self.disk == old(self).disk,
                self.capacity == old(self).capacity,
                self.clock == old(self).clock,
                self.stats == old(self).stats,
                self.task == old(self).task,
                self.frames@.len() == old(self).frames@.len(),
                forall|j: int|
                    0 <= j < index ==> #[trigger] self@.frames[j] == (FrameState {
                        last_used: 0,
                        ..old(self)@.frames[j]
                    }),
                forall|j: int|
                    index <= j < self.frames@.len() ==> #[trigger] self@.frames[j] == old(
                        self,
                    )@.frames[j],
            decreases self.frames@.len() - index,
        {
            let ghost before = self@;
            self.frames[index].last_used = 0;
            assert(self@.frames =~= before.frames.update(
                index as int,
                FrameState { last_used: 0, ..before.frames[index as int] },
            ));
            index += 1;
        }
        assert(self@.frames =~= old(self)@.tick().frames);
        let ghost frames = self@.frames;
        self.clock = 1;
        assert(self@.frames =~= frames);
    }

    /// The frame to evict: the least recently used one that is not pinned.
    fn find_victim(&self) -> (index: Option<usize>)
        ensures
            match index {
                Some(index) => {
                    &&& index < self@.frames.len()
                    &&& pool_model::is_victim(self@.frames, index as int)
                    &&& index == pool_model::victim(self@.frames)
                    &&& !pool_model::all_pinned(self@.frames)
                },
                None => pool_model::all_pinned(self@.frames),
            },
    {
        let mut victim: Option<usize> = None;
        let mut index: usize = 0;
        while index < self.frames.len()
            invariant
                index <= self.frames@.len(),
                match victim {
                    Some(best) => {
                        &&& best < index
                        &&& self@.frames[best as int].pins == 0
                        &&& forall|j: int|
                            0 <= j < index && (#[trigger] self@.frames[j]).pins == 0
                                ==> self@.frames[best as int].last_used
                                <= self@.frames[j].last_used
                        &&& forall|j: int|
                            0 <= j < best && (#[trigger] self@.frames[j]).pins == 0
                                ==> self@.frames[best as int].last_used < self@.frames[j].last_used
                    },
                    None => forall|j: int|
                        0 <= j < index ==> (#[trigger] self@.frames[j]).pins > 0,
                },
            decreases self.frames@.len() - index,
        {
            assert(self@.frames[index as int] == self.frames@[index as int]@);
            if self.frames[index].pin_count == 0 {
                match victim {
                    Some(best) => {
                        if self.frames[index].last_used < self.frames[best].last_used {
                            victim = Some(index);
                        }
                    },
                    None => {
                        victim = Some(index);
                    },
                }
            }
            index += 1;
        }
        proof {
            if let Some(best) = victim {
                assert(pool_model::is_victim(self@.frames, best as int));
                assert(self@.frames[best as int].pins == 0);
                let chosen = pool_model::victim(self@.frames);
                assert(pool_model::is_victim(self@.frames, chosen));
                assert(self@.frames[chosen].pins == 0);
            }
        }
        victim
    }

    /// Finds space for a page.
    fn claim(&mut self, purpose: Purpose) -> (result: Result<PoolStep, BufferPoolError>)
        requires
            old(self)@.wf(),
            old(self)@.task is Idle,
            purpose matches Purpose::Pin(page_id) ==> {
                &&& !old(self)@.has_frame(page_id)
                &&& old(self)@.all_used_before()
            },
        ensures
            final(self)@.wf(),
            follows(old(self)@.claim(purpose), final(self)@, result),
            result matches Ok(step) ==> final(self)@.expects(step@),
    {
        if self.frames.len() < self.capacity {
            return self.proceed(purpose);
        }
        let index: usize = match self.find_victim() {
            Some(index) => index,
            None => {
                return Err(BufferPoolError::AllFramesPinned);
            },
        };
        assert(self@.frames[index as int].wf(self@.disk, self@.clock));
        if self.frames[index].page.is_dirty() {
            let page_id = self.frames[index].page.id();
            assert(self@.frames[index as int].page_id == page_id);
            self.task = Task::Evict(page_id, purpose);
            return Ok(PoolStep::WriteCached(page_id));
        }
        self.evict(index);
        self.proceed(purpose)
    }

    /// Goes on where there is space for a page.
    fn proceed(&mut self, purpose: Purpose) -> (result: Result<PoolStep, BufferPoolError>)
        requires
            old(self)@.wf(),
            old(self)@.task is Idle,
            old(self)@.frames.len() < old(self)@.capacity,
            purpose matches Purpose::Pin(page_id) ==> {
                &&& !old(self)@.has_frame(page_id)
                &&& old(self)@.all_used_before()
            },
        ensures
            final(self)@.wf(),
            follows(old(self)@.proceed(purpose), final(self)@, result),
            result matches Ok(step) ==> final(self)@.expects(step@),
            final(self)@.steps_left() <= if purpose is Allocate {
                2
            } else {
                1int
            },
    {
        match purpose {
            Purpose::Pin(page_id) => match self.disk.read_offset(page_id) {
                Ok(_) => {
                    self.task = Task::Load(page_id);
                    Ok(PoolStep::Read(page_id))
                },
                Err(error) => Err(BufferPoolError::Disk(Box::new(error))),
            },
            Purpose::Allocate => match self.disk.begin_allocation() {
                Ok(page) => {
                    self.task = Task::Extend;
                    Ok(PoolStep::Write(page))
                },
                Err(error) => Err(BufferPoolError::Disk(Box::new(error))),
            },
        }
    }

    /// Drops the page of an unpinned frame.
    fn evict(&mut self, index: usize)
        requires
            old(self)@.wf(),
            old(self)@.task is Idle,
            index < old(self)@.frames.len(),
        ensures
            final(self)@.wf(),
            final(self)@ == old(self)@.evict(index as int),
            forall|page_id: PageId|
                !old(self)@.has_frame(page_id) ==> !#[trigger] final(self)@.has_frame(page_id),
    {
        let ghost before = self@;
        self.frames.remove(index);
        self.stats.evictions = self.stats.evictions.saturating_add(1);
        assert(self@.frames =~= before.frames.remove(index as int));
        assert forall|page_id: PageId| !before.has_frame(page_id) implies !#[trigger] self@.has_frame(
            page_id,
        ) by {
            if self@.has_frame(page_id) {
                let i = pool_model::index_of(self@.frames, page_id);
                let j = if i < index {
                    i
                } else {
                    i + 1
                };
                assert(before.frames[j].page_id == page_id);
            }
        }
    }

    /// Caches one more page, pinned and used just now.
    fn install(&mut self, page: Page)
        requires
            old(self)@.wf(),
            old(self)@.task is Idle,
            old(self)@.frames.len() < old(self)@.capacity,
            !old(self)@.has_frame(page.spec_id()),
            old(self)@.disk.header.allocated(page.spec_id()),
            !page.spec_dirty(),
        ensures
            final(self)@.wf(),
            final(self)@ == old(self)@.install(page.spec_id(), page@),
            final(self)@.can_visit(page.spec_id()),
    {
        let ghost before = self@;
        let frame = Frame {
            page,
            pin_count: 1,
            borrow: Borrow::Free,
            last_used: self.clock,
            writable: !self.disk.is_read_only(),
        };
        self.frames.push(frame);
        assert(self@.frames =~= before.frames.push(frame@));
        assert(self@.frames.last().page_id == page.spec_id());
    }

    /// Notes that the page of a frame was written to the file.
    fn clean(&mut self, index: usize)
        requires
            old(self)@.wf(),
            old(self)@.task is Idle,
            !old(self)@.disk.read_only,
            index < old(self)@.frames.len(),
        ensures
            final(self)@.wf(),
            final(self)@ == old(self)@.cleaned(
                old(self)@.frames[index as int].page_id,
            ).count_write(),
            final(self)@.frames.len() == old(self)@.frames.len(),
    {
        let ghost before = self@;
        assert(before.frames[index as int].wf(before.disk, before.clock));
        let _ = self.disk.write_page(&mut self.frames[index].page);
        self.stats.disk_writes = self.stats.disk_writes.saturating_add(1);
        proof {
            let page_id = before.frames[index as int].page_id;
            assert(pool_model::index_of(before.frames, page_id) == index);
            assert(self@.frames =~= before.frames.update(
                index as int,
                FrameState { dirty: false, ..before.frames[index as int] },
            ));
        }
    }

    /// Writes the dirty pages from frame `start` on to the file.
    fn flush_from(&mut self, start: usize, sync: bool) -> (result: Result<
        PoolStep,
        BufferPoolError,
    >)
        requires
            old(self)@.wf(),
            start <= old(self)@.frames.len(),
            old(self)@.clean_up_to(start as int),
        ensures
            final(self)@.wf(),
            follows(old(self)@.flush_from(start as int, sync), final(self)@, result),
            result matches Ok(step) ==> final(self)@.expects(step@),
            final(self)@.steps_left() <= old(self)@.frames.len() - start + 1,
    {
        let mut position: usize = start;
        while position < self.frames.len()
            invariant
                *self == *old(self),
                self@.wf(),
                start <= position <= self.frames@.len(),
                self@.clean_up_to(position as int),
                self@.flush_from(start as int, sync) == self@.flush_from(position as int, sync),
            decreases self.frames@.len() - position,
        {
            assert(self@.frames[position as int].wf(self@.disk, self@.clock));
            let page_id = self.frames[position].page.id();
            if self.frames[position].borrow != Borrow::Free {
                self.task = Task::Idle;
                return Err(BufferPoolError::PageBorrowed(page_id));
            }
            if self.frames[position].page.is_dirty() {
                self.task = Task::FlushAll(position, sync);
                return Ok(PoolStep::WriteCached(page_id));
            }
            position += 1;
        }
        if sync {
            self.task = Task::Sync;
            Ok(PoolStep::Sync)
        } else {
            self.task = Task::Idle;
            Ok(PoolStep::Done)
        }
    }
}

#[derive(Clone, Debug, PartialEq, Eq)]
pub enum BufferPoolError {
    Disk(Box<DiskManagerError>),
    ZeroCapacity,
    AllFramesPinned,
    PoolBorrowed,
    PageBorrowed(PageId),
    PageNotCached(PageId),
    PinCountExhausted(PageId),
    ReadOnly,
}

impl BufferPoolError {
    pub open spec fn text(self) -> Seq<char> {
        match self {
            BufferPoolError::Disk(error) => error.text(),
            BufferPoolError::ZeroCapacity => "buffer pool capacity must be greater than zero"@,
            BufferPoolError::AllFramesPinned => "all buffer-pool frames are pinned"@,
            BufferPoolError::PoolBorrowed => "buffer pool is already mutably borrowed"@,
            BufferPoolError::PageBorrowed(page_id) => {
                "cached page "@ + message::decimal(page_id.0 as int) + " is already borrowed"@
            },
            BufferPoolError::PageNotCached(page_id) => {
                "page "@ + message::decimal(page_id.0 as int) + " is not cached"@
            },
            BufferPoolError::PinCountExhausted(page_id) => {
                "page "@ + message::decimal(page_id.0 as int) + " pin count is exhausted"@
            },
            BufferPoolError::ReadOnly => "database was opened read-only"@,
        }
    }

    /// What went wrong, for people to read.
    pub fn message(&self) -> (message: String)
        ensures
            message@ == self.text(),
    {
        match self {
            Self::Disk(error) => error.message(),
            Self::ZeroCapacity => "buffer pool capacity must be greater than zero".to_owned(),
            Self::AllFramesPinned => "all buffer-pool frames are pinned".to_owned(),
            Self::PoolBorrowed => "buffer pool is already mutably borrowed".to_owned(),
            Self::PageBorrowed(page_id) => Message::new("cached page ").number(
                page_id.get() as u64,
            ).text(" is already borrowed").finish(),
            Self::PageNotCached(page_id) => Message::new("page ").number(
                page_id.get() as u64,
            ).text(" is not cached").finish(),
            Self::PinCountExhausted(page_id) => Message::new("page ").number(
                page_id.get() as u64,
            ).text(" pin count is exhausted").finish(),
            Self::ReadOnly => "database was opened read-only".to_owned(),
        }
    }
}

impl From<DiskManagerError> for BufferPoolError {
    fn from(error: DiskManagerError) -> (converted: Self) {
        Self::Disk(Box::new(error))
    }
}

impl vstd::std_specs::convert::FromSpecImpl<DiskManagerError> for BufferPoolError {
    open spec fn obeys_from_spec() -> bool {
        true
    }

    open spec fn from_spec(error: DiskManagerError) -> Self {
        BufferPoolError::Disk(Box::new(error))
    }
}

} // verus!
