//! What the buffer pool does, as transitions between its states.
//!
//! An operation that needs the database file stops with a step that says what to
//! read or write, and goes on when it is told that this was done. Starting
//! another operation abandons one that was stopped.

use vstd::prelude::*;

use super::buffer_pool::{Borrow, BufferPoolError, BufferPoolStats, Purpose, Task};
use super::disk::{self, Disk};
use super::disk_format;
use super::{PageId, PAGE_SIZE};

verus! {

/// A cached page.
#[verifier::ext_equal]
pub struct FrameState {
    pub page_id: PageId,
    pub bytes: Seq<u8>,
    /// Whether the page differs from the database file.
    pub dirty: bool,
    pub pins: u32,
    pub borrow: Borrow,
    pub last_used: u64,
    pub writable: bool,
}

/// A buffer pool.
#[verifier::ext_equal]
pub struct PoolState {
    pub disk: Disk,
    pub capacity: usize,
    pub frames: Seq<FrameState>,
    pub clock: u64,
    pub stats: BufferPoolStats,
    pub task: Task,
}

/// What the caller does next.
pub enum Step {
    /// The operation is complete.
    Done,
    /// The operation is complete, and the page is pinned.
    Pinned(PageId),
    /// Write the cached page to the file.
    WriteCached(PageId),
    /// Write these bytes to the file as that page.
    Write(PageId, Seq<u8>),
    /// Read the page from the file.
    Read(PageId),
    /// Force the writes of the file to stable storage.
    Sync,
}

/// A state with what was returned on the way to it.
pub struct Outcome {
    pub state: PoolState,
    pub result: Result<Step, BufferPoolError>,
}

pub open spec fn saturating_increment(count: u64) -> u64 {
    if count == u64::MAX {
        count
    } else {
        (count + 1) as u64
    }
}

pub open spec fn cached(frames: Seq<FrameState>, page_id: PageId) -> bool {
    exists|i: int| 0 <= i < frames.len() && (#[trigger] frames[i]).page_id == page_id
}

/// Where `page_id` is cached.
pub open spec fn index_of(frames: Seq<FrameState>, page_id: PageId) -> int {
    choose|i: int| 0 <= i < frames.len() && (#[trigger] frames[i]).page_id == page_id
}

pub open spec fn distinct(frames: Seq<FrameState>) -> bool {
    forall|i: int, j: int|
        0 <= i < j < frames.len() ==> (#[trigger] frames[i]).page_id != (
        #[trigger] frames[j]).page_id
}

/// Whether every frame is pinned.
pub open spec fn all_pinned(frames: Seq<FrameState>) -> bool {
    forall|i: int| 0 <= i < frames.len() ==> (#[trigger] frames[i]).pins > 0
}

/// Whether frame `index` is the first of the unpinned frames that were not used
/// for the longest time.
pub open spec fn is_victim(frames: Seq<FrameState>, index: int) -> bool {
    &&& 0 <= index < frames.len()
    &&& frames[index].pins == 0
    &&& forall|j: int|
        0 <= j < frames.len() && (#[trigger] frames[j]).pins == 0 ==> frames[index].last_used
            <= frames[j].last_used
    &&& forall|j: int|
        0 <= j < index && (#[trigger] frames[j]).pins == 0 ==> frames[index].last_used
            < frames[j].last_used
}

pub open spec fn victim(frames: Seq<FrameState>) -> int {
    choose|index: int| is_victim(frames, index)
}

impl FrameState {
    pub open spec fn wf(self, disk: Disk, clock: u64) -> bool {
        &&& self.bytes.len() == PAGE_SIZE
        &&& disk.header.allocated(self.page_id)
        &&& self.writable == !disk.read_only
        &&& self.dirty ==> self.writable
        &&& self.borrow is Write ==> self.writable
        &&& self.borrow != Borrow::Free ==> self.pins > 0
        &&& self.borrow != Borrow::Read(0)
        &&& self.last_used <= clock
    }
}

impl PoolState {
    pub open spec fn wf(self) -> bool {
        &&& self.disk.header.valid()
        &&& 0 < self.capacity
        &&& self.frames.len() <= self.capacity
        &&& distinct(self.frames)
        &&& forall|i: int|
            0 <= i < self.frames.len() ==> (#[trigger] self.frames[i]).wf(self.disk, self.clock)
        &&& self.task_wf()
    }

    /// What holds while an operation waits for the file.
    pub open spec fn task_wf(self) -> bool {
        match self.task {
            Task::Idle | Task::Root => true,
            Task::Evict(page_id, purpose) => {
                &&& cached(self.frames, page_id)
                &&& self.frames[index_of(self.frames, page_id)].pins == 0
                &&& !self.disk.read_only
                &&& purpose matches Purpose::Pin(wanted) ==> {
                    &&& !cached(self.frames, wanted)
                    &&& self.all_used_before()
                }
            },
            Task::Load(page_id) => {
                &&& self.frames.len() < self.capacity
                &&& self.all_used_before()
                &&& !cached(self.frames, page_id)
                &&& self.disk.header.allocated(page_id)
            },
            Task::Extend => {
                &&& self.frames.len() < self.capacity
                &&& disk::allocation_fault(self.disk) is None
            },
            Task::Advance => {
                &&& self.frames.len() < self.capacity
                &&& !self.disk.read_only
                &&& self.disk.header.next_page_id > disk_format::FIRST_DATA_PAGE_ID
                &&& !cached(self.frames, self.newest())
            },
            Task::Flush(page_id) => {
                &&& cached(self.frames, page_id)
                &&& !self.disk.read_only
            },
            Task::FlushAll(position, _) => {
                &&& position < self.frames.len()
                &&& !self.disk.read_only
                &&& self.clean_up_to(position as int)
                &&& self.frames[position as int].borrow == Borrow::Free
            },
            Task::Sync => self.clean_up_to(self.frames.len() as int),
        }
    }

    /// Whether no page was used since the clock advanced last.
    pub open spec fn all_used_before(self) -> bool {
        forall|i: int| 0 <= i < self.frames.len() ==> (#[trigger] self.frames[i]).last_used < self.clock
    }

    /// Whether the first `count` pages are as in the file, and nobody borrows them.
    pub open spec fn clean_up_to(self, count: int) -> bool {
        forall|i: int|
            0 <= i < count ==> !(#[trigger] self.frames[i]).dirty && self.frames[i].borrow
                == Borrow::Free
    }

    /// The page that was allocated last.
    pub open spec fn newest(self) -> PageId {
        PageId((self.disk.header.next_page_id - 1) as u32)
    }

    pub open spec fn has_frame(self, page_id: PageId) -> bool {
        cached(self.frames, page_id)
    }

    /// The frame of a cached page.
    pub open spec fn frame(self, page_id: PageId) -> FrameState {
        self.frames[index_of(self.frames, page_id)]
    }

    pub open spec fn with_frame(self, page_id: PageId, frame: FrameState) -> PoolState {
        PoolState { frames: self.frames.update(index_of(self.frames, page_id), frame), ..self }
    }

    pub open spec fn with_task(self, task: Task) -> PoolState {
        PoolState { task, ..self }
    }

    /// Whether the page is pinned by someone.
    pub open spec fn pinned(self, page_id: PageId) -> bool {
        self.has_frame(page_id) && self.frame(page_id).pins > 0
    }

    pub open spec fn stops(self, task: Task, step: Step) -> Outcome {
        Outcome { state: self.with_task(task), result: Ok(step) }
    }

    pub open spec fn fails(self, error: BufferPoolError) -> Outcome {
        Outcome { state: self.with_task(Task::Idle), result: Err(error) }
    }

    /// Advances the clock. When it is exhausted, all uses are forgotten.
    pub open spec fn tick(self) -> PoolState {
        if self.clock == u64::MAX {
            PoolState {
                frames: Seq::new(
                    self.frames.len(),
                    |i: int| FrameState { last_used: 0, ..self.frames[i] },
                ),
                clock: 1,
                ..self
            }
        } else {
            PoolState { clock: (self.clock + 1) as u64, ..self }
        }
    }

    pub open spec fn count_hit(self) -> PoolState {
        PoolState {
            stats: BufferPoolStats {
                hits: saturating_increment(self.stats.hits),
                ..self.stats
            },
            ..self
        }
    }

    pub open spec fn count_miss(self) -> PoolState {
        PoolState {
            stats: BufferPoolStats {
                misses: saturating_increment(self.stats.misses),
                ..self.stats
            },
            ..self
        }
    }

    pub open spec fn count_write(self) -> PoolState {
        PoolState {
            stats: BufferPoolStats {
                disk_writes: saturating_increment(self.stats.disk_writes),
                ..self.stats
            },
            ..self
        }
    }

    /// Without frame `index`.
    pub open spec fn evict(self, index: int) -> PoolState {
        PoolState {
            frames: self.frames.remove(index),
            stats: BufferPoolStats {
                evictions: saturating_increment(self.stats.evictions),
                ..self.stats
            },
            ..self
        }
    }

    /// With one more page, pinned and used just now.
    pub open spec fn install(self, page_id: PageId, bytes: Seq<u8>) -> PoolState {
        PoolState {
            frames: self.frames.push(
                FrameState {
                    page_id,
                    bytes,
                    dirty: false,
                    pins: 1,
                    borrow: Borrow::Free,
                    last_used: self.clock,
                    writable: !self.disk.read_only,
                },
            ),
            ..self
        }
    }

    /// Pins a page; one that is not cached is read from the file first.
    pub open spec fn pin(self, page_id: PageId) -> Outcome {
        let ticked = self.tick();
        if ticked.has_frame(page_id) {
            let hit = ticked.count_hit();
            let frame = hit.frame(page_id);
            if frame.pins == u32::MAX {
                hit.fails(BufferPoolError::PinCountExhausted(page_id))
            } else {
                hit.with_frame(
                    page_id,
                    FrameState {
                        pins: (frame.pins + 1) as u32,
                        last_used: hit.clock,
                        ..frame
                    },
                ).stops(Task::Idle, Step::Pinned(page_id))
            }
        } else {
            ticked.count_miss().claim(Purpose::Pin(page_id))
        }
    }

    /// Allocates a page and pins it.
    pub open spec fn allocate(self) -> Outcome {
        if self.disk.read_only {
            self.fails(BufferPoolError::ReadOnly)
        } else {
            self.claim(Purpose::Allocate)
        }
    }

    /// Finds space for a page: where the pool is full, the victim leaves it, after
    /// it was written to the file if it is dirty.
    pub open spec fn claim(self, purpose: Purpose) -> Outcome {
        if self.frames.len() < self.capacity {
            self.proceed(purpose)
        } else if all_pinned(self.frames) {
            self.fails(BufferPoolError::AllFramesPinned)
        } else {
            let index = victim(self.frames);
            let page_id = self.frames[index].page_id;
            if self.frames[index].dirty {
                self.stops(Task::Evict(page_id, purpose), Step::WriteCached(page_id))
            } else {
                self.evict(index).proceed(purpose)
            }
        }
    }

    /// Goes on where there is space for a page.
    pub open spec fn proceed(self, purpose: Purpose) -> Outcome {
        match purpose {
            Purpose::Pin(page_id) => match self.disk.header.access_fault(page_id) {
                Some(error) => self.fails(BufferPoolError::Disk(Box::new(error))),
                None => self.stops(Task::Load(page_id), Step::Read(page_id)),
            },
            Purpose::Allocate => match disk::allocation_fault(self.disk) {
                Some(error) => self.fails(BufferPoolError::Disk(Box::new(error))),
                None => self.stops(
                    Task::Extend,
                    Step::Write(PageId(self.disk.header.next_page_id), disk::zero_page()),
                ),
            },
        }
    }

    /// Writes a cached page to the file if it is dirty.
    pub open spec fn flush_page(self, page_id: PageId) -> Outcome {
        if !self.has_frame(page_id) {
            self.fails(BufferPoolError::PageNotCached(page_id))
        } else {
            let frame = self.frame(page_id);
            if frame.borrow != Borrow::Free {
                self.fails(BufferPoolError::PageBorrowed(page_id))
            } else if frame.dirty {
                self.stops(Task::Flush(page_id), Step::WriteCached(page_id))
            } else {
                self.stops(Task::Idle, Step::Done)
            }
        }
    }

    /// Writes the dirty pages from frame `position` on to the file, and then
    /// synchronizes it if `sync` says so.
    pub open spec fn flush_from(self, position: int, sync: bool) -> Outcome
        decreases self.frames.len() - position,
    {
        if position >= self.frames.len() {
            if sync {
                self.stops(Task::Sync, Step::Sync)
            } else {
                self.stops(Task::Idle, Step::Done)
            }
        } else {
            let frame = self.frames[position];
            if frame.borrow != Borrow::Free {
                self.fails(BufferPoolError::PageBorrowed(frame.page_id))
            } else if frame.dirty {
                self.stops(
                    Task::FlushAll(position as usize, sync),
                    Step::WriteCached(frame.page_id),
                )
            } else {
                self.flush_from(position + 1, sync)
            }
        }
    }

    /// Sets the catalog root and writes the header.
    pub open spec fn set_root(self, page_id: PageId) -> Outcome {
        match disk::root_fault(self.disk, page_id) {
            Some(error) => self.fails(BufferPoolError::Disk(Box::new(error))),
            None => {
                let header = disk_format::Header {
                    catalog_root: Some(page_id),
                    ..self.disk.header
                };
                PoolState { disk: Disk { header, ..self.disk }, ..self }.stops(
                    Task::Root,
                    Step::Write(
                        PageId(disk_format::DATABASE_HEADER_PAGE_ID),
                        header.encoded(),
                    ),
                )
            },
        }
    }

    /// With a page marked clean.
    pub open spec fn cleaned(self, page_id: PageId) -> PoolState {
        self.with_frame(page_id, FrameState { dirty: false, ..self.frame(page_id) })
    }

    /// Goes on after the write that was asked for.
    pub open spec fn written(self) -> Outcome {
        match self.task {
            Task::Evict(page_id, purpose) => {
                self.count_write().evict(index_of(self.frames, page_id)).proceed(purpose)
            },
            Task::Extend => {
                let disk = disk::after_allocation(self.disk);
                PoolState { disk, ..self }.stops(
                    Task::Advance,
                    Step::Write(
                        PageId(disk_format::DATABASE_HEADER_PAGE_ID),
                        disk.header.encoded(),
                    ),
                )
            },
            Task::Advance => self.tick().install(self.newest(), disk::zero_page()).stops(
                Task::Idle,
                Step::Pinned(self.newest()),
            ),
            Task::Flush(page_id) => self.cleaned(page_id).count_write().stops(
                Task::Idle,
                Step::Done,
            ),
            Task::FlushAll(position, sync) => self.with_task(Task::Idle).cleaned(
                self.frames[position as int].page_id,
            ).count_write().flush_from(position + 1, sync),
            _ => self.stops(Task::Idle, Step::Done),
        }
    }

    /// Goes on after the page that was asked for was read.
    pub open spec fn loaded(self, bytes: Seq<u8>) -> Outcome {
        match self.task {
            Task::Load(page_id) => self.install(page_id, bytes).stops(
                Task::Idle,
                Step::Pinned(page_id),
            ),
            _ => self.stops(Task::Idle, Step::Done),
        }
    }

    /// The loan of a page after one more reader.
    pub open spec fn read_borrow(self, page_id: PageId) -> Borrow {
        match self.frame(page_id).borrow {
            Borrow::Read(readers) => Borrow::Read((readers + 1) as u32),
            _ => Borrow::Read(1),
        }
    }

    /// The loan of a page after one reader less.
    pub open spec fn released_borrow(self, page_id: PageId) -> Borrow {
        match self.frame(page_id).borrow {
            Borrow::Read(readers) if readers > 1 => Borrow::Read((readers - 1) as u32),
            _ => Borrow::Free,
        }
    }

    /// Whether the pool waits for a write.
    pub open spec fn awaits_write(self) -> bool {
        match self.task {
            Task::Idle | Task::Load(_) | Task::Sync => false,
            _ => true,
        }
    }

    /// Whether the pool can be told that this step was done.
    pub open spec fn expects(self, step: Step) -> bool {
        match step {
            Step::Done => self.task is Idle,
            Step::Pinned(page_id) => self.task is Idle && self.can_visit(page_id),
            Step::WriteCached(page_id) => self.awaits_write() && self.has_frame(page_id),
            Step::Write(_, _) => self.awaits_write(),
            Step::Read(_) => self.task is Load,
            Step::Sync => self.task is Sync,
        }
    }

    /// How many times at most the stopped operation needs the file yet.
    pub open spec fn steps_left(self) -> int {
        match self.task {
            Task::Idle => 0,
            Task::Evict(_, Purpose::Allocate) => 3,
            Task::Evict(_, Purpose::Pin(_)) | Task::Extend => 2,
            Task::FlushAll(position, _) => self.frames.len() - position + 1,
            _ => 1,
        }
    }

    /// Why a pinned page cannot be borrowed for reading; `None` where it can.
    pub open spec fn read_fault(self, page_id: PageId) -> Option<BufferPoolError> {
        let borrow = self.frame(page_id).borrow;
        if borrow is Write || borrow == Borrow::Read(u32::MAX) {
            Some(BufferPoolError::PageBorrowed(page_id))
        } else {
            None
        }
    }

    /// Why a pinned page cannot be borrowed for writing; `None` where it can.
    pub open spec fn write_fault(self, page_id: PageId) -> Option<BufferPoolError> {
        if !self.frame(page_id).writable {
            Some(BufferPoolError::ReadOnly)
        } else if self.frame(page_id).borrow != Borrow::Free {
            Some(BufferPoolError::PageBorrowed(page_id))
        } else {
            None
        }
    }

    pub open spec fn with_borrow(self, page_id: PageId, borrow: Borrow) -> PoolState {
        self.with_frame(page_id, FrameState { borrow, ..self.frame(page_id) }).with_task(Task::Idle)
    }

    /// With other contents for a cached page.
    pub open spec fn with_contents(self, page_id: PageId, bytes: Seq<u8>, dirty: bool) -> PoolState {
        self.with_frame(page_id, FrameState { bytes, dirty, ..self.frame(page_id) })
    }

    /// Whether the holder of a pin on a page, who does not borrow it, may visit it
    /// and give the pin back.
    pub open spec fn can_visit(self, page_id: PageId) -> bool {
        &&& self.pinned(page_id)
        &&& self.frame(page_id).pins > 1 || self.frame(page_id).borrow == Borrow::Free
    }

    /// After a visit that left these contents in a page and gave the pin back.
    pub open spec fn visited(self, page_id: PageId, bytes: Seq<u8>, dirty: bool) -> PoolState {
        self.with_contents(page_id, bytes, dirty).unpin(page_id)
    }

    /// With one pin less on a page.
    pub open spec fn unpin(self, page_id: PageId) -> PoolState {
        let frame = self.frame(page_id);
        self.with_frame(page_id, FrameState { pins: (frame.pins - 1) as u32, ..frame }).with_task(
            Task::Idle,
        )
    }
}

/// A pool stays well formed when a page that is borrowed for writing changes.
pub proof fn lemma_contents_keep_wf(
    state: PoolState,
    page_id: PageId,
    bytes: Seq<u8>,
    dirty: bool,
)
    requires
        state.wf(),
        state.has_frame(page_id),
        state.frame(page_id).borrow is Write,
        bytes.len() == PAGE_SIZE,
    ensures
        state.with_contents(page_id, bytes, dirty).wf(),
{
    let index = index_of(state.frames, page_id);
    let after = state.with_contents(page_id, bytes, dirty);
    assert(state.frames[index].wf(state.disk, state.clock));
    assert forall|other: PageId| cached(after.frames, other) == cached(state.frames, other) by {
        if cached(state.frames, other) {
            let i = index_of(state.frames, other);
            assert(after.frames[i].page_id == other);
        }
        if cached(after.frames, other) {
            let i = index_of(after.frames, other);
            assert(state.frames[i].page_id == other);
        }
    }
    assert(forall|i: int|
        0 <= i < after.frames.len() ==> (#[trigger] after.frames[i]).page_id
            == state.frames[i].page_id);
    assert(forall|other: PageId|
        cached(state.frames, other) ==> #[trigger] index_of(after.frames, other) == index_of(
            state.frames,
            other,
        ));
}

/// Replacing a frame by one of the same page leaves every page where it is.
pub proof fn lemma_same_places(frames: Seq<FrameState>, page_id: PageId, frame: FrameState)
    requires
        distinct(frames),
        cached(frames, page_id),
        frame.page_id == page_id,
    ensures
        ({
            let after = frames.update(index_of(frames, page_id), frame);
            &&& distinct(after)
            &&& forall|other: PageId| #[trigger] cached(after, other) == cached(frames, other)
            &&& forall|other: PageId|
                cached(frames, other) ==> #[trigger] index_of(after, other) == index_of(
                    frames,
                    other,
                )
        }),
{
    let index = index_of(frames, page_id);
    let after = frames.update(index, frame);
    assert forall|other: PageId| #[trigger] cached(after, other) == cached(frames, other) by {
        if cached(frames, other) {
            let i = index_of(frames, other);
            assert(after[i].page_id == other);
        }
        if cached(after, other) {
            let i = index_of(after, other);
            assert(frames[i].page_id == other);
        }
    }
    assert forall|other: PageId| cached(frames, other) implies #[trigger] index_of(after, other)
        == index_of(frames, other) by {
        assert(cached(after, other));
        let i = index_of(frames, other);
        let j = index_of(after, other);
        assert(after[i].page_id == other);
        assert(frames[j].page_id == other);
    }
}

/// Borrowing a page for writing, changing it, and giving loan and pin back is a
/// visit.
pub proof fn lemma_write_visit(state: PoolState, page_id: PageId, bytes: Seq<u8>, dirty: bool)
    requires
        state.wf(),
        state.pinned(page_id),
        state.frame(page_id).borrow == Borrow::Free,
    ensures
        ({
            let borrowed = state.with_borrow(page_id, Borrow::Write);
            let changed = borrowed.with_contents(page_id, bytes, dirty);
            let released = changed.with_borrow(page_id, Borrow::Free);
            &&& borrowed.pinned(page_id)
            &&& borrowed.frame(page_id) == (FrameState {
                borrow: Borrow::Write,
                ..state.frame(page_id)
            })
            &&& changed.pinned(page_id)
            &&& changed.frame(page_id).borrow == Borrow::Write
            &&& released.pinned(page_id)
            &&& released.frame(page_id).borrow == Borrow::Free
            &&& released.unpin(page_id) == state.visited(page_id, bytes, dirty)
            &&& released.unpin(page_id).frame(page_id).bytes == bytes
            &&& released.unpin(page_id).frame(page_id).dirty == dirty
        }),
{
    let frame = state.frame(page_id);
    let borrowed = FrameState { borrow: Borrow::Write, ..frame };
    let changed = FrameState { bytes, dirty, ..borrowed };
    let released = FrameState { borrow: Borrow::Free, ..changed };
    let unpinned = FrameState { pins: (frame.pins - 1) as u32, ..released };
    let first = state.with_borrow(page_id, Borrow::Write);
    let second = first.with_contents(page_id, bytes, dirty);
    let third = second.with_borrow(page_id, Borrow::Free);
    lemma_same_places(state.frames, page_id, borrowed);
    lemma_same_places(first.frames, page_id, changed);
    lemma_same_places(second.frames, page_id, released);
    lemma_same_places(third.frames, page_id, unpinned);
    let direct = state.with_contents(page_id, bytes, dirty);
    lemma_same_places(state.frames, page_id, FrameState { bytes, dirty, ..frame });
    assert(third.unpin(page_id).frames =~= direct.unpin(page_id).frames);
}

/// Borrowing a page for reading, and giving loan and pin back, gives back the pin.
pub proof fn lemma_read_visit(state: PoolState, page_id: PageId)
    requires
        state.wf(),
        state.can_visit(page_id),
        state.read_fault(page_id) is None,
    ensures
        ({
            let borrowed = state.with_borrow(page_id, state.read_borrow(page_id));
            let released = borrowed.with_borrow(page_id, borrowed.released_borrow(page_id));
            &&& borrowed.pinned(page_id)
            &&& borrowed.frame(page_id) == (FrameState {
                borrow: state.read_borrow(page_id),
                ..state.frame(page_id)
            })
            &&& released.can_visit(page_id)
            &&& released.unpin(page_id) == state.unpin(page_id)
        }),
{
    let frame = state.frame(page_id);
    let index = index_of(state.frames, page_id);
    assert(state.frames[index].wf(state.disk, state.clock));
    let borrowed = FrameState { borrow: state.read_borrow(page_id), ..frame };
    let first = state.with_borrow(page_id, state.read_borrow(page_id));
    lemma_same_places(state.frames, page_id, borrowed);
    let released = FrameState { borrow: first.released_borrow(page_id), ..borrowed };
    let second = first.with_borrow(page_id, first.released_borrow(page_id));
    lemma_same_places(first.frames, page_id, released);
    assert(released == frame);
    assert(second.frames =~= state.frames);
}

} // verus!
