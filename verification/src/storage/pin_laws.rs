//! When pages can be pinned, allocated and borrowed, and which pages leave the pool
//! for them.

use vstd::prelude::*;

use super::buffer_pool::{Borrow, BufferPoolError, BufferPoolStats, Purpose, Task};
use super::disk::{self, Disk, DiskManagerError};
use super::disk_format::Header;
use super::pool_laws;
use super::pool_model::{self, FrameState, Outcome, PoolState, Step};
use super::PageId;

verus! {

/// Whether the pool has space for a page, or has a page that nobody pins.
pub open spec fn has_room(state: PoolState) -> bool {
    ||| state.frames.len() < state.capacity
    ||| exists|i: int| 0 <= i < state.frames.len() && (#[trigger] state.frames[i]).pins == 0
}

/// Whether two frames are the same but for the time of their last use.
pub open spec fn same_but_for_use(one: FrameState, other: FrameState) -> bool {
    &&& one.page_id == other.page_id
    &&& one.bytes == other.bytes
    &&& one.dirty == other.dirty
    &&& one.pins == other.pins
    &&& one.borrow == other.borrow
    &&& one.writable == other.writable
}

/// Whether all pages are cached as they were, apart from the times of their uses.
pub open spec fn same_pages(before: PoolState, after: PoolState) -> bool {
    &&& after.frames.len() == before.frames.len()
    &&& forall|i: int|
        0 <= i < before.frames.len() ==> same_but_for_use(
            before.frames[i],
            #[trigger] after.frames[i],
        )
}

/// Whether the page of frame `index`, which nobody pinned and which was not used since
/// any other page was that nobody pins, left a full pool, and all others stayed.
pub open spec fn left(before: PoolState, after: PoolState, index: int) -> bool {
    &&& 0 <= index < before.frames.len()
    &&& before.frames.len() == before.capacity
    &&& is_least_recently_used(before, index)
    &&& after.frames.len() == before.frames.len() - 1
    &&& forall|j: int|
        0 <= j < after.frames.len() ==> same_but_for_use(
            before.frames[if j < index {
                j
            } else {
                j + 1
            }],
            #[trigger] after.frames[j],
        )
}

/// Whether nobody pins the page of frame `index`, and no other such page was used
/// longer ago. When the clock is exhausted, all uses count as equally old.
pub open spec fn is_least_recently_used(state: PoolState, index: int) -> bool {
    &&& state.frames[index].pins == 0
    &&& state.clock < u64::MAX ==> forall|j: int|
        0 <= j < state.frames.len() && (#[trigger] state.frames[j]).pins == 0
            ==> state.frames[index].last_used <= state.frames[j].last_used
}

/// Pinning a cached page counts one pin more, up to the limit, and changes no other
/// page.
pub proof fn cached_pages_are_pinned(state: PoolState, index: int)
    requires
        state.wf(),
        0 <= index < state.frames.len(),
    ensures
        ({
            let page_id = state.frames[index].page_id;
            let outcome = state.pin(page_id);
            let after = outcome.state;
            &&& after.frames.len() == state.frames.len()
            &&& after.disk == state.disk
            &&& after.capacity == state.capacity
            &&& forall|j: int|
                0 <= j < state.frames.len() && j != index ==> same_but_for_use(
                    state.frames[j],
                    #[trigger] after.frames[j],
                )
            &&& if state.frames[index].pins == u32::MAX {
                &&& outcome.result == Err::<Step, BufferPoolError>(
                    BufferPoolError::PinCountExhausted(page_id),
                )
                &&& same_but_for_use(state.frames[index], after.frames[index])
            } else {
                &&& outcome.result == Ok::<Step, BufferPoolError>(Step::Pinned(page_id))
                &&& after.frames[index].pins == state.frames[index].pins + 1
                &&& same_but_for_use(
                    FrameState { pins: after.frames[index].pins, ..state.frames[index] },
                    after.frames[index],
                )
            }
        }),
{
    let page_id = state.frames[index].page_id;
    let ticked = state.tick();
    assert(ticked.frames[index].page_id == page_id);
    assert(ticked.has_frame(page_id));
    let found = pool_model::index_of(ticked.frames, page_id);
    assert(state.frames[found].page_id == page_id);
    assert(found == index);
}

/// Whether an operation that needs space for a page got it, or is getting it: it goes
/// on with `step`, with space for a page; or it writes a page first, after which it
/// does.
pub open spec fn makes_room(state: PoolState, outcome: Outcome, step: Step) -> bool {
    match outcome.result {
        Ok(Step::WriteCached(page_id)) => {
            let next = outcome.state.written();
            &&& same_pages(state, outcome.state)
            &&& exists|index: int| #[trigger]
                left(state, next.state, index) && state.frames[index].page_id == page_id
                    && state.frames[index].dirty
            &&& next.result == Ok::<Step, BufferPoolError>(step)
        },
        Ok(found) => {
            &&& found == step
            &&& state.frames.len() < state.capacity ==> same_pages(state, outcome.state)
            &&& state.frames.len() == state.capacity ==> exists|index: int| #[trigger]
                left(state, outcome.state, index) && !state.frames[index].dirty
        },
        Err(_) => false,
    }
}

/// An allocated page that is not cached is read from the file, where the pool has
/// space or a page that nobody pins; a dirty one is written first, and only a page
/// that was least recently used leaves.
pub proof fn allocated_pages_are_read(state: PoolState, page_id: PageId)
    requires
        state.wf(),
        1 <= page_id.0 < state.disk.header.next_page_id,
        forall|i: int|
            0 <= i < state.frames.len() ==> (#[trigger] state.frames[i]).page_id != page_id,
        has_room(state),
    ensures
        makes_room(state, state.pin(page_id), Step::Read(page_id)),
{
    let ticked = state.tick();
    let missed = ticked.count_miss();
    assert(!ticked.has_frame(page_id)) by {
        if ticked.has_frame(page_id) {
            let i = pool_model::index_of(ticked.frames, page_id);
            assert(state.frames[i].page_id == page_id);
        }
    }
    lemma_tick(state);
    lemma_claim(state, missed, Purpose::Pin(page_id));
}

/// A page is allocated where the file may change, a page number is left, and the pool
/// has space or a page that nobody pins: a zeroed page is written behind the others.
pub proof fn new_pages_are_written(state: PoolState)
    requires
        state.wf(),
        !state.disk.read_only,
        state.disk.header.next_page_id < u32::MAX,
        has_room(state),
    ensures
        makes_room(
            state,
            state.allocate(),
            Step::Write(PageId(state.disk.header.next_page_id), Seq::new(8192, |i: int| 0u8)),
        ),
{
    assert(disk::zero_page() =~= Seq::new(8192, |i: int| 0u8));
    lemma_claim(state, state, Purpose::Allocate);
}

proof fn lemma_tick(state: PoolState)
    requires
        state.wf(),
    ensures
        same_pages(state, state.tick()),
        state.clock < u64::MAX ==> state.tick().frames == state.frames,
{
}

/// What comes of the need for space, in a state with the same pages.
proof fn lemma_claim(state: PoolState, ready: PoolState, purpose: Purpose)
    requires
        state.wf(),
        has_room(state),
        same_pages(state, ready),
        state.clock < u64::MAX ==> ready.frames == state.frames,
        ready.disk == state.disk,
        ready.capacity == state.capacity,
        match purpose {
            Purpose::Pin(page_id) => 1 <= page_id.0 < state.disk.header.next_page_id,
            Purpose::Allocate => !state.disk.read_only && state.disk.header.next_page_id
                < u32::MAX,
        },
    ensures
        makes_room(
            state,
            ready.claim(purpose),
            match purpose {
                Purpose::Pin(page_id) => Step::Read(page_id),
                Purpose::Allocate => Step::Write(
                    PageId(state.disk.header.next_page_id),
                    disk::zero_page(),
                ),
            },
        ),
{
    let outcome = ready.claim(purpose);
    if ready.frames.len() == ready.capacity {
        let free = choose|i: int| 0 <= i < state.frames.len() && (#[trigger] state.frames[i]).pins == 0;
        assert(ready.frames[free].pins == 0);
        assert(!pool_model::all_pinned(ready.frames));
        pool_laws::lemma_has_victim(ready.frames, ready.frames.len() as int);
        let index = pool_model::victim(ready.frames);
        assert(same_but_for_use(state.frames[index], ready.frames[index]));
        assert(is_least_recently_used(state, index));
        let page_id = ready.frames[index].page_id;
        assert(state.frames[index].wf(state.disk, state.clock));
        if ready.frames[index].dirty {
            let stopped = outcome.state;
            let place = pool_model::index_of(stopped.frames, page_id);
            assert(stopped.frames[index].page_id == page_id);
            assert(stopped.frames[place].page_id == page_id);
            assert(same_but_for_use(state.frames[place], ready.frames[place]));
            assert(place == index);
            lemma_left(state, ready, stopped.written().state, index);
            assert(left(state, stopped.written().state, index));
        } else {
            lemma_left(state, ready, outcome.state, index);
            assert(left(state, outcome.state, index));
        }
    }
}

proof fn lemma_left(state: PoolState, ready: PoolState, after: PoolState, index: int)
    requires
        same_pages(state, ready),
        state.frames.len() == state.capacity,
        0 <= index < state.frames.len(),
        is_least_recently_used(state, index),
        after.frames == ready.frames.remove(index),
    ensures
        left(state, after, index),
{
    assert forall|j: int| 0 <= j < after.frames.len() implies same_but_for_use(
        state.frames[if j < index {
            j
        } else {
            j + 1
        }],
        #[trigger] after.frames[j],
    ) by {
        let before = if j < index {
            j
        } else {
            j + 1
        };
        assert(same_but_for_use(state.frames[before], ready.frames[before]));
    }
}

/// Where every frame is in use and somebody pins each of the pages, no other page can
/// be pinned or allocated, and all stay.
pub proof fn pinned_pages_stay(state: PoolState, page_id: PageId)
    requires
        state.wf(),
        !has_room(state),
        forall|i: int|
            0 <= i < state.frames.len() ==> (#[trigger] state.frames[i]).page_id != page_id,
    ensures
        state.pin(page_id).result == Err::<Step, BufferPoolError>(BufferPoolError::AllFramesPinned),
        same_pages(state, state.pin(page_id).state),
        !state.disk.read_only ==> state.allocate().result == Err::<Step, BufferPoolError>(
            BufferPoolError::AllFramesPinned,
        ),
        same_pages(state, state.allocate().state),
{
    let ticked = state.tick();
    lemma_tick(state);
    assert(!ticked.has_frame(page_id)) by {
        if ticked.has_frame(page_id) {
            let i = pool_model::index_of(ticked.frames, page_id);
            assert(state.frames[i].page_id == page_id);
        }
    }
    assert forall|i: int| 0 <= i < ticked.frames.len() implies (
    #[trigger] ticked.frames[i]).pins > 0 by {
        assert(state.frames[i].pins != 0);
    }
}

/// A page that was never allocated cannot be pinned: the header page is refused as
/// reserved, every other page as not allocated.
pub proof fn pages_that_are_not_there_are_refused(state: PoolState, page_id: PageId)
    requires
        state.wf(),
        state.frames.len() < state.capacity,
        page_id.0 == 0 || page_id.0 >= state.disk.header.next_page_id,
    ensures
        state.pin(page_id).result == Err::<Step, BufferPoolError>(
            BufferPoolError::Disk(
                Box::new(
                    if page_id.0 == 0 {
                        DiskManagerError::HeaderPageIsReserved
                    } else {
                        DiskManagerError::PageNotAllocated(page_id)
                    },
                ),
            ),
        ),
        same_pages(state, state.pin(page_id).state),
{
    let ticked = state.tick();
    lemma_tick(state);
    assert(!ticked.has_frame(page_id)) by {
        if ticked.has_frame(page_id) {
            let i = pool_model::index_of(ticked.frames, page_id);
            assert(state.frames[i].wf(state.disk, state.clock));
        }
    }
}

/// A read-only file does not grow, and a file with all page numbers in use does not.
pub proof fn files_that_cannot_grow_are_refused(state: PoolState)
    requires
        state.wf(),
    ensures
        state.disk.read_only ==> state.allocate().result == Err::<Step, BufferPoolError>(
            BufferPoolError::ReadOnly,
        ),
        !state.disk.read_only && state.disk.header.next_page_id == u32::MAX && has_room(state)
            && !(state.allocate().result matches Ok(Step::WriteCached(_)))
            ==> state.allocate().result == Err::<Step, BufferPoolError>(
            BufferPoolError::Disk(Box::new(DiskManagerError::PageIdExhausted)),
        ),
{
    if !state.disk.read_only && has_room(state) && state.frames.len() == state.capacity {
        let free = choose|i: int| 0 <= i < state.frames.len() && (#[trigger] state.frames[i]).pins == 0;
        assert(state.frames[free].pins == 0);
    }
}

/// A page that was read is one page more, pinned once, clean and as it was read; the
/// others stay as they are.
pub proof fn read_pages_are_installed(state: PoolState, page_id: PageId, bytes: Seq<u8>)
    requires
        state.wf(),
        state.task == Task::Load(page_id),
    ensures
        ({
            let outcome = state.loaded(bytes);
            let last = state.frames.len() as int;
            &&& outcome.result == Ok::<Step, BufferPoolError>(Step::Pinned(page_id))
            &&& outcome.state.disk == state.disk
            &&& outcome.state.capacity == state.capacity
            &&& outcome.state.stats == state.stats
            &&& outcome.state.frames.len() == last + 1
            &&& outcome.state.frames.take(last) == state.frames
            &&& same_but_for_use(
                outcome.state.frames[last],
                FrameState {
                    page_id,
                    bytes,
                    dirty: false,
                    pins: 1,
                    borrow: Borrow::Free,
                    last_used: 0,
                    writable: !state.disk.read_only,
                },
            )
        }),
{
    assert(state.loaded(bytes).state.frames.take(state.frames.len() as int) =~= state.frames);
}

/// After the zeroed page was written, the header counts it and is written too; after
/// that the page is one page more, pinned once, clean and full of zeros, and the
/// others stay as they are.
pub proof fn new_pages_are_installed(state: PoolState)
    requires
        state.wf(),
        state.task is Extend,
    ensures
        ({
            let page_id = PageId(state.disk.header.next_page_id);
            let grown = Disk {
                header: Header {
                    next_page_id: (state.disk.header.next_page_id + 1) as u32,
                    ..state.disk.header
                },
                ..state.disk
            };
            let middle = state.written();
            let end = middle.state.written();
            let last = state.frames.len() as int;
            &&& state.disk.header.next_page_id < u32::MAX
            &&& middle.result == Ok::<Step, BufferPoolError>(
                Step::Write(PageId(0), grown.header.encoded()),
            )
            &&& middle.state.disk == grown
            &&& middle.state.frames == state.frames
            &&& end.result == Ok::<Step, BufferPoolError>(Step::Pinned(page_id))
            &&& end.state.disk == grown
            &&& end.state.capacity == state.capacity
            &&& end.state.frames.len() == last + 1
            &&& forall|i: int|
                0 <= i < last ==> same_but_for_use(
                    state.frames[i],
                    #[trigger] end.state.frames[i],
                )
            &&& same_but_for_use(
                end.state.frames[last],
                FrameState {
                    page_id,
                    bytes: Seq::new(8192, |i: int| 0u8),
                    dirty: false,
                    pins: 1,
                    borrow: Borrow::Free,
                    last_used: 0,
                    writable: true,
                },
            )
        }),
{
    assert(disk::zero_page() =~= Seq::new(8192, |i: int| 0u8));
}

/// Giving a pin back takes one pin from that page and changes nothing else.
pub proof fn pins_are_given_back(state: PoolState, index: int)
    requires
        state.wf(),
        0 <= index < state.frames.len(),
        state.frames[index].pins > 0,
    ensures
        ({
            let after = state.unpin(state.frames[index].page_id);
            &&& after.frames.len() == state.frames.len()
            &&& after.disk == state.disk
            &&& after.capacity == state.capacity
            &&& after.clock == state.clock
            &&& after.stats == state.stats
            &&& forall|j: int|
                0 <= j < state.frames.len() && j != index ==> #[trigger] after.frames[j]
                    == state.frames[j]
            &&& after.frames[index].pins == state.frames[index].pins - 1
            &&& after.frames[index] == (FrameState {
                pins: after.frames[index].pins,
                ..state.frames[index]
            })
        }),
{
    assert(pool_model::index_of(state.frames, state.frames[index].page_id) == index);
}

/// The number of readers of a page.
pub open spec fn readers(frame: FrameState) -> int {
    match frame.borrow {
        Borrow::Read(count) => count as int,
        _ => 0,
    }
}

/// Readers share a page, up to the limit, but not with a writer. A writer has it alone,
/// and only where the file may change.
pub proof fn readers_share_and_writers_do_not(state: PoolState, index: int)
    requires
        state.wf(),
        0 <= index < state.frames.len(),
    ensures
        ({
            let frame = state.frames[index];
            let borrowed = BufferPoolError::PageBorrowed(frame.page_id);
            &&& state.read_fault(frame.page_id) is None <==> !(frame.borrow is Write) && readers(
                frame,
            ) < u32::MAX
            &&& state.write_fault(frame.page_id) is None <==> !state.disk.read_only && !(
            frame.borrow is Write) && readers(frame) == 0
            &&& state.read_fault(frame.page_id) matches Some(error) ==> error == borrowed
            &&& state.write_fault(frame.page_id) matches Some(error) ==> error == if state.disk.read_only {
                BufferPoolError::ReadOnly
            } else {
                borrowed
            }
        }),
{
    assert(pool_model::index_of(state.frames, state.frames[index].page_id) == index);
    assert(state.frames[index].wf(state.disk, state.clock));
}

/// Borrowing a page for reading counts one reader more, and giving it back one less;
/// the page is free when the last reader gave it back. Nothing else changes.
pub proof fn readers_are_counted(state: PoolState, index: int)
    requires
        state.wf(),
        0 <= index < state.frames.len(),
    ensures
        ({
            let frame = state.frames[index];
            let page_id = frame.page_id;
            let more = state.with_borrow(page_id, state.read_borrow(page_id));
            let fewer = state.with_borrow(page_id, state.released_borrow(page_id));
            &&& state.read_fault(page_id) is None ==> {
                &&& readers(more.frames[index]) == readers(frame) + 1
                &&& same_but_for_loan(state, more, index)
            }
            &&& frame.borrow is Read ==> {
                &&& readers(fewer.frames[index]) == readers(frame) - 1
                &&& readers(frame) == 1 <==> fewer.frames[index].borrow == Borrow::Free
                &&& same_but_for_loan(state, fewer, index)
            }
        }),
{
    assert(pool_model::index_of(state.frames, state.frames[index].page_id) == index);
    assert(state.frames[index].wf(state.disk, state.clock));
}

/// Whether nothing changed but the loan of a page.
pub open spec fn same_but_for_loan(before: PoolState, after: PoolState, index: int) -> bool {
    &&& after.frames.len() == before.frames.len()
    &&& after.disk == before.disk
    &&& after.capacity == before.capacity
    &&& after.clock == before.clock
    &&& after.stats == before.stats
    &&& forall|j: int|
        0 <= j < before.frames.len() && j != index ==> #[trigger] after.frames[j]
            == before.frames[j]
    &&& after.frames[index] == (FrameState {
        borrow: after.frames[index].borrow,
        ..before.frames[index]
    })
}

/// The loan of a page is set, and nothing else changes.
pub proof fn loans_change_nothing_else(state: PoolState, index: int, borrow: Borrow)
    requires
        state.wf(),
        0 <= index < state.frames.len(),
    ensures
        ({
            let after = state.with_borrow(state.frames[index].page_id, borrow);
            after.frames[index].borrow == borrow && same_but_for_loan(state, after, index)
        }),
{
    assert(pool_model::index_of(state.frames, state.frames[index].page_id) == index);
}

/// A counter after one more event; it stops at its limit.
pub open spec fn counted(before: u64, after: u64) -> bool {
    after == before + 1 || (before == 0xffff_ffff_ffff_ffff && after == before)
}

/// Pinning counts a hit where the page is cached and a miss where it is not.
pub proof fn hits_and_misses_are_counted(state: PoolState, page_id: PageId)
    requires
        state.wf(),
    ensures
        ({
            let after = state.pin(page_id).state.stats;
            let hit = exists|i: int|
                0 <= i < state.frames.len() && (#[trigger] state.frames[i]).page_id == page_id;
            &&& if hit {
                counted(state.stats.hits, after.hits) && after.misses == state.stats.misses
            } else {
                counted(state.stats.misses, after.misses) && after.hits == state.stats.hits
            }
            &&& after.disk_writes == state.stats.disk_writes
            &&& if state.pin(page_id).state.frames.len() < state.frames.len() {
                counted(state.stats.evictions, after.evictions)
            } else {
                after.evictions == state.stats.evictions
            }
        }),
{
    let ticked = state.tick();
    lemma_tick(state);
    if ticked.has_frame(page_id) {
        let i = pool_model::index_of(ticked.frames, page_id);
        assert(state.frames[i].page_id == page_id);
    }
    if exists|i: int| 0 <= i < state.frames.len() && (#[trigger] state.frames[i]).page_id == page_id {
        let i = choose|i: int|
            0 <= i < state.frames.len() && (#[trigger] state.frames[i]).page_id == page_id;
        assert(ticked.frames[i].page_id == page_id);
    } else {
        lemma_claim_counts(ticked.count_miss(), Purpose::Pin(page_id));
    }
}

/// An allocation counts the page that leaves for it, and nothing else.
pub proof fn allocations_count_evictions(state: PoolState)
    requires
        state.wf(),
    ensures
        ({
            let after = state.allocate().state;
            &&& after.stats == (BufferPoolStats {
                evictions: after.stats.evictions,
                ..state.stats
            })
            &&& if after.frames.len() < state.frames.len() {
                counted(state.stats.evictions, after.stats.evictions)
            } else {
                after.stats.evictions == state.stats.evictions
            }
        }),
{
    if !state.disk.read_only {
        lemma_claim_counts(state, Purpose::Allocate);
    }
}

proof fn lemma_claim_counts(state: PoolState, purpose: Purpose)
    requires
        0 < state.capacity,
    ensures
        ({
            let after = state.claim(purpose).state;
            &&& after.stats == (BufferPoolStats {
                evictions: after.stats.evictions,
                ..state.stats
            })
            &&& if after.frames.len() < state.frames.len() {
                counted(state.stats.evictions, after.stats.evictions)
            } else {
                after.stats.evictions == state.stats.evictions
            }
        }),
{
    if state.frames.len() >= state.capacity && !pool_model::all_pinned(state.frames) {
        pool_laws::lemma_has_victim(state.frames, state.frames.len() as int);
    }
}

/// Going on after a write counts it where a cached page was written, and counts the
/// page that left after it.
pub proof fn writes_are_counted(state: PoolState)
    requires
        state.wf(),
        state.awaits_write(),
    ensures
        ({
            let after = state.written().state.stats;
            let cached_page = match state.task {
                Task::Evict(_, _) | Task::Flush(_) | Task::FlushAll(_, _) => true,
                _ => false,
            };
            &&& after.hits == state.stats.hits
            &&& after.misses == state.stats.misses
            &&& if cached_page {
                counted(state.stats.disk_writes, after.disk_writes)
            } else {
                after.disk_writes == state.stats.disk_writes
            }
            &&& if state.task is Evict {
                counted(state.stats.evictions, after.evictions)
            } else {
                after.evictions == state.stats.evictions
            }
        }),
{
    match state.task {
        Task::FlushAll(position, sync) => {
            let next = state.with_task(Task::Idle).cleaned(
                state.frames[position as int].page_id,
            ).count_write();
            lemma_flush_counts(next, position + 1, sync);
        },
        _ => {},
    }
}

proof fn lemma_flush_counts(state: PoolState, position: int, sync: bool)
    ensures
        state.flush_from(position, sync).state.stats == state.stats,
    decreases state.frames.len() - position,
{
    if position < state.frames.len() {
        lemma_flush_counts(state, position + 1, sync);
    }
}

/// The catalog root is set where the file may change, the page is allocated and no
/// root is set yet; the header is written, and no page changes.
pub proof fn roots_are_set(state: PoolState, page_id: PageId)
    requires
        state.wf(),
    ensures
        ({
            let outcome = state.set_root(page_id);
            let header = Header { catalog_root: Some(page_id), ..state.disk.header };
            &&& outcome.result is Ok <==> {
                &&& !state.disk.read_only
                &&& 1 <= page_id.0 < state.disk.header.next_page_id
                &&& state.disk.header.catalog_root is None
            }
            &&& outcome.result is Ok ==> {
                &&& outcome.result == Ok::<Step, BufferPoolError>(
                    Step::Write(PageId(0), header.encoded()),
                )
                &&& outcome.state == (PoolState {
                    disk: Disk { header, ..state.disk },
                    task: outcome.state.task,
                    ..state
                })
                &&& outcome.state.written().result == Ok::<Step, BufferPoolError>(Step::Done)
                &&& outcome.state.written().state == (PoolState {
                    task: Task::Idle,
                    ..outcome.state
                })
            }
            &&& outcome.result is Err ==> outcome.state == (PoolState { task: Task::Idle, ..state })
        }),
{
}

/// Whether an operation for which there is space, or is made by writing a page first,
/// ends with this error.
pub open spec fn ends_with(outcome: Outcome, error: BufferPoolError) -> bool {
    match outcome.result {
        Ok(Step::WriteCached(_)) => outcome.state.written().result == Err::<Step, BufferPoolError>(
            error,
        ),
        Ok(_) => false,
        Err(found) => found == error,
    }
}

/// A page that was never allocated is refused in a full pool too, as soon as there is
/// space for it; and so is an allocation for which no page number is left.
pub proof fn full_pools_refuse_the_same_pages(state: PoolState, page_id: PageId)
    requires
        state.wf(),
        has_room(state),
    ensures
        page_id.0 == 0 ==> ends_with(
            state.pin(page_id),
            BufferPoolError::Disk(Box::new(DiskManagerError::HeaderPageIsReserved)),
        ),
        page_id.0 > 0 && page_id.0 >= state.disk.header.next_page_id ==> ends_with(
            state.pin(page_id),
            BufferPoolError::Disk(Box::new(DiskManagerError::PageNotAllocated(page_id))),
        ),
        !state.disk.read_only && state.disk.header.next_page_id == u32::MAX ==> ends_with(
            state.allocate(),
            BufferPoolError::Disk(Box::new(DiskManagerError::PageIdExhausted)),
        ),
{
    let ticked = state.tick();
    lemma_tick(state);
    if page_id.0 == 0 || page_id.0 >= state.disk.header.next_page_id {
        assert(!ticked.has_frame(page_id)) by {
            if ticked.has_frame(page_id) {
                let i = pool_model::index_of(ticked.frames, page_id);
                assert(state.frames[i].wf(state.disk, state.clock));
            }
        }
    }
    if state.frames.len() == state.capacity {
        let free = choose|i: int|
            0 <= i < state.frames.len() && (#[trigger] state.frames[i]).pins == 0;
        assert(state.frames[free].pins == 0);
        assert(ticked.frames[free].pins == 0);
    }
}

} // verus!
