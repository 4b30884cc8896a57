//! What holds of every buffer pool and its database file.
//!
//! The file is a map from pages to their bytes. A write that the pool asks for is
//! done when the pool goes on, and a read gives the bytes of the file.

use vstd::prelude::*;

use super::buffer_pool::{Borrow, BufferPoolError, Purpose, Task};
use super::disk;
use super::disk_format;
use super::pool_model::{self, FrameState, Outcome, PoolState, Step};
use super::PageId;

verus! {

/// Whether the file holds every allocated page, a page that is just being
/// allocated with zeros, and clean pages are cached as they are in the file.
pub open spec fn coherent(state: PoolState, file: Map<PageId, Seq<u8>>) -> bool {
    &&& forall|page_id: PageId|
        state.disk.header.allocated(page_id) ==> #[trigger] file.dom().contains(page_id)
    &&& forall|i: int|
        0 <= i < state.frames.len() && !(#[trigger] state.frames[i]).dirty
            ==> file[state.frames[i].page_id] == state.frames[i].bytes
    &&& state.task is Advance ==> file[state.newest()] == disk::zero_page()
}

/// What a page holds for those who read it through the pool.
pub open spec fn contents(
    state: PoolState,
    file: Map<PageId, Seq<u8>>,
    page_id: PageId,
) -> Seq<u8> {
    if state.has_frame(page_id) {
        state.frame(page_id).bytes
    } else {
        file[page_id]
    }
}

/// The write that the pool waits for.
pub open spec fn pending_write(state: PoolState) -> (PageId, Seq<u8>) {
    match state.task {
        Task::Evict(page_id, _) | Task::Flush(page_id) => (page_id, state.frame(page_id).bytes),
        Task::FlushAll(position, _) => (
            state.frames[position as int].page_id,
            state.frames[position as int].bytes,
        ),
        Task::Extend => (PageId(state.disk.header.next_page_id), disk::zero_page()),
        _ => (PageId(disk_format::DATABASE_HEADER_PAGE_ID), state.disk.header.encoded()),
    }
}

/// The file after the write that the pool waits for.
pub open spec fn file_after_write(state: PoolState, file: Map<PageId, Seq<u8>>) -> Map<
    PageId,
    Seq<u8>,
> {
    file.insert(pending_write(state).0, pending_write(state).1)
}

/// Whether the step that was returned is the one that the new state waits for.
pub open spec fn step_is_pending(outcome: Outcome) -> bool {
    match outcome.result {
        Ok(Step::WriteCached(page_id)) => {
            &&& outcome.state.awaits_write()
            &&& outcome.state.has_frame(page_id)
            &&& pending_write(outcome.state) == (page_id, outcome.state.frame(page_id).bytes)
        },
        Ok(Step::Write(page_id, bytes)) => {
            &&& outcome.state.awaits_write()
            &&& pending_write(outcome.state) == (page_id, bytes)
        },
        Ok(Step::Read(page_id)) => outcome.state.task == Task::Load(page_id),
        Ok(Step::Sync) => outcome.state.task is Sync,
        _ => outcome.state.task is Idle,
    }
}

/// Whether no allocated page changed for those who read it through the pool, and
/// pinned pages stayed cached.
pub open spec fn transparent(
    before: PoolState,
    file: Map<PageId, Seq<u8>>,
    after: PoolState,
    new_file: Map<PageId, Seq<u8>>,
) -> bool {
    &&& coherent(after, new_file)
    &&& before.disk.header.next_page_id <= after.disk.header.next_page_id
    &&& forall|page_id: PageId|
        before.disk.header.allocated(page_id) ==> #[trigger] contents(after, new_file, page_id)
            == contents(before, file, page_id)
    &&& forall|page_id: PageId| #[trigger]
        before.pinned(page_id) ==> after.pinned(page_id)
}

/// Pinning a page changes no page, whether it succeeds or not. On success the page
/// is pinned and is the one that was used last.
pub proof fn pinning_is_transparent(
    state: PoolState,
    file: Map<PageId, Seq<u8>>,
    page_id: PageId,
)
    requires
        state.wf(),
        coherent(state, file),
    ensures
        step_is_pending(state.pin(page_id)),
        transparent(state, file, state.pin(page_id).state, file),
        state.pin(page_id).result matches Ok(Step::Pinned(pinned)) ==> {
            &&& pinned == page_id
            &&& used_last(state.pin(page_id).state, page_id)
        },
{
    let ticked = state.tick();
    lemma_tick(state, file);
    if ticked.has_frame(page_id) {
        let hit = ticked.count_hit();
        let frame = hit.frame(page_id);
        if frame.pins < u32::MAX {
            pool_model::lemma_same_places(
                hit.frames,
                page_id,
                FrameState { pins: (frame.pins + 1) as u32, last_used: hit.clock, ..frame },
            );
        }
        assert(transparent(ticked, file, state.pin(page_id).state, file));
        lemma_chain(state, file, ticked, file, state.pin(page_id).state, file);
    } else {
        let missed = ticked.count_miss();
        lemma_claim(missed, file, Purpose::Pin(page_id));
        assert(transparent(ticked, file, missed, file));
        lemma_chain(state, file, ticked, file, missed, file);
        lemma_chain(state, file, missed, file, state.pin(page_id).state, file);
    }
}

/// Starting an allocation changes no page.
pub proof fn allocating_is_transparent(state: PoolState, file: Map<PageId, Seq<u8>>)
    requires
        state.wf(),
        coherent(state, file),
    ensures
        step_is_pending(state.allocate()),
        transparent(state, file, state.allocate().state, file),
{
    if !state.disk.read_only {
        lemma_claim(state, file, Purpose::Allocate);
    }
}

/// Starting to write pages to the file changes no page.
pub proof fn flushing_is_transparent(
    state: PoolState,
    file: Map<PageId, Seq<u8>>,
    page_id: PageId,
    sync: bool,
)
    requires
        state.wf(),
        coherent(state, file),
    ensures
        step_is_pending(state.flush_page(page_id)),
        transparent(state, file, state.flush_page(page_id).state, file),
        step_is_pending(state.flush_from(0, sync)),
        transparent(state, file, state.flush_from(0, sync).state, file),
{
    lemma_flush_from(state, file, 0, sync);
}

/// Setting the catalog root changes no page.
pub proof fn setting_the_root_is_transparent(
    state: PoolState,
    file: Map<PageId, Seq<u8>>,
    page_id: PageId,
)
    requires
        state.wf(),
        coherent(state, file),
    ensures
        step_is_pending(state.set_root(page_id)),
        transparent(state, file, state.set_root(page_id).state, file),
{
}

/// Going on after a write changes no page: a page leaves the pool only after it
/// was written. A page that was allocated is full of zeros.
pub proof fn writes_are_transparent(state: PoolState, file: Map<PageId, Seq<u8>>)
    requires
        state.wf(),
        coherent(state, file),
        state.awaits_write(),
    ensures
        step_is_pending(state.written()),
        transparent(state, file, state.written().state, file_after_write(state, file)),
        state.task is Extend ==> {
            let page_id = PageId(state.disk.header.next_page_id);
            &&& state.written().state.disk.header.allocated(page_id)
            &&& contents(state.written().state, file_after_write(state, file), page_id)
                == disk::zero_page()
        },
        state.task is Advance ==> {
            &&& state.written().result == Ok::<Step, BufferPoolError>(Step::Pinned(state.newest()))
            &&& used_last(state.written().state, state.newest())
        },
{
    let new_file = file_after_write(state, file);
    let (target, _) = pending_write(state);
    match state.task {
        Task::Evict(page_id, purpose) => {
            let index = pool_model::index_of(state.frames, page_id);
            let counted = state.count_write();
            lemma_evict(counted.frames, index);
            let evicted = counted.evict(index);
            assert(state.frames[index].wf(state.disk, state.clock));
            assert(coherent(evicted, new_file)) by {
                assert forall|i: int|
                    0 <= i < evicted.frames.len() && !(
                    #[trigger] evicted.frames[i]).dirty implies new_file[evicted.frames[i].page_id]
                    == evicted.frames[i].bytes by {
                    let j = if i < index {
                        i
                    } else {
                        i + 1
                    };
                    assert(evicted.frames[i] == state.frames[j]);
                }
            }
            assert(transparent(state, file, evicted, new_file));
            lemma_proceed(evicted, new_file, purpose);
            assert(state.written() == evicted.proceed(purpose));
            lemma_chain(state, file, evicted, new_file, state.written().state, new_file);
        },
        Task::Extend => {
            let after = state.written().state;
            assert forall|i: int| 0 <= i < state.frames.len() implies (
            #[trigger] state.frames[i]).page_id != target by {
                assert(state.frames[i].wf(state.disk, state.clock));
            }
            assert(!state.has_frame(target));
            assert(transparent(state, file, after, new_file));
        },
        Task::Advance => {
            let ticked = state.tick();
            assert forall|i: int| 0 <= i < state.frames.len() implies (
            #[trigger] state.frames[i]).page_id != target by {
                assert(state.frames[i].wf(state.disk, state.clock));
            }
            assert(coherent(state, new_file));
            lemma_tick(state, new_file);
            assert(state.disk.header.allocated(state.newest()));
            lemma_install(ticked.frames, ticked.install(state.newest(), disk::zero_page()).frames.last());
            assert(transparent(ticked, new_file, state.written().state, new_file));
            assert(transparent(state, file, state, new_file));
            lemma_chain(state, new_file, ticked, new_file, state.written().state, new_file);
            lemma_chain(state, file, state, new_file, state.written().state, new_file);
        },
        Task::Flush(page_id) => {
            let cleaned = state.cleaned(page_id);
            lemma_cleaned(state, file, page_id);
            assert(transparent(cleaned, new_file, state.written().state, new_file));
            lemma_chain(state, file, cleaned, new_file, state.written().state, new_file);
        },
        Task::FlushAll(position, sync) => {
            let page_id = state.frames[position as int].page_id;
            let idle = state.with_task(Task::Idle);
            assert(pool_model::index_of(state.frames, page_id) == position);
            lemma_cleaned(idle, file, page_id);
            let cleaned = idle.cleaned(page_id);
            let counted = cleaned.count_write();
            lemma_flush_from(counted, new_file, position + 1, sync);
            assert(transparent(cleaned, new_file, counted, new_file));
            lemma_chain(idle, file, cleaned, new_file, counted, new_file);
            lemma_chain(idle, file, counted, new_file, state.written().state, new_file);
            assert(transparent(state, file, idle, file));
            lemma_chain(state, file, idle, file, state.written().state, new_file);
        },
        _ => {
            assert forall|i: int| 0 <= i < state.frames.len() implies (
            #[trigger] state.frames[i]).page_id != target by {
                assert(state.frames[i].wf(state.disk, state.clock));
            }
        },
    }
}

/// Going on after a read changes no page. The page that was read is pinned and is
/// the one that was used last.
pub proof fn loads_are_transparent(state: PoolState, file: Map<PageId, Seq<u8>>, page_id: PageId)
    requires
        state.wf(),
        coherent(state, file),
        state.task == Task::Load(page_id),
    ensures
        step_is_pending(state.loaded(file[page_id])),
        transparent(state, file, state.loaded(file[page_id]).state, file),
        state.loaded(file[page_id]).result == Ok::<Step, BufferPoolError>(Step::Pinned(page_id)),
        used_last(state.loaded(file[page_id]).state, page_id),
{
    lemma_install(state.frames, state.install(page_id, file[page_id]).frames.last());
}

/// Borrowing a page, giving it back and unpinning it change no page.
pub proof fn guards_are_transparent(
    state: PoolState,
    file: Map<PageId, Seq<u8>>,
    page_id: PageId,
    borrow: Borrow,
)
    requires
        state.wf(),
        coherent(state, file),
        state.pinned(page_id),
    ensures
        transparent(state, file, state.with_borrow(page_id, borrow), file),
        coherent(state.unpin(page_id), file),
        forall|other: PageId|
            state.disk.header.allocated(other) ==> #[trigger] contents(
                state.unpin(page_id),
                file,
                other,
            ) == contents(state, file, other),
{
    let frame = state.frame(page_id);
    pool_model::lemma_same_places(state.frames, page_id, FrameState { borrow, ..frame });
    pool_model::lemma_same_places(state.frames, page_id, FrameState { pins: (frame.pins - 1) as u32, ..frame });
}

/// A change to a borrowed page, which marks it dirty, is what is read of the page
/// from then on, and changes no other page.
pub proof fn changes_are_read_back(
    state: PoolState,
    file: Map<PageId, Seq<u8>>,
    page_id: PageId,
    bytes: Seq<u8>,
)
    requires
        state.wf(),
        coherent(state, file),
        state.has_frame(page_id),
    ensures
        coherent(state.with_contents(page_id, bytes, true), file),
        contents(state.with_contents(page_id, bytes, true), file, page_id) == bytes,
        forall|other: PageId|
            other != page_id ==> #[trigger] contents(
                state.with_contents(page_id, bytes, true),
                file,
                other,
            ) == contents(state, file, other),
{
    pool_model::lemma_same_places(state.frames, page_id, FrameState { bytes, dirty: true, ..state.frame(page_id) });
}

/// What a visit left in a page, marking it dirty, is what is read of the page from
/// then on, and no other page changed.
pub proof fn visits_change_one_page(
    state: PoolState,
    file: Map<PageId, Seq<u8>>,
    page_id: PageId,
    bytes: Seq<u8>,
)
    requires
        state.wf(),
        coherent(state, file),
        state.can_visit(page_id),
    ensures
        coherent(state.visited(page_id, bytes, true), file),
        contents(state.visited(page_id, bytes, true), file, page_id) == bytes,
        forall|other: PageId|
            other != page_id ==> #[trigger] contents(
                state.visited(page_id, bytes, true),
                file,
                other,
            ) == contents(state, file, other),
{
    let changed = state.with_contents(page_id, bytes, true);
    let frame = FrameState { bytes, dirty: true, ..state.frame(page_id) };
    pool_model::lemma_same_places(state.frames, page_id, frame);
    pool_model::lemma_same_places(
        changed.frames,
        page_id,
        FrameState { pins: (frame.pins - 1) as u32, ..frame },
    );
}

/// When the pool asks to synchronize the file, the file holds every page as it is
/// read through the pool.
pub proof fn synchronized_files_are_complete(
    state: PoolState,
    file: Map<PageId, Seq<u8>>,
    page_id: PageId,
)
    requires
        state.wf(),
        coherent(state, file),
        state.task is Sync,
        state.disk.header.allocated(page_id),
    ensures
        contents(state, file, page_id) == file[page_id],
{
    if state.has_frame(page_id) {
        let index = pool_model::index_of(state.frames, page_id);
        assert(!state.frames[index].dirty);
    }
}

/// A new pool is coherent with a file that holds every allocated page.
pub proof fn empty_pools_are_coherent(state: PoolState, file: Map<PageId, Seq<u8>>)
    requires
        state.frames.len() == 0,
        state.task is Idle,
        forall|page_id: PageId|
            state.disk.header.allocated(page_id) ==> #[trigger] file.dom().contains(page_id),
    ensures
        coherent(state, file),
{
}

/// Whether the page is cached and pinned, and all others were used before it.
pub open spec fn used_last(state: PoolState, page_id: PageId) -> bool {
    &&& state.pinned(page_id)
    &&& forall|i: int|
        0 <= i < state.frames.len() && (#[trigger] state.frames[i]).page_id != page_id
            ==> state.frames[i].last_used < state.frame(page_id).last_used
}

/// The victim was not used since any other unpinned page was.
pub proof fn victims_are_least_recently_used(state: PoolState, page_id: PageId)
    requires
        state.wf(),
        !pool_model::all_pinned(state.frames),
        state.has_frame(page_id),
        state.frame(page_id).pins == 0,
    ensures
        ({
            let victim = state.frames[pool_model::victim(state.frames)];
            &&& victim.pins == 0
            &&& victim.last_used <= state.frame(page_id).last_used
        }),
{
    lemma_has_victim(state.frames, state.frames.len() as int);
}

/// Transparent changes one after the other are transparent.
proof fn lemma_chain(
    first: PoolState,
    first_file: Map<PageId, Seq<u8>>,
    second: PoolState,
    second_file: Map<PageId, Seq<u8>>,
    third: PoolState,
    third_file: Map<PageId, Seq<u8>>,
)
    requires
        transparent(first, first_file, second, second_file),
        transparent(second, second_file, third, third_file),
    ensures
        transparent(first, first_file, third, third_file),
{
    assert forall|page_id: PageId| first.disk.header.allocated(page_id) implies
        #[trigger] contents(third, third_file, page_id) == contents(first, first_file, page_id) by {
        assert(contents(second, second_file, page_id) == contents(first, first_file, page_id));
        assert(contents(third, third_file, page_id) == contents(second, second_file, page_id));
    }
}

/// Where some frame is unpinned, there is a victim.
pub proof fn lemma_has_victim(frames: Seq<FrameState>, count: int)
    requires
        0 <= count <= frames.len(),
        exists|i: int| 0 <= i < count && (#[trigger] frames[i]).pins == 0,
    ensures
        exists|i: int| pool_model::is_victim(frames.take(count), i),
        count == frames.len() ==> pool_model::is_victim(frames, pool_model::victim(frames)),
    decreases count,
{
    let shorter = frames.take(count - 1);
    let longer = frames.take(count);
    if exists|i: int| 0 <= i < count - 1 && (#[trigger] frames[i]).pins == 0 {
        lemma_has_victim(frames, count - 1);
        let best = choose|i: int| pool_model::is_victim(shorter, i);
        assert(forall|j: int| 0 <= j < count - 1 ==> #[trigger] shorter[j] == longer[j]);
        if frames[count - 1].pins == 0 && frames[count - 1].last_used < frames[best].last_used {
            assert forall|j: int| 0 <= j < count - 1 && (#[trigger] longer[j]).pins
                == 0 implies longer[count - 1].last_used < longer[j].last_used by {
                assert(shorter[j].pins == 0);
            }
            assert(pool_model::is_victim(longer, count - 1));
        } else {
            assert forall|j: int| 0 <= j < count && (#[trigger] longer[j]).pins
                == 0 implies longer[best].last_used <= longer[j].last_used by {
                if j < count - 1 {
                    assert(shorter[j].pins == 0);
                }
            }
            assert forall|j: int| 0 <= j < best && (#[trigger] longer[j]).pins
                == 0 implies longer[best].last_used < longer[j].last_used by {
                assert(shorter[j].pins == 0);
            }
            assert(pool_model::is_victim(longer, best));
        }
    } else {
        assert(frames[count - 1].pins == 0);
        assert(pool_model::is_victim(longer, count - 1));
    }
    if count == frames.len() {
        assert(longer =~= frames);
    }
}

/// Advancing the clock changes nothing but uses.
proof fn lemma_tick(state: PoolState, file: Map<PageId, Seq<u8>>)
    requires
        state.wf(),
        coherent(state, file),
    ensures
        state.tick().all_used_before(),
        pool_model::distinct(state.tick().frames),
        transparent(state, file, state.tick(), file),
        forall|page_id: PageId| #[trigger]
            pool_model::cached(state.tick().frames, page_id) == pool_model::cached(
                state.frames,
                page_id,
            ),
{
    let ticked = state.tick();
    assert(ticked.frames.len() == state.frames.len());
    assert forall|i: int| 0 <= i < state.frames.len() implies (#[trigger] ticked.frames[i]) == (
    FrameState { last_used: ticked.frames[i].last_used, ..state.frames[i] })
        && ticked.frames[i].last_used < ticked.clock by {
        assert(state.frames[i].wf(state.disk, state.clock));
    }
    assert forall|page_id: PageId| #[trigger] pool_model::cached(ticked.frames, page_id)
        == pool_model::cached(state.frames, page_id) by {
        if state.has_frame(page_id) {
            let i = pool_model::index_of(state.frames, page_id);
            assert(ticked.frames[i].page_id == page_id);
        }
        if ticked.has_frame(page_id) {
            let i = pool_model::index_of(ticked.frames, page_id);
            assert(state.frames[i].page_id == page_id);
        }
    }
    assert forall|page_id: PageId| state.has_frame(page_id) implies #[trigger] pool_model::index_of(
        ticked.frames,
        page_id,
    ) == pool_model::index_of(state.frames, page_id) by {
        assert(ticked.has_frame(page_id));
        let i = pool_model::index_of(state.frames, page_id);
        let j = pool_model::index_of(ticked.frames, page_id);
        assert(state.frames[j].page_id == page_id);
        assert(ticked.frames[i].page_id == page_id);
    }
    assert forall|i: int| 0 <= i < ticked.frames.len() && !(
    #[trigger] ticked.frames[i]).dirty implies file[ticked.frames[i].page_id]
        == ticked.frames[i].bytes by {
        assert(!state.frames[i].dirty);
    }
}

/// Evicting a frame leaves the others as they are.
proof fn lemma_evict(frames: Seq<FrameState>, index: int)
    requires
        pool_model::distinct(frames),
        0 <= index < frames.len(),
    ensures
        ({
            let after = frames.remove(index);
            &&& pool_model::distinct(after)
            &&& forall|page_id: PageId| #[trigger]
                pool_model::cached(after, page_id) == (pool_model::cached(frames, page_id)
                    && page_id != frames[index].page_id)
            &&& forall|page_id: PageId|
                pool_model::cached(after, page_id) ==> after[#[trigger] pool_model::index_of(
                    after,
                    page_id,
                )] == frames[pool_model::index_of(frames, page_id)]
        }),
{
    let after = frames.remove(index);
    assert forall|page_id: PageId| #[trigger] pool_model::cached(after, page_id) == (
    pool_model::cached(frames, page_id) && page_id != frames[index].page_id) by {
        if pool_model::cached(frames, page_id) && page_id != frames[index].page_id {
            let i = pool_model::index_of(frames, page_id);
            let j = if i < index {
                i
            } else {
                i - 1
            };
            assert(after[j].page_id == page_id);
        }
        if pool_model::cached(after, page_id) {
            let j = pool_model::index_of(after, page_id);
            let i = if j < index {
                j
            } else {
                j + 1
            };
            assert(frames[i].page_id == page_id);
            assert(i != index);
        }
    }
    assert forall|page_id: PageId| pool_model::cached(
        after,
        page_id,
    ) implies after[#[trigger] pool_model::index_of(after, page_id)]
        == frames[pool_model::index_of(frames, page_id)] by {
        let j = pool_model::index_of(after, page_id);
        let i = if j < index {
            j
        } else {
            j + 1
        };
        assert(frames[i].page_id == page_id);
    }
}

/// Caching one more page leaves the others as they are.
proof fn lemma_install(frames: Seq<FrameState>, frame: FrameState)
    requires
        pool_model::distinct(frames),
        !pool_model::cached(frames, frame.page_id),
    ensures
        ({
            let after = frames.push(frame);
            &&& forall|other: PageId| #[trigger]
                pool_model::cached(after, other) == (pool_model::cached(frames, other) || other
                    == frame.page_id)
            &&& pool_model::index_of(after, frame.page_id) == frames.len()
            &&& forall|other: PageId|
                pool_model::cached(frames, other) ==> #[trigger] pool_model::index_of(after, other)
                    == pool_model::index_of(frames, other)
        }),
{
    let after = frames.push(frame);
    let last = frames.len() as int;
    assert(after[last].page_id == frame.page_id);
    assert forall|i: int| 0 <= i < after.len() && (#[trigger] after[i]).page_id
        == frame.page_id implies i == last by {
        if i < last {
            assert(frames[i].page_id == frame.page_id);
        }
    }
    assert forall|other: PageId| #[trigger] pool_model::cached(after, other) == (pool_model::cached(
        frames,
        other,
    ) || other == frame.page_id) by {
        if pool_model::cached(frames, other) {
            let i = pool_model::index_of(frames, other);
            assert(after[i].page_id == other);
        }
        if pool_model::cached(after, other) {
            let i = pool_model::index_of(after, other);
            if i < last {
                assert(frames[i].page_id == other);
            }
        }
    }
    assert forall|other: PageId| pool_model::cached(frames, other) implies
        #[trigger] pool_model::index_of(after, other) == pool_model::index_of(frames, other) by {
        assert(pool_model::cached(after, other));
        let i = pool_model::index_of(frames, other);
        let j = pool_model::index_of(after, other);
        assert(after[i].page_id == other);
        if j < last {
            assert(frames[j].page_id == other);
        }
    }
}

proof fn lemma_proceed(state: PoolState, file: Map<PageId, Seq<u8>>, purpose: Purpose)
    requires
        coherent(state, file),
    ensures
        step_is_pending(state.proceed(purpose)),
        transparent(state, file, state.proceed(purpose).state, file),
{
}

proof fn lemma_claim(state: PoolState, file: Map<PageId, Seq<u8>>, purpose: Purpose)
    requires
        pool_model::distinct(state.frames),
        coherent(state, file),
        0 < state.capacity,
    ensures
        step_is_pending(state.claim(purpose)),
        transparent(state, file, state.claim(purpose).state, file),
{
    if state.frames.len() < state.capacity {
        lemma_proceed(state, file, purpose);
    } else if !pool_model::all_pinned(state.frames) {
        let index = pool_model::victim(state.frames);
        lemma_has_victim(state.frames, state.frames.len() as int);
        let page_id = state.frames[index].page_id;
        assert(pool_model::index_of(state.frames, page_id) == index);
        if !state.frames[index].dirty {
            let evicted = state.evict(index);
            lemma_evict(state.frames, index);
            assert(transparent(state, file, evicted, file)) by {
                assert forall|i: int|
                    0 <= i < evicted.frames.len() && !(
                    #[trigger] evicted.frames[i]).dirty implies file[evicted.frames[i].page_id]
                    == evicted.frames[i].bytes by {
                    let j = if i < index {
                        i
                    } else {
                        i + 1
                    };
                    assert(evicted.frames[i] == state.frames[j]);
                }
            }
            lemma_proceed(evicted, file, purpose);
        }
    }
}

proof fn lemma_flush_from(
    state: PoolState,
    file: Map<PageId, Seq<u8>>,
    position: int,
    sync: bool,
)
    requires
        pool_model::distinct(state.frames),
        coherent(state, file),
        0 <= position,
        state.frames.len() <= usize::MAX,
    ensures
        step_is_pending(state.flush_from(position, sync)),
        transparent(state, file, state.flush_from(position, sync).state, file),
    decreases state.frames.len() - position,
{
    if position < state.frames.len() {
        let frame = state.frames[position];
        assert(pool_model::index_of(state.frames, frame.page_id) == position);
        if frame.borrow == Borrow::Free && !frame.dirty {
            lemma_flush_from(state, file, position + 1, sync);
        }
    }
}

/// A page that was written is clean.
proof fn lemma_cleaned(state: PoolState, file: Map<PageId, Seq<u8>>, page_id: PageId)
    requires
        state.wf(),
        coherent(state, file),
        state.has_frame(page_id),
    ensures
        pool_model::distinct(state.cleaned(page_id).frames),
        state.cleaned(page_id).frames.len() == state.frames.len(),
        transparent(
            state,
            file,
            state.cleaned(page_id),
            file.insert(page_id, state.frame(page_id).bytes),
        ),
{
    let frame = state.frame(page_id);
    pool_model::lemma_same_places(state.frames, page_id, FrameState { dirty: false, ..frame });
    let after = state.cleaned(page_id);
    let new_file = file.insert(page_id, frame.bytes);
    assert forall|i: int| 0 <= i < after.frames.len() && !(
    #[trigger] after.frames[i]).dirty implies new_file[after.frames[i].page_id]
        == after.frames[i].bytes by {
        if i != pool_model::index_of(state.frames, page_id) {
            assert(after.frames[i] == state.frames[i]);
        }
    }
    assert forall|other: PageId| #[trigger] state.pinned(other) implies after.pinned(other) by {
        assert(after.has_frame(other));
    }
    assert forall|other: PageId| state.disk.header.allocated(other) implies #[trigger] contents(
        after,
        new_file,
        other,
    ) == contents(state, file, other) by {
        assert(after.has_frame(other) == state.has_frame(other));
    }
}

} // verus!
