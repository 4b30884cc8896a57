//! What writing cached pages to the file comes to.

use vstd::prelude::*;

use super::buffer_pool::{self, Borrow, BufferPoolError, PoolStep, Task};
use super::pool_laws;
use super::pool_model::{self, FrameState, Outcome, PoolState, Step};
use super::PageId;

verus! {

/// Whether frame `index` holds this page, and the file holds the same bytes.
pub open spec fn is_saved(
    state: PoolState,
    file: Map<PageId, Seq<u8>>,
    index: int,
    page_id: PageId,
) -> bool {
    &&& 0 <= index < state.frames.len()
    &&& state.frames[index].page_id == page_id
    &&& !state.frames[index].dirty
    &&& file[page_id] == state.frames[index].bytes
}

/// Whether the frames are the same but for one, which is clean now.
pub open spec fn only_cleaned(before: PoolState, after: PoolState, index: int) -> bool {
    &&& after.frames.len() == before.frames.len()
    &&& after.disk == before.disk
    &&& after.capacity == before.capacity
    &&& after.clock == before.clock
    &&& forall|j: int|
        0 <= j < before.frames.len() && j != index ==> #[trigger] after.frames[j]
            == before.frames[j]
    &&& after.frames[index] == (FrameState { dirty: false, ..before.frames[index] })
}

/// A cached page that nobody borrows can be flushed, pinned or not. Where it is dirty
/// its bytes are to be written; where there is nothing to write, the file holds them
/// already. Flushing changes no frame.
pub proof fn flushes_write_dirty_pages(
    state: PoolState,
    file: Map<PageId, Seq<u8>>,
    index: int,
)
    requires
        state.wf(),
        pool_laws::coherent(state, file),
        0 <= index < state.frames.len(),
    ensures
        ({
            let frame = state.frames[index];
            let outcome = state.flush_page(frame.page_id);
            &&& outcome.state == (PoolState { task: outcome.state.task, ..state })
            &&& match outcome.result {
                Ok(Step::Done) => is_saved(outcome.state, file, index, frame.page_id),
                Ok(Step::WriteCached(page_id)) => page_id == frame.page_id && frame.dirty
                    && frame.borrow == Borrow::Free,
                Err(error) => frame.borrow != Borrow::Free && error
                    == BufferPoolError::PageBorrowed(frame.page_id),
                _ => false,
            }
            &&& frame.borrow == Borrow::Free ==> outcome.result is Ok
        }),
{
    let frame = state.frames[index];
    assert(pool_model::index_of(state.frames, frame.page_id) == index);
}

/// A page that is not cached cannot be flushed.
pub proof fn missing_pages_are_not_flushed(state: PoolState, page_id: PageId)
    requires
        forall|i: int| 0 <= i < state.frames.len() ==> (#[trigger] state.frames[i]).page_id != page_id,
    ensures
        state.flush_page(page_id).result == Err::<Step, BufferPoolError>(
            BufferPoolError::PageNotCached(page_id),
        ),
{
}

/// When a flush that asked for a write goes on after it, it is complete: the page is
/// clean, and the file that was written to holds its bytes.
pub proof fn flushed_pages_are_in_the_file(
    state: PoolState,
    file: Map<PageId, Seq<u8>>,
    index: int,
)
    requires
        state.wf(),
        pool_laws::coherent(state, file),
        0 <= index < state.frames.len(),
        state.flush_page(state.frames[index].page_id).result is Ok,
    ensures
        ({
            let frame = state.frames[index];
            let outcome = state.flush_page(frame.page_id);
            outcome.result matches Ok(Step::WriteCached(page_id)) ==> {
                let end = outcome.state.written();
                let new_file = file.insert(page_id, frame.bytes);
                &&& end.result == Ok::<Step, BufferPoolError>(Step::Done)
                &&& is_saved(end.state, new_file, index, frame.page_id)
                &&& end.state.frames[index].bytes == frame.bytes
                &&& only_cleaned(state, end.state, index)
            }
        }),
{
    let frame = state.frames[index];
    assert(pool_model::index_of(state.frames, frame.page_id) == index);
}

/// In whatever state a pool waits for the write of a flush, after the write it has
/// that page clean, and the file holds its bytes.
pub proof fn pending_flushes_end_clean(state: PoolState, file: Map<PageId, Seq<u8>>, page_id: PageId)
    requires
        state.wf(),
        pool_laws::coherent(state, file),
        state.task == Task::Flush(page_id),
    ensures
        state.written().result == Ok::<Step, BufferPoolError>(Step::Done),
        exists|index: int| #[trigger]
            is_saved(
                state.written().state,
                pool_laws::file_after_write(state, file),
                index,
                page_id,
            ) && only_cleaned(state, state.written().state, index),
{
    let index = pool_model::index_of(state.frames, page_id);
    assert(is_saved(
        state.written().state,
        pool_laws::file_after_write(state, file),
        index,
        page_id,
    ));
}

/// Whether every cached page is clean, and the file holds its bytes.
pub open spec fn all_saved(state: PoolState, file: Map<PageId, Seq<u8>>) -> bool {
    forall|i: int|
        0 <= i < state.frames.len() ==> !(#[trigger] state.frames[i]).dirty
            && file[state.frames[i].page_id] == state.frames[i].bytes
}

/// Whether writing all pages, so far, did what it should: it is complete, or asks to
/// synchronize the file if it should, only where every page is saved; else it asks to
/// write a dirty page that nobody borrows, or names a page that somebody borrows.
pub open spec fn saves_all(
    before: PoolState,
    outcome: Outcome,
    file: Map<PageId, Seq<u8>>,
    sync: bool,
) -> bool {
    &&& outcome.state.frames == before.frames
    &&& outcome.state.disk == before.disk
    &&& outcome.state.capacity == before.capacity
    &&& outcome.state.clock == before.clock
    &&& match outcome.result {
        Ok(Step::Done) => !sync && all_saved(outcome.state, file),
        Ok(Step::Sync) => sync && all_saved(outcome.state, file),
        Ok(Step::WriteCached(page_id)) => exists|i: int|
            0 <= i < before.frames.len() && (#[trigger] before.frames[i]).page_id == page_id
                && before.frames[i].dirty && before.frames[i].borrow == Borrow::Free
                && outcome.state.task == Task::FlushAll(i as usize, sync),
        Err(BufferPoolError::PageBorrowed(page_id)) => exists|i: int|
            0 <= i < before.frames.len() && (#[trigger] before.frames[i]).page_id == page_id
                && before.frames[i].borrow != Borrow::Free,
        _ => false,
    }
}

/// Writing all pages to the file starts with a dirty page, or ends at once where there
/// is none. It changes no frame.
pub proof fn flushing_all_pages_saves_them(
    state: PoolState,
    file: Map<PageId, Seq<u8>>,
    sync: bool,
)
    requires
        state.wf(),
        pool_laws::coherent(state, file),
    ensures
        saves_all(state, state.flush_from(0, sync), file, sync),
        (forall|i: int| 0 <= i < state.frames.len() ==> (#[trigger] state.frames[i]).borrow
            == Borrow::Free) ==> state.flush_from(0, sync).result is Ok,
{
    lemma_saves_all(state, file, 0, sync);
}

proof fn lemma_saves_all(
    state: PoolState,
    file: Map<PageId, Seq<u8>>,
    position: int,
    sync: bool,
)
    requires
        pool_laws::coherent(state, file),
        state.clean_up_to(position),
        0 <= position <= state.frames.len(),
        state.frames.len() <= usize::MAX,
    ensures
        saves_all(state, state.flush_from(position, sync), file, sync),
        (forall|i: int| 0 <= i < state.frames.len() ==> (#[trigger] state.frames[i]).borrow
            == Borrow::Free) ==> state.flush_from(position, sync).result is Ok,
    decreases state.frames.len() - position,
{
    if position < state.frames.len() {
        let frame = state.frames[position];
        if frame.borrow == Borrow::Free && !frame.dirty {
            lemma_saves_all(state, file, position + 1, sync);
        }
    }
}

/// Each write on the way cleans the page that was written and no other, and goes on to
/// the next dirty page, until every page is saved.
pub proof fn writing_all_pages_goes_on(
    state: PoolState,
    file: Map<PageId, Seq<u8>>,
    position: usize,
    sync: bool,
)
    requires
        state.wf(),
        pool_laws::coherent(state, file),
        state.task == Task::FlushAll(position, sync),
    ensures
        ({
            let frame = state.frames[position as int];
            let end = state.written();
            let new_file = file.insert(frame.page_id, frame.bytes);
            &&& only_cleaned(state, end.state, position as int)
            &&& saves_all(end.state, end, new_file, sync)
        }),
        (forall|i: int| 0 <= i < state.frames.len() ==> (#[trigger] state.frames[i]).borrow
            == Borrow::Free) ==> state.written().result is Ok,
{
    let frame = state.frames[position as int];
    let new_file = file.insert(frame.page_id, frame.bytes);
    let next = state.with_task(Task::Idle).cleaned(frame.page_id).count_write();
    assert(pool_model::index_of(state.frames, frame.page_id) == position);
    assert forall|i: int| 0 <= i < next.frames.len() && !(
    #[trigger] next.frames[i]).dirty implies new_file[next.frames[i].page_id]
        == next.frames[i].bytes by {
        if i != position {
            assert(next.frames[i] == state.frames[i]);
            assert(state.frames[i].page_id != frame.page_id);
        }
    }
    assert(pool_laws::coherent(next, new_file));
    assert(next.clean_up_to(position + 1));
    lemma_saves_all(next, new_file, position + 1, sync);
    lemma_flush_keeps_frames(next, position + 1, sync);
    if forall|i: int| 0 <= i < state.frames.len() ==> (#[trigger] state.frames[i]).borrow
        == Borrow::Free {
        assert forall|i: int| 0 <= i < next.frames.len() implies (
        #[trigger] next.frames[i]).borrow == Borrow::Free by {
            assert(state.frames[i].borrow == Borrow::Free);
        }
    }
}

/// Looking for a dirty page changes nothing but what the pool waits for.
proof fn lemma_flush_keeps_frames(state: PoolState, position: int, sync: bool)
    ensures
        state.flush_from(position, sync).state == state.with_task(
            state.flush_from(position, sync).state.task,
        ),
    decreases state.frames.len() - position,
{
    if position < state.frames.len() {
        lemma_flush_keeps_frames(state, position + 1, sync);
    }
}

/// A pool returns what its operation came to: the same error, or the same step.
pub proof fn pools_return_what_operations_come_to(
    outcome: Outcome,
    state: PoolState,
    result: Result<PoolStep, BufferPoolError>,
)
    requires
        buffer_pool::follows(outcome, state, result),
    ensures
        state == outcome.state,
        match result {
            Err(error) => outcome.result == Err::<Step, BufferPoolError>(error),
            Ok(PoolStep::Done) => outcome.result == Ok::<Step, BufferPoolError>(Step::Done),
            Ok(PoolStep::Pinned(guard)) => outcome.result == Ok::<Step, BufferPoolError>(
                Step::Pinned(guard.spec_page_id()),
            ),
            Ok(PoolStep::WriteCached(page_id)) => outcome.result == Ok::<Step, BufferPoolError>(
                Step::WriteCached(page_id),
            ),
            Ok(PoolStep::Write(page)) => outcome.result == Ok::<Step, BufferPoolError>(
                Step::Write(page.spec_id(), page@),
            ),
            Ok(PoolStep::Read(page_id)) => outcome.result == Ok::<Step, BufferPoolError>(
                Step::Read(page_id),
            ),
            Ok(PoolStep::Sync) => outcome.result == Ok::<Step, BufferPoolError>(Step::Sync),
        },
{
}

} // verus!
