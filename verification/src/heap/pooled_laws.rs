//! What heap operations come to, through the buffer pool and the database file.

use vstd::prelude::*;

use crate::storage::pool_laws;
use crate::storage::pool_model::{self, FrameState, PoolState};
use crate::storage::{PageId, Rid};

use super::heap_file::InsertStep;
use super::heap_laws::Heap;
use super::heap_model;
use super::page_format::{self, HeapPage};
use super::page_laws;
use super::pooled;
use super::structure_laws;

verus! {

/// The heap with these pages, as it is read through the pool.
pub open spec fn seen(
    pages: Seq<PageId>,
    state: PoolState,
    file: Map<PageId, Seq<u8>>,
) -> Heap {
    Heap {
        pages,
        contents: Map::new(
            |page_id: PageId| true,
            |page_id: PageId|
                page_format::content(page_id, pool_laws::contents(state, file, page_id)),
        ),
    }
}

/// What the pool does on its own account does not change a heap.
pub proof fn the_pool_does_not_change_heaps(
    pages: Seq<PageId>,
    state: PoolState,
    file: Map<PageId, Seq<u8>>,
    after: PoolState,
    new_file: Map<PageId, Seq<u8>>,
    index: int,
)
    requires
        pool_laws::transparent(state, file, after, new_file),
        0 <= index < pages.len(),
        state.disk.header.allocated(pages[index]),
    ensures
        seen(pages, after, new_file).page(index) == seen(pages, state, file).page(index),
{
    assert(pool_laws::contents(after, new_file, pages[index]) == pool_laws::contents(
        state,
        file,
        pages[index],
    ));
}

/// A step of an insertion that succeeds does to the heap what the step says, and
/// changes no other page of the database.
pub proof fn insertion_steps_change_the_heap(
    pages: Seq<PageId>,
    state: PoolState,
    file: Map<PageId, Seq<u8>>,
    after: PoolState,
    page_id: PageId,
    step: InsertStep,
    record: Seq<u8>,
)
    requires
        state.wf(),
        pool_laws::coherent(state, file),
        state.can_visit(page_id),
        pooled::insert_result(pages, state, page_id, step, record) is Ok,
        pooled::insert_visit(state, after, page_id, step, record),
    ensures
        pool_laws::coherent(after, file),
        seen(pages, after, file).contents == seen(pages, state, file).contents.insert(
            page_id,
            heap_model::page_after_step(
                step,
                seen(pages, state, file).contents[page_id],
                record,
            ),
        ),
{
    let page = pooled::cached_page(state, page_id);
    let new_page = heap_model::page_after_step(step, page, record);
    if heap_model::changes_page(step, page, record) {
        lemma_written(pages, state, file, after, page_id, new_page);
    } else {
        lemma_unpinned(pages, state, file, page_id);
        assert(seen(pages, after, file).contents =~= seen(pages, state, file).contents.insert(
            page_id,
            page,
        ));
    }
}

/// A deletion that succeeds deletes the row from the heap, and changes no other
/// page of the database.
pub proof fn deletions_change_the_heap(
    pages: Seq<PageId>,
    state: PoolState,
    file: Map<PageId, Seq<u8>>,
    after: PoolState,
    rid: Rid,
)
    requires
        state.wf(),
        pool_laws::coherent(state, file),
        state.can_visit(rid.page_id),
        pooled::deleted(state, after, rid.page_id, rid),
    ensures
        pool_laws::coherent(after, file),
        seen(pages, after, file) == seen(pages, state, file).delete(rid),
{
    let page = pooled::cached_page(state, rid.page_id);
    lemma_written(pages, state, file, after, rid.page_id, page.delete(rid));
    assert(seen(pages, after, file) =~= seen(pages, state, file).delete(rid));
}

/// Reading a row reads it from the heap, and changes nothing.
pub proof fn reads_see_the_heap(
    pages: Seq<PageId>,
    state: PoolState,
    file: Map<PageId, Seq<u8>>,
    rid: Rid,
)
    requires
        state.wf(),
        pool_laws::coherent(state, file),
        state.can_visit(rid.page_id),
        state.read_fault(rid.page_id) is None,
        heap_model::page_error(state.frame(rid.page_id).bytes) is None,
    ensures
        pooled::row_error(pages, state, None, rid.page_id, rid) is None <==> seen(
            pages,
            state,
            file,
        ).is_live(rid),
        pooled::cached_page(state, rid.page_id).record(rid) == seen(pages, state, file).record(rid),
        pool_laws::coherent(state.unpin(rid.page_id), file),
        seen(pages, state.unpin(rid.page_id), file) == seen(pages, state, file),
{
    lemma_unpinned(pages, state, file, rid.page_id);
}

proof fn lemma_written(
    pages: Seq<PageId>,
    state: PoolState,
    file: Map<PageId, Seq<u8>>,
    after: PoolState,
    page_id: PageId,
    page: HeapPage,
)
    requires
        state.wf(),
        pool_laws::coherent(state, file),
        state.can_visit(page_id),
        pooled::wrote(state, after, page_id, page),
    ensures
        pool_laws::coherent(after, file),
        seen(pages, after, file).contents == seen(pages, state, file).contents.insert(
            page_id,
            page,
        ),
{
    let bytes = after.frame(page_id).bytes;
    pool_laws::visits_change_one_page(state, file, page_id, bytes);
    assert forall|other: PageId| seen(pages, after, file).contents[other] == #[trigger] seen(
        pages,
        state,
        file,
    ).contents.insert(page_id, page)[other] by {
        if other != page_id {
            assert(pool_laws::contents(after, file, other) == pool_laws::contents(
                state,
                file,
                other,
            ));
        }
    }
    assert(seen(pages, after, file).contents =~= seen(pages, state, file).contents.insert(
        page_id,
        page,
    ));
}

proof fn lemma_unpinned(
    pages: Seq<PageId>,
    state: PoolState,
    file: Map<PageId, Seq<u8>>,
    page_id: PageId,
)
    requires
        state.wf(),
        pool_laws::coherent(state, file),
        state.can_visit(page_id),
    ensures
        pool_laws::coherent(state.unpin(page_id), file),
        seen(pages, state.unpin(page_id), file) == seen(pages, state, file),
{
    let frame = state.frame(page_id);
    let after = state.unpin(page_id);
    pool_model::lemma_same_places(
        state.frames,
        page_id,
        FrameState { pins: (frame.pins - 1) as u32, ..frame },
    );
    assert forall|other: PageId| pool_laws::contents(after, file, other)
        == #[trigger] pool_laws::contents(state, file, other) by {}
    assert forall|other: PageId| #[trigger] seen(pages, after, file).contents[other] == seen(
        pages,
        state,
        file,
    ).contents[other] by {
        assert(pool_laws::contents(after, file, other) == pool_laws::contents(state, file, other));
    }
    assert(seen(pages, after, file).contents =~= seen(pages, state, file).contents);
    assert(seen(pages, after, file) =~= seen(pages, state, file));
}

/// Making a heap of a page leaves a page without rows and without a link in its place,
/// and changes no other page of the database.
pub proof fn creations_leave_blank_pages(
    pages: Seq<PageId>,
    state: PoolState,
    file: Map<PageId, Seq<u8>>,
    after: PoolState,
    page_id: PageId,
)
    requires
        state.wf(),
        pool_laws::coherent(state, file),
        state.can_visit(page_id),
        pooled::initialized(state, after, page_id),
    ensures
        pool_laws::coherent(after, file),
        page_format::page_fault(after.frame(page_id).bytes) is None,
        seen(pages, after, file).contents == seen(pages, state, file).contents.insert(
            page_id,
            HeapPage { id: page_id, slots: Seq::empty(), next: None },
        ),
{
    let blank = heap_model::blank_page(page_id);
    lemma_written(pages, state, file, after, page_id, blank);
    assert(pooled::cached_page(after, page_id) == blank);
    page_laws::written_pages_open_again(page_id, after.frame(page_id).bytes);
}

/// A visit gives back the pin that it was given and leaves every other page of the
/// pool as it is, whatever it wrote.
pub proof fn visits_give_their_pin_back(
    state: PoolState,
    after: PoolState,
    page_id: PageId,
    page: HeapPage,
    index: int,
)
    requires
        state.wf(),
        state.can_visit(page_id),
        pooled::wrote(state, after, page_id, page),
        0 <= index < state.frames.len(),
    ensures
        after.frames.len() == state.frames.len(),
        after.disk == state.disk,
        after.stats == state.stats,
        state.frames[index].page_id != page_id ==> after.frames[index] == state.frames[index],
        state.frames[index].page_id == page_id ==> {
            &&& after.frames[index].page_id == page_id
            &&& after.frames[index].pins == state.frames[index].pins - 1
            &&& after.frames[index].dirty
            &&& page_format::well_formed(after.frames[index].bytes)
            &&& page_format::content(page_id, after.frames[index].bytes) == page
            &&& after.frames[index].borrow == state.frames[index].borrow
        },
{
    let place = pool_model::index_of(state.frames, page_id);
    let bytes = after.frame(page_id).bytes;
    let changed = state.with_contents(page_id, bytes, true);
    let frame = FrameState { bytes, dirty: true, ..state.frame(page_id) };
    pool_model::lemma_same_places(state.frames, page_id, frame);
    pool_model::lemma_same_places(
        changed.frames,
        page_id,
        FrameState { pins: (frame.pins - 1) as u32, ..frame },
    );
    if state.frames[index].page_id == page_id {
        assert(place == index);
    }
}

/// What a visit of a page changes in its bytes: making a heap of it changes the header
/// alone, and a deletion the number of rows and the entry of the slot alone.
pub proof fn visits_change_few_bytes(
    state: PoolState,
    after: PoolState,
    page_id: PageId,
    rid: Rid,
)
    requires
        state.frame(page_id).bytes.len() == 8192,
    ensures
        ({
            let old_bytes = state.frame(page_id).bytes;
            let new_bytes = after.frame(page_id).bytes;
            let at = 32 + 8 * rid.slot_id.0;
            &&& pooled::initialized(state, after, page_id) ==> new_bytes.skip(32) == old_bytes.skip(
                32,
            )
            &&& pooled::deleted(state, after, page_id, rid) ==> new_bytes.len() == 8192 && forall|
                k: int,
            |
                0 <= k < 8192 && !(14 <= k < 16) && !(at <= k < at + 8) ==> #[trigger] new_bytes[k]
                    == old_bytes[k]
        }),
{
    structure_laws::new_heap_pages_have_a_blank_header(state.frame(page_id).bytes);
}

/// A step of an insertion either changes the page, to what the step says and with few
/// bytes, or gives the page back as it was.
pub proof fn insertion_steps_write_or_leave_pages(
    state: PoolState,
    after: PoolState,
    page_id: PageId,
    step: InsertStep,
    record: Seq<u8>,
)
    requires
        pooled::insert_visit(state, after, page_id, step, record),
    ensures
        ({
            let old_bytes = state.frame(page_id).bytes;
            let new_bytes = after.frame(page_id).bytes;
            let page = page_format::content(page_id, old_bytes);
            let usable = state.write_fault(page_id) is None && (page_format::page_fault(
                old_bytes,
            ) is None || step is Append);
            &&& usable && step is Visit && page.insert_error(record.len() as int) is None ==> {
                &&& after.frame(page_id).dirty
                &&& page_format::content(page_id, new_bytes) == page.insert(record)
                &&& heap_model::step_layout(step, page_id, old_bytes, new_bytes, record)
            }
            &&& usable && (step is Append || step is Link) ==> {
                &&& after.frame(page_id).dirty
                &&& heap_model::step_layout(step, page_id, old_bytes, new_bytes, record)
            }
            &&& !usable || (step is Visit && page.insert_error(record.len() as int) is Some) || (
            step is Inserted) ==> after == state.unpin(page_id)
        }),
{
}

} // verus!
