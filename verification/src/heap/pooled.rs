//! Heap operations on pinned pages.
//!
//! Each operation takes the pin that was acquired for it, borrows the page, and
//! gives loan and pin back, whatever comes of it.

use vstd::prelude::*;

use crate::storage::buffer_pool::Borrow;
use crate::storage::pool_model::{self, FrameState, PoolState};
use crate::storage::{BufferPool, BufferPoolError, PageGuard, PageId, Rid};

use super::heap_file::{
    self, HeapFile, HeapFileError, HeapOpening, HeapScan, InsertStep, OpenStep, ScanState,
    MAX_RECORD_SIZE,
};
use super::heap_model;
use super::page_format::{self, HeapPage};
use super::page_layout;

verus! {

/// Whether a visit of this page led from one state of the pool to the other.
pub open spec fn is_visit(before: PoolState, after: PoolState, page_id: PageId) -> bool {
    after == before.visited(page_id, after.frame(page_id).bytes, after.frame(page_id).dirty)
}

/// What a cached page holds.
pub open spec fn cached_page(state: PoolState, page_id: PageId) -> HeapPage {
    page_format::content(page_id, state.frame(page_id).bytes)
}

/// Whether a visit wrote a heap page that holds this.
pub open spec fn wrote(
    before: PoolState,
    after: PoolState,
    page_id: PageId,
    page: HeapPage,
) -> bool {
    &&& is_visit(before, after, page_id)
    &&& after.frame(page_id).dirty
    &&& page_format::well_formed(after.frame(page_id).bytes)
    &&& cached_page(after, page_id) == page
}

/// Whether a visit made a heap page without rows of a page.
pub open spec fn initialized(before: PoolState, after: PoolState, page_id: PageId) -> bool {
    &&& wrote(before, after, page_id, heap_model::blank_page(page_id))
    &&& after.frame(page_id).bytes == page_layout::initialized(before.frame(page_id).bytes)
}

/// Whether a visit deleted a row from its page.
pub open spec fn deleted(before: PoolState, after: PoolState, page_id: PageId, rid: Rid) -> bool {
    &&& wrote(before, after, page_id, cached_page(before, page_id).delete(rid))
    &&& page_layout::deleted(
        before.frame(page_id).bytes,
        after.frame(page_id).bytes,
        rid.slot_id.0 as int,
    )
}

/// What a failure of the pool is for the heap.
pub open spec fn pool_error(error: BufferPoolError) -> HeapFileError {
    HeapFileError::Buffer(Box::new(error))
}

impl HeapFile {
    /// Makes a new heap of a page that was just allocated.
    pub fn create(pool: &mut BufferPool, guard: PageGuard) -> (result: Result<Self, HeapFileError>)
        requires
            old(pool)@.wf(),
            old(pool)@.can_visit(guard.spec_page_id()),
        ensures
            final(pool)@.wf(),
            ({
                let page_id = guard.spec_page_id();
                match old(pool)@.write_fault(page_id) {
                    Some(error) => {
                        &&& result matches Err(found)
                        &&& found == pool_error(error)
                        &&& final(pool)@ == old(pool)@.unpin(page_id)
                    },
                    None => {
                        &&& result matches Ok(heap)
                        &&& heap@ == seq![page_id]
                        &&& initialized(old(pool)@, final(pool)@, page_id)
                    },
                }
            }),
    {
        match pool.write(&guard) {
            Ok(()) => {},
            Err(error) => {
                pool.unpin(guard);
                return Err(HeapFileError::Buffer(Box::new(error)));
            },
        }
        proof {
            lemma_write_visits(old(pool)@, guard.spec_page_id());
        }
        let heap = Self::create_on(pool.page_mut(&guard));
        pool.release_write(&guard);
        pool.unpin(guard);
        Ok(heap)
    }

    /// Performs one step of an insertion on the page that it asked for.
    pub fn insert_step(
        &mut self,
        pool: &mut BufferPool,
        guard: PageGuard,
        step: InsertStep,
        record: &[u8],
    ) -> (result: Result<InsertStep, HeapFileError>)
        requires
            old(pool)@.wf(),
            old(pool)@.can_visit(guard.spec_page_id()),
            record@.len() <= MAX_RECORD_SIZE,
            step matches InsertStep::Visit(index) ==> index < old(self)@.len(),
        ensures
            final(pool)@.wf(),
            result == insert_result(
                old(self)@,
                old(pool)@,
                guard.spec_page_id(),
                step,
                record@,
            ),
            final(self)@ == if result is Ok {
                heap_model::pages_after_step(old(self)@, step)
            } else {
                old(self)@
            },
            insert_visit(old(pool)@, final(pool)@, guard.spec_page_id(), step, record@),
    {
        match pool.write(&guard) {
            Ok(()) => {},
            Err(error) => {
                pool.unpin(guard);
                return Err(HeapFileError::Buffer(Box::new(error)));
            },
        }
        proof {
            lemma_write_visits(old(pool)@, guard.spec_page_id());
        }
        let result = self.insert_on(step, pool.page_mut(&guard), record);
        pool.release_write(&guard);
        pool.unpin(guard);
        result
    }

    /// Copies the row with this identifier out of its page.
    pub fn get(&self, pool: &mut BufferPool, guard: PageGuard, rid: Rid) -> (result: Result<
        Vec<u8>,
        HeapFileError,
    >)
        requires
            old(pool)@.wf(),
            old(pool)@.can_visit(guard.spec_page_id()),
        ensures
            final(pool)@.wf(),
            final(pool)@ == old(pool)@.unpin(guard.spec_page_id()),
            ({
                let page_id = guard.spec_page_id();
                match row_error(self@, old(pool)@, old(pool)@.read_fault(page_id), page_id, rid) {
                    Some(error) => result matches Err(found) && found == error,
                    None => result matches Ok(bytes) && bytes@ == cached_page(
                        old(pool)@,
                        page_id,
                    ).record(rid),
                }
            }),
    {
        match self.ensure_owned_rid(rid) {
            Ok(()) => {},
            Err(error) => {
                pool.unpin(guard);
                return Err(error);
            },
        }
        match pool.read(&guard) {
            Ok(()) => {},
            Err(error) => {
                pool.unpin(guard);
                return Err(HeapFileError::Buffer(Box::new(error)));
            },
        }
        proof {
            pool_model::lemma_read_visit(old(pool)@, guard.spec_page_id());
        }
        let result = self.get_from(pool.page(&guard), rid);
        pool.release_read(&guard);
        pool.unpin(guard);
        result
    }

    /// Deletes the row with this identifier from its page.
    pub fn delete(&self, pool: &mut BufferPool, guard: PageGuard, rid: Rid) -> (result: Result<
        (),
        HeapFileError,
    >)
        requires
            old(pool)@.wf(),
            old(pool)@.can_visit(guard.spec_page_id()),
        ensures
            final(pool)@.wf(),
            ({
                let page_id = guard.spec_page_id();
                match row_error(self@, old(pool)@, old(pool)@.write_fault(page_id), page_id, rid) {
                    Some(error) => {
                        &&& result == Err::<(), _>(error)
                        &&& final(pool)@ == old(pool)@.unpin(page_id)
                    },
                    None => {
                        &&& result is Ok
                        &&& deleted(old(pool)@, final(pool)@, page_id, rid)
                    },
                }
            }),
    {
        match self.ensure_owned_rid(rid) {
            Ok(()) => {},
            Err(error) => {
                pool.unpin(guard);
                return Err(error);
            },
        }
        match pool.write(&guard) {
            Ok(()) => {},
            Err(error) => {
                pool.unpin(guard);
                return Err(HeapFileError::Buffer(Box::new(error)));
            },
        }
        proof {
            lemma_write_visits(old(pool)@, guard.spec_page_id());
        }
        let result = self.delete_from(pool.page_mut(&guard), rid);
        pool.release_write(&guard);
        pool.unpin(guard);
        result
    }
}

/// Why the row with this identifier cannot be reached through the pool, where the
/// pool has this to say; `None` where it can.
pub open spec fn row_error(
    pages: Seq<PageId>,
    state: PoolState,
    fault: Option<BufferPoolError>,
    page_id: PageId,
    rid: Rid,
) -> Option<HeapFileError> {
    if !pages.contains(rid.page_id) {
        Some(HeapFileError::RidOutsideHeap(rid))
    } else {
        match fault {
            Some(error) => Some(pool_error(error)),
            None => heap_file::access_error(page_id, state.frame(page_id).bytes, rid),
        }
    }
}

/// What comes of a step of an insertion on a pinned page.
pub open spec fn insert_result(
    pages: Seq<PageId>,
    state: PoolState,
    page_id: PageId,
    step: InsertStep,
    record: Seq<u8>,
) -> Result<InsertStep, HeapFileError> {
    match state.write_fault(page_id) {
        Some(error) => Err(pool_error(error)),
        None => match heap_model::insert_page_error(step, state.frame(page_id).bytes) {
            Some(error) => Err(error),
            None => heap_model::insert_step(pages, step, cached_page(state, page_id), record),
        },
    }
}

/// Whether a step of an insertion led from one state of the pool to the other.
pub open spec fn insert_visit(
    before: PoolState,
    after: PoolState,
    page_id: PageId,
    step: InsertStep,
    record: Seq<u8>,
) -> bool {
    let page = cached_page(before, page_id);
    if before.write_fault(page_id) is None && heap_model::insert_page_error(
        step,
        before.frame(page_id).bytes,
    ) is None && heap_model::changes_page(step, page, record) {
        &&& wrote(before, after, page_id, heap_model::page_after_step(step, page, record))
        &&& heap_model::step_layout(
            step,
            page_id,
            before.frame(page_id).bytes,
            after.frame(page_id).bytes,
            record,
        )
    } else {
        after == before.unpin(page_id)
    }
}

impl HeapOpening {
    /// Follows the link of the page that was to be visited.
    pub fn visit(self, pool: &mut BufferPool, guard: PageGuard) -> (result: Result<
        OpenStep,
        HeapFileError,
    >)
        requires
            self@.len() > 0,
            old(pool)@.wf(),
            old(pool)@.can_visit(guard.spec_page_id()),
        ensures
            final(pool)@.wf(),
            final(pool)@ == old(pool)@.unpin(guard.spec_page_id()),
            match old(pool)@.read_fault(guard.spec_page_id()) {
                Some(error) => result matches Err(found) && found == pool_error(error),
                None => heap_file::follows_link(
                    self@,
                    old(pool)@.frame(guard.spec_page_id()).bytes,
                    result,
                ),
            },
    {
        match pool.read(&guard) {
            Ok(()) => {},
            Err(error) => {
                pool.unpin(guard);
                return Err(HeapFileError::Buffer(Box::new(error)));
            },
        }
        proof {
            pool_model::lemma_read_visit(old(pool)@, guard.spec_page_id());
        }
        let result = self.visit_page(pool.page(&guard));
        pool.release_read(&guard);
        pool.unpin(guard);
        result
    }
}

impl HeapScan {
    /// Lists the rows of the page that the scan asked for.
    pub fn visit(&mut self, heap: &HeapFile, pool: &mut BufferPool, guard: PageGuard) -> (result:
        Result<(), HeapFileError>)
        requires
            old(self)@.index < heap@.len(),
            old(pool)@.wf(),
            old(pool)@.can_visit(guard.spec_page_id()),
        ensures
            final(pool)@.wf(),
            final(pool)@ == old(pool)@.unpin(guard.spec_page_id()),
            match old(pool)@.read_fault(guard.spec_page_id()) {
                Some(error) => {
                    &&& result == Err::<(), _>(pool_error(error))
                    &&& final(self)@ == old(self)@
                },
                None => match heap_model::page_error(
                    old(pool)@.frame(guard.spec_page_id()).bytes,
                ) {
                    Some(error) => result == Err::<(), _>(error) && final(self)@ == old(self)@,
                    None => {
                        &&& result is Ok
                        &&& final(self)@ == (ScanState {
                            index: old(self)@.index + 1,
                            records: old(self)@.records + heap_model::page_records(
                                cached_page(old(pool)@, guard.spec_page_id()),
                            ),
                        })
                    },
                },
            },
    {
        match pool.read(&guard) {
            Ok(()) => {},
            Err(error) => {
                pool.unpin(guard);
                return Err(HeapFileError::Buffer(Box::new(error)));
            },
        }
        proof {
            pool_model::lemma_read_visit(old(pool)@, guard.spec_page_id());
        }
        let result = self.visit_page(heap, pool.page(&guard));
        pool.release_read(&guard);
        pool.unpin(guard);
        result
    }
}

/// Whether giving loan and pin back after a page was borrowed for writing and got
/// these contents is a visit.
spec fn ends_as_visit(state: PoolState, page_id: PageId, bytes: Seq<u8>, dirty: bool) -> bool {
    let borrowed = state.with_borrow(page_id, Borrow::Write);
    let changed = borrowed.with_contents(page_id, bytes, dirty);
    let released = changed.with_borrow(page_id, Borrow::Free);
    &&& changed.pinned(page_id)
    &&& changed.frame(page_id).borrow == Borrow::Write
    &&& released.pinned(page_id)
    &&& released.frame(page_id).borrow == Borrow::Free
    &&& released.unpin(page_id) == state.visited(page_id, bytes, dirty)
    &&& released.unpin(page_id).frame(page_id).bytes == bytes
    &&& released.unpin(page_id).frame(page_id).dirty == dirty
}

/// Whatever is written to a borrowed page, giving loan and pin back is a visit.
proof fn lemma_write_visits(state: PoolState, page_id: PageId)
    requires
        state.wf(),
        state.pinned(page_id),
        state.write_fault(page_id) is None,
    ensures
        state.with_borrow(page_id, Borrow::Write).pinned(page_id),
        state.with_borrow(page_id, Borrow::Write).frame(page_id) == (FrameState {
            borrow: Borrow::Write,
            ..state.frame(page_id)
        }),
        state.visited(page_id, state.frame(page_id).bytes, state.frame(page_id).dirty)
            == state.unpin(page_id),
        forall|bytes: Seq<u8>, dirty: bool|
            #![trigger state.with_borrow(page_id, Borrow::Write).with_contents(page_id, bytes, dirty)]
            ends_as_visit(state, page_id, bytes, dirty),
{
    let frame = state.frame(page_id);
    pool_model::lemma_write_visit(state, page_id, frame.bytes, frame.dirty);
    assert(state.with_contents(page_id, frame.bytes, frame.dirty).frames =~= state.frames);
    assert forall|bytes: Seq<u8>, dirty: bool|
        #![trigger state.with_borrow(page_id, Borrow::Write).with_contents(page_id, bytes, dirty)]
        ends_as_visit(state, page_id, bytes, dirty) by {
        pool_model::lemma_write_visit(state, page_id, bytes, dirty);
    }
}

} // verus!
