//! When the rows of a heap can be reached, and in which order a scan lists them.

use vstd::prelude::*;

use crate::storage::pool_model::PoolState;
use crate::storage::{BufferPoolError, PageId, Rid};

use super::heap_file::{self, HeapFileError, HeapRecord, InsertStep, OpenStep, PageRequest};
use super::heap_laws::{self, Heap};
use super::heap_model;
use super::page_format::{self, HeapPage};
use super::page_laws;
use super::pooled;
use super::slotted_page::SlottedPageError;

verus! {

/// What is said of a page that is no heap page.
pub open spec fn not_a_heap_page(bytes: Seq<u8>) -> HeapFileError {
    HeapFileError::Page(Box::new(SlottedPageError::Corrupt(page_format::page_fault(bytes)->0)))
}

/// A row can be reached exactly where its page is one of the heap, the pool lends the
/// page, the page is a heap page, and the identifier is that of a row. Where it cannot,
/// the first of these that fails is said.
pub proof fn rows_can_be_reached(
    pages: Seq<PageId>,
    state: PoolState,
    fault: Option<BufferPoolError>,
    rid: Rid,
)
    ensures
        ({
            let bytes = state.frame(rid.page_id).bytes;
            let error = pooled::row_error(pages, state, fault, rid.page_id, rid);
            let valid = page_format::page_fault(bytes) is None;
            let live = page_format::content(rid.page_id, bytes).is_live(rid);
            &&& error is None <==> pages.contains(rid.page_id) && fault is None && valid && live
            &&& !pages.contains(rid.page_id) ==> error == Some(HeapFileError::RidOutsideHeap(rid))
            &&& pages.contains(rid.page_id) ==> {
                &&& fault matches Some(reason) ==> error == Some(
                    HeapFileError::Buffer(Box::new(reason)),
                )
                &&& fault is None && !valid ==> error == Some(not_a_heap_page(bytes))
                &&& fault is None && valid && !live ==> error == Some(
                    HeapFileError::Page(Box::new(SlottedPageError::InvalidRid(rid))),
                )
            }
        }),
{
}

/// A step of an insertion is given its page as long as the pool lends it for writing
/// and it is a heap page; a new page may hold anything. Where it is not, that is said.
pub proof fn insertions_use_pages_that_are_lent(
    pages: Seq<PageId>,
    state: PoolState,
    page_id: PageId,
    step: InsertStep,
    record: Seq<u8>,
)
    ensures
        ({
            let bytes = state.frame(page_id).bytes;
            let result = pooled::insert_result(pages, state, page_id, step, record);
            let valid = page_format::page_fault(bytes) is None;
            &&& state.write_fault(page_id) matches Some(reason) ==> result == Err::<
                InsertStep,
                HeapFileError,
            >(HeapFileError::Buffer(Box::new(reason)))
            &&& state.write_fault(page_id) is None && !valid && (step is Visit || step is Link)
                ==> result == Err::<InsertStep, HeapFileError>(not_a_heap_page(bytes))
            &&& state.write_fault(page_id) is None && (valid || step is Append || step is Inserted)
                ==> result == heap_model::insert_step(
                pages,
                step,
                page_format::content(page_id, bytes),
                record,
            )
        }),
{
}

/// A row that fits into the page that an insertion visits is stored in it. Where it
/// does not, the insertion goes on to the next page, and behind the last page to a new
/// one, which the last page is linked to.
pub proof fn insertions_try_page_after_page(
    pages: Seq<PageId>,
    index: usize,
    page: HeapPage,
    record: Seq<u8>,
)
    requires
        page.fits(),
        index < pages.len() <= usize::MAX,
        record.len() <= 8152,
    ensures
        ({
            let step = InsertStep::Visit(index);
            let result = heap_model::insert_step(pages, step, page, record);
            let needed = record.len() + page.directory_growth();
            &&& heap_model::insert_request(pages, step) == Some(
                PageRequest::Write(pages[index as int]),
            )
            &&& needed <= page.free_space() ==> {
                &&& result == Ok::<InsertStep, HeapFileError>(InsertStep::Inserted(page.next_rid()))
                &&& heap_model::page_after_step(step, page, record) == page.insert(record)
            }
            &&& page.directory_growth() <= page.free_space() < needed ==> {
                &&& result == Ok::<InsertStep, HeapFileError>(
                    if index + 1 < pages.len() {
                        InsertStep::Visit((index + 1) as usize)
                    } else {
                        InsertStep::Append
                    },
                )
                &&& heap_model::page_after_step(step, page, record) == page
            }
            &&& heap_model::pages_after_step(pages, step) == pages
        }),
{
    page_laws::insertion_uses_all_free_space(page, record.len() as int);
}

/// A new page gets the row as its only one; it joins the heap when the last page is
/// linked to it.
pub proof fn insertions_add_a_page_at_the_end(
    pages: Seq<PageId>,
    page: HeapPage,
    last: HeapPage,
    record: Seq<u8>,
)
    requires
        pages.len() > 0,
        page.id.0 != 0xffff_ffff,
    ensures
        ({
            let blank = HeapPage { id: page.id, slots: Seq::empty(), next: None };
            let rid = blank.next_rid();
            let link = InsertStep::Link(rid, page.id);
            &&& heap_model::insert_request(pages, InsertStep::Append) == Some(PageRequest::Allocate)
            &&& heap_model::insert_step(pages, InsertStep::Append, page, record) == Ok::<
                InsertStep,
                HeapFileError,
            >(link)
            &&& heap_model::page_after_step(InsertStep::Append, page, record) == blank.insert(
                record,
            )
            &&& heap_model::pages_after_step(pages, InsertStep::Append) == pages
            &&& heap_model::insert_request(pages, link) == Some(
                PageRequest::Write(pages[pages.len() - 1]),
            )
            &&& heap_model::insert_step(pages, link, last, record) == Ok::<
                InsertStep,
                HeapFileError,
            >(InsertStep::Inserted(rid))
            &&& heap_model::page_after_step(link, last, record) == (HeapPage {
                next: Some(page.id),
                ..last
            })
            &&& heap_model::pages_after_step(pages, link) == pages.push(page.id)
        }),
{
}

/// A row that is too large for a page cannot be inserted.
pub proof fn large_rows_are_refused(heap: Heap, record: Seq<u8>, fresh: PageId)
    requires
        record.len() > 8152,
    ensures
        heap.insert(record, fresh) == Err::<(Heap, Rid), HeapFileError>(
            HeapFileError::RecordTooLarge { size: record.len() as usize, maximum: 8152 },
        ),
{
}

/// Opening a heap follows the link of a page: to the page behind it, or to the end of
/// the heap. A page that is no heap page, and a link to a page that was visited, is
/// said.
pub proof fn openings_follow_links(
    pages: Seq<PageId>,
    bytes: Seq<u8>,
    result: Result<OpenStep, HeapFileError>,
)
    requires
        heap_file::follows_link(pages, bytes, result),
    ensures
        ({
            let valid = page_format::page_fault(bytes) is None;
            let next = page_format::next_page(bytes);
            &&& !valid ==> (result matches Err(error) && error == not_a_heap_page(bytes))
            &&& valid && next is None ==> (result matches Ok(OpenStep::Opened(heap)) && heap@
                == pages)
            &&& valid && next is Some && pages.contains(next->0) ==> (result matches Err(error)
                && error == HeapFileError::PageChainCycle(next->0))
            &&& valid && next is Some && !pages.contains(next->0) ==> (
            result matches Ok(OpenStep::Visit(opening)) && opening@ == pages.push(next->0))
        }),
{
}

/// Whether a row comes before another: in a page before the other's, or in the same
/// page in a slot before the other's.
pub open spec fn comes_before(pages: Seq<PageId>, one: Rid, other: Rid) -> bool {
    exists|i: int, j: int|
        0 <= i <= j < pages.len() && #[trigger] pages[i] == one.page_id && #[trigger] pages[j]
            == other.page_id && (i < j || one.slot_id.0 < other.slot_id.0)
}

/// A scan lists the rows page by page, and within a page slot by slot.
pub proof fn scans_list_rows_in_order(heap: Heap, count: int, i: int, j: int)
    requires
        heap.wf(),
        0 <= count <= heap.pages.len(),
        0 <= i < j < heap.rows(count).len(),
    ensures
        comes_before(heap.pages, heap.rows(count)[i].rid, heap.rows(count)[j].rid),
    decreases count,
{
    if count > 0 {
        let page = heap.page(count - 1);
        let shorter = heap.rows(count - 1);
        let rids = page.live_rids();
        assert(heap.contents.dom().contains(heap.pages[count - 1]));
        heap_laws::lemma_records_at(page, rids.len() as int);
        page_laws::live_rids_list_the_rows(page, page.slots.len() as int);
        if j < shorter.len() {
            scans_list_rows_in_order(heap, count - 1, i, j);
        } else {
            let last = j - shorter.len();
            assert(heap.rows(count)[j].rid == rids[last]);
            assert(page.live_rids_up_to(page.slots.len() as int).contains(rids[last]));
            assert(heap.pages[count - 1] == rids[last].page_id);
            if i < shorter.len() {
                lemma_page_of_row(heap, count - 1, i);
                let k = choose|k: int|
                    0 <= k < count - 1 && #[trigger] heap.pages[k] == shorter[i].rid.page_id;
                assert(heap.rows(count)[i] == shorter[i]);
                assert(heap.pages[k] == heap.rows(count)[i].rid.page_id);
            } else {
                let first = i - shorter.len();
                assert(heap.rows(count)[i].rid == rids[first]);
                assert(page.live_rids_up_to(page.slots.len() as int).contains(rids[first]));
            }
        }
    }
}

proof fn lemma_page_of_row(heap: Heap, count: int, i: int)
    requires
        heap.wf(),
        0 <= count <= heap.pages.len(),
        0 <= i < heap.rows(count).len(),
    ensures
        exists|k: int|
            0 <= k < count && #[trigger] heap.pages[k] == heap.rows(count)[i].rid.page_id,
    decreases count,
{
    if count > 0 {
        let page = heap.page(count - 1);
        let shorter = heap.rows(count - 1);
        let rids = page.live_rids();
        assert(heap.contents.dom().contains(heap.pages[count - 1]));
        heap_laws::lemma_records_at(page, rids.len() as int);
        page_laws::live_rids_list_the_rows(page, page.slots.len() as int);
        if i < shorter.len() {
            lemma_page_of_row(heap, count - 1, i);
            assert(heap.rows(count)[i] == shorter[i]);
            let k = choose|k: int|
                0 <= k < count - 1 && #[trigger] heap.pages[k] == shorter[i].rid.page_id;
            assert(heap.pages[k] == heap.rows(count)[i].rid.page_id);
        } else {
            let last = i - shorter.len();
            assert(heap.rows(count)[i].rid == rids[last]);
            assert(page.live_rids_up_to(page.slots.len() as int).contains(rids[last]));
            assert(heap.pages[count - 1] == heap.rows(count)[i].rid.page_id);
        }
    }
}

/// A page without rows is a heap of its own, without rows.
pub proof fn new_heaps_have_no_rows(page_id: PageId)
    ensures
        ({
            let blank = HeapPage { id: page_id, slots: Seq::empty(), next: None };
            let heap = Heap {
                pages: seq![page_id],
                contents: Map::empty().insert(page_id, blank),
            };
            &&& heap_model::blank_page(page_id) == blank
            &&& heap.wf()
            &&& heap.rows(1).len() == 0
            &&& forall|rid: Rid| !#[trigger] heap.is_live(rid)
        }),
{
    let blank = HeapPage { id: page_id, slots: Seq::empty(), next: None };
    let heap = Heap { pages: seq![page_id], contents: Map::empty().insert(page_id, blank) };
    assert(blank.live_rids().len() == 0);
    assert(heap.rows(0).len() == 0);
    assert(heap_model::page_records(blank).len() == 0);
    assert(heap.rows(1) == heap.rows(0) + heap_model::page_records(heap.page(0)));
}

/// Rows that were read stand for themselves, in the order in which they are listed.
pub proof fn listed_rows_stand_for_themselves(records: Seq<HeapRecord>, index: int)
    requires
        0 <= index < records.len(),
    ensures
        heap_file::records_of(records).len() == records.len(),
        heap_file::records_of(records)[index].rid == records[index].rid,
        heap_file::records_of(records)[index].bytes == records[index].bytes@,
{
}

} // verus!
