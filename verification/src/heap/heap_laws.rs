//! What holds of every heap file and its pages.

use vstd::prelude::*;

use crate::storage::disk_format::Header;
use crate::storage::{PageId, Rid, PAGE_HEADER_SIZE, PAGE_SIZE};

use super::heap_file::{HeapFileError, InsertStep, PageRequest, MAX_RECORD_SIZE};
use super::heap_model::{self, Record};
use super::page_format::{self, HeapPage, INVALID_PAGE_ID};
use super::page_laws;
use super::page_layout;
use super::slotted_page::SlottedPageError;

verus! {

/// A heap file with what its pages hold.
#[verifier::ext_equal]
pub struct Heap {
    pub pages: Seq<PageId>,
    pub contents: Map<PageId, HeapPage>,
}

impl Heap {
    /// What the page at place `index` holds.
    pub open spec fn page(self, index: int) -> HeapPage {
        self.contents[self.pages[index]]
    }

    /// A heap has distinct pages, each linked to the next one.
    pub open spec fn wf(self) -> bool {
        &&& self.pages.len() > 0
        &&& self.pages.no_duplicates()
        &&& forall|i: int|
            0 <= i < self.pages.len() ==> {
                &&& self.contents.dom().contains(#[trigger] self.pages[i])
                &&& self.page(i).id == self.pages[i]
                &&& self.page(i).fits()
                &&& page_format::generations_positive(self.page(i).slots)
                &&& self.page(i).next == self.link(i)
            }
    }

    /// The page that follows the one at place `index`.
    pub open spec fn link(self, index: int) -> Option<PageId> {
        if index + 1 < self.pages.len() {
            Some(self.pages[index + 1])
        } else {
            None
        }
    }

    pub open spec fn is_live(self, rid: Rid) -> bool {
        self.pages.contains(rid.page_id) && self.contents[rid.page_id].is_live(rid)
    }

    pub open spec fn record(self, rid: Rid) -> Seq<u8> {
        self.contents[rid.page_id].record(rid)
    }

    pub open spec fn with_page(self, page_id: PageId, page: HeapPage) -> Heap {
        Heap { contents: self.contents.insert(page_id, page), ..self }
    }

    /// Inserts a row: into the first page with space for it, or into the page
    /// `fresh`, which is allocated where there is none.
    pub open spec fn insert(self, record: Seq<u8>, fresh: PageId) -> Result<
        (Heap, Rid),
        HeapFileError,
    > {
        if record.len() > MAX_RECORD_SIZE {
            Err(
                HeapFileError::RecordTooLarge {
                    size: record.len() as usize,
                    maximum: MAX_RECORD_SIZE,
                },
            )
        } else {
            self.insert_from(0, record, fresh)
        }
    }

    /// Goes on with an insertion at the page at place `index`.
    pub open spec fn insert_from(self, index: int, record: Seq<u8>, fresh: PageId) -> Result<
        (Heap, Rid),
        HeapFileError,
    >
        decreases self.pages.len() - index,
    {
        if index >= self.pages.len() {
            Ok(self.append(record, fresh))
        } else {
            match self.page(index).insert_error(record.len() as int) {
                None => Ok(
                    (
                        self.with_page(self.pages[index], self.page(index).insert(record)),
                        self.page(index).next_rid(),
                    ),
                ),
                Some(SlottedPageError::NoSpace { .. }) => self.insert_from(
                    index + 1,
                    record,
                    fresh,
                ),
                Some(error) => Err(HeapFileError::Page(Box::new(error))),
            }
        }
    }

    /// Adds a page with one row.
    pub open spec fn append(self, record: Seq<u8>, fresh: PageId) -> (Heap, Rid) {
        let blank = heap_model::blank_page(fresh);
        let last = self.pages.last();
        let linked = HeapPage { next: Some(fresh), ..self.contents[last] };
        let heap = Heap {
            pages: self.pages.push(fresh),
            contents: self.contents.insert(fresh, blank.insert(record)).insert(last, linked),
        };
        (heap, blank.next_rid())
    }

    /// What comes of an insertion that goes on with this step, each step being
    /// given the page that it asks for; a new page is `fresh`.
    pub open spec fn run(self, step: InsertStep, record: Seq<u8>, fresh: PageId) -> Result<
        (Heap, Rid),
        HeapFileError,
    >
        decreases self.steps_left(step),
        when self.is_step(step)
    {
        let page_id = match heap_model::insert_request(self.pages, step) {
            Some(PageRequest::Write(page_id)) => page_id,
            _ => fresh,
        };
        let page = if step is Append {
            heap_model::blank_page(fresh)
        } else {
            self.contents[page_id]
        };
        match step {
            InsertStep::Inserted(rid) => Ok((self, rid)),
            _ => match heap_model::insert_step(self.pages, step, page, record) {
                Err(error) => Err(error),
                Ok(next) => Heap {
                    pages: heap_model::pages_after_step(self.pages, step),
                    contents: self.contents.insert(
                        page_id,
                        heap_model::page_after_step(step, page, record),
                    ),
                }.run(next, record, fresh),
            },
        }
    }

    /// Whether an insertion can go on with this step.
    pub open spec fn is_step(self, step: InsertStep) -> bool {
        step matches InsertStep::Visit(index) ==> index < self.pages.len() <= usize::MAX
    }

    /// An upper bound for the steps that an insertion still takes.
    pub open spec fn steps_left(self, step: InsertStep) -> int {
        match step {
            InsertStep::Visit(index) => self.pages.len() - index + 2,
            InsertStep::Append => 2,
            InsertStep::Link(_, _) => 1,
            InsertStep::Inserted(_) => 0,
        }
    }

    pub open spec fn delete(self, rid: Rid) -> Heap {
        self.with_page(rid.page_id, self.contents[rid.page_id].delete(rid))
    }

    /// The rows of the first `count` pages.
    pub open spec fn rows(self, count: int) -> Seq<Record>
        decreases count,
    {
        if count <= 0 {
            Seq::empty()
        } else {
            self.rows(count - 1) + heap_model::page_records(self.page(count - 1))
        }
    }

    /// Whether `fresh` can become a page of the heap.
    pub open spec fn can_grow_by(self, fresh: PageId) -> bool {
        !self.pages.contains(fresh) && fresh.0 != INVALID_PAGE_ID
    }

    /// Whether rows and identifiers are the same but for one more row.
    pub open spec fn gains(self, after: Heap, rid: Rid, record: Seq<u8>) -> bool {
        &&& !self.is_live(rid)
        &&& after.is_live(rid)
        &&& after.record(rid) == record
        &&& forall|other: Rid|
            other != rid ==> (#[trigger] after.is_live(other) <==> self.is_live(other))
        &&& forall|other: Rid| #[trigger]
            self.is_live(other) ==> after.record(other) == self.record(other)
    }
}

/// An insertion that succeeds adds the row, under an identifier that was not in
/// use, leaves every other row as it is, and keeps the heap a heap.
pub proof fn insertions_add_one_row(heap: Heap, record: Seq<u8>, fresh: PageId)
    requires
        heap.wf(),
        heap.can_grow_by(fresh),
        heap.insert(record, fresh) is Ok,
    ensures
        ({
            let (after, rid) = heap.insert(record, fresh)->Ok_0;
            heap.gains(after, rid, record) && after.wf()
        }),
{
    lemma_insert_from(heap, 0, record, fresh);
}

/// An insertion, step by step, comes to what `insert` says.
pub proof fn insertions_run_to_their_end(heap: Heap, record: Seq<u8>, fresh: PageId)
    requires
        heap.wf(),
        heap.pages.len() <= usize::MAX,
        heap.can_grow_by(fresh),
        record.len() <= MAX_RECORD_SIZE,
    ensures
        heap.run(InsertStep::Visit(0), record, fresh) == heap.insert(record, fresh),
{
    lemma_run_from(heap, 0, record, fresh);
}

proof fn lemma_run_from(heap: Heap, index: int, record: Seq<u8>, fresh: PageId)
    requires
        heap.wf(),
        heap.pages.len() <= usize::MAX,
        heap.can_grow_by(fresh),
        0 <= index < heap.pages.len(),
    ensures
        heap.run(InsertStep::Visit(index as usize), record, fresh) == heap.insert_from(
            index,
            record,
            fresh,
        ),
    decreases heap.pages.len() - index,
{
    let step = InsertStep::Visit(index as usize);
    let page = heap.page(index);
    assert(heap.contents.dom().contains(heap.pages[index]));
    let unchanged = Heap {
        pages: heap.pages,
        contents: heap.contents.insert(heap.pages[index], page),
    };
    assert(unchanged =~= heap);
    match page.insert_error(record.len() as int) {
        None => {
            let after = heap.with_page(heap.pages[index], page.insert(record));
            assert(after.run(InsertStep::Inserted(page.next_rid()), record, fresh) == Ok::<
                (Heap, Rid),
                HeapFileError,
            >((after, page.next_rid())));
        },
        Some(SlottedPageError::NoSpace { .. }) => {
            if index + 1 < heap.pages.len() {
                lemma_run_from(heap, index + 1, record, fresh);
            } else {
                lemma_run_append(heap, record, fresh);
            }
        },
        Some(_) => {},
    }
}

proof fn lemma_run_append(heap: Heap, record: Seq<u8>, fresh: PageId)
    requires
        heap.wf(),
        heap.can_grow_by(fresh),
    ensures
        heap.run(InsertStep::Append, record, fresh) == Ok::<(Heap, Rid), HeapFileError>(
            heap.append(record, fresh),
        ),
{
    let blank = heap_model::blank_page(fresh);
    let rid = blank.next_rid();
    let last = heap.pages.last();
    let filled = Heap {
        pages: heap.pages,
        contents: heap.contents.insert(fresh, blank.insert(record)),
    };
    assert(heap.pages[heap.pages.len() - 1] == last);
    assert(last != fresh);
    let (after, _) = heap.append(record, fresh);
    let linked = Heap {
        pages: filled.pages.push(fresh),
        contents: filled.contents.insert(
            last,
            heap_model::page_after_step(
                InsertStep::Link(rid, fresh),
                filled.contents[last],
                record,
            ),
        ),
    };
    assert(linked =~= after);
    assert(after.run(InsertStep::Inserted(rid), record, fresh) == Ok::<(Heap, Rid), HeapFileError>(
        (after, rid),
    ));
    assert(filled.run(InsertStep::Link(rid, fresh), record, fresh) == Ok::<
        (Heap, Rid),
        HeapFileError,
    >((after, rid)));
}

/// A step of an insertion leaves the reserved header fields of a page as they are;
/// in a page that is added to the heap they are zero.
pub proof fn insertions_keep_reserved_fields(
    step: InsertStep,
    page_id: PageId,
    before: Seq<u8>,
    after: Seq<u8>,
    record: Seq<u8>,
)
    requires
        before.len() == PAGE_SIZE,
        !(step is Append) ==> page_format::well_formed(before),
        page_format::well_formed(after),
        heap_model::step_layout(step, page_id, before, after, record),
    ensures
        page_layout::reserved_fields(after) == if step is Append {
            Seq::new(14, |i: int| 0u8)
        } else {
            page_layout::reserved_fields(before)
        },
{
    let length = record.len() as int;
    if step is Append {
        let blank = page_layout::initialized(before);
        page_layout::lemma_initialized(page_id, before);
        page_layout::reserved_fields_stay(page_id, blank, after, length, 0);
        assert(page_layout::reserved_fields(blank) =~= Seq::new(14, |i: int| 0u8));
    } else {
        page_layout::reserved_fields_stay(page_id, before, after, length, 0);
    }
}

/// An insertion succeeds for every row that fits into a page, as long as each page
/// has space for a slot entry or a slot to reuse.
pub proof fn insertions_succeed(heap: Heap, record: Seq<u8>, fresh: PageId)
    requires
        heap.wf(),
        record.len() <= MAX_RECORD_SIZE,
        forall|i: int|
            0 <= i < heap.pages.len() ==> (#[trigger] heap.page(i)).directory_growth()
                <= heap.page(i).free_space(),
    ensures
        heap.insert(record, fresh) is Ok,
{
    lemma_insert_from_succeeds(heap, 0, record, fresh);
}

/// A row goes to the first page with space for it, and to a new one only where no
/// page has space.
pub proof fn rows_go_to_the_first_page_with_space(
    heap: Heap,
    record: Seq<u8>,
    fresh: PageId,
    index: int,
)
    requires
        heap.wf(),
        heap.can_grow_by(fresh),
        heap.insert(record, fresh) is Ok,
        0 <= index < heap.pages.len(),
        heap.page(index).insert_error(record.len() as int) is None,
        forall|j: int|
            0 <= j < index ==> (#[trigger] heap.page(j)).insert_error(record.len() as int) is Some,
    ensures
        heap.insert(record, fresh)->Ok_0.1 == heap.page(index).next_rid(),
        heap.insert(record, fresh)->Ok_0.0.pages == heap.pages,
{
    lemma_first_fit(heap, 0, record, fresh, index);
}

/// A deletion removes the row and no other, keeps the heap a heap, and the
/// identifier is stale from then on.
pub proof fn deletions_remove_one_row(heap: Heap, rid: Rid)
    requires
        heap.wf(),
        heap.is_live(rid),
    ensures
        heap.delete(rid).wf(),
        !heap.delete(rid).is_live(rid),
        heap.delete(rid).contents[rid.page_id].is_stale(rid),
        forall|other: Rid|
            other != rid ==> (#[trigger] heap.delete(rid).is_live(other) <==> heap.is_live(other)),
        forall|other: Rid|
            other != rid && #[trigger] heap.is_live(other) ==> heap.delete(rid).record(other)
                == heap.record(other),
{
    let page = heap.contents[rid.page_id];
    let after = heap.delete(rid);
    page_laws::free_space_is_accounted_for(page, Seq::empty(), rid);
    page_laws::generations_stay_positive(page, Seq::empty(), rid);
    page_laws::stale_rids_stay_stale(page, rid, rid, Seq::empty());
    assert forall|i: int| 0 <= i < after.pages.len() implies {
        &&& after.contents.dom().contains(#[trigger] after.pages[i])
        &&& after.page(i).id == after.pages[i]
        &&& after.page(i).fits()
        &&& page_format::generations_positive(after.page(i).slots)
        &&& after.page(i).next == after.link(i)
    } by {
        assert(heap.contents.dom().contains(heap.pages[i]));
    }
    assert forall|other: Rid| other != rid implies (#[trigger] after.is_live(other)
        <==> heap.is_live(other)) && (heap.is_live(other) ==> after.record(other) == heap.record(
        other,
    )) by {
        page_laws::deletion_removes_one_row(page, rid, other);
    }
    assert forall|other: Rid| other != rid && #[trigger] heap.is_live(other) implies after.record(
        other,
    ) == heap.record(other) by {
        page_laws::deletion_removes_one_row(page, rid, other);
    }
}

/// An identifier that went stale never identifies a row of the heap again.
pub proof fn stale_rids_stay_stale(
    heap: Heap,
    stale: Rid,
    record: Seq<u8>,
    fresh: PageId,
    rid: Rid,
)
    requires
        heap.wf(),
        heap.can_grow_by(fresh),
        heap.pages.contains(stale.page_id),
        heap.contents[stale.page_id].is_stale(stale),
    ensures
        !heap.is_live(stale),
        heap.insert(record, fresh) matches Ok((after, _)) ==> after.contents[stale.page_id].is_stale(
            stale,
        ),
        heap.is_live(rid) ==> heap.delete(rid).contents[stale.page_id].is_stale(stale),
{
    page_laws::stale_rids_stay_stale(heap.contents[stale.page_id], stale, rid, record);
    if heap.insert(record, fresh) is Ok {
        lemma_stale_from(heap, 0, stale, record, fresh);
    }
}

/// A scan lists the rows of the heap, each with its identifier, and nothing else.
pub proof fn scans_list_the_rows(heap: Heap, rid: Rid, bytes: Seq<u8>)
    requires
        heap.wf(),
    ensures
        heap.rows(heap.pages.len() as int).contains(Record { rid, bytes }) <==> heap.is_live(rid)
            && heap.record(rid) == bytes,
{
    let count = heap.pages.len() as int;
    lemma_rows(heap, count, rid, bytes);
    if heap.is_live(rid) {
        let index = choose|i: int| 0 <= i < heap.pages.len() && heap.pages[i] == rid.page_id;
        assert(heap.pages[index] == rid.page_id);
    }
}

/// A scan lists no row twice.
pub proof fn scans_list_rows_once(heap: Heap, i: int, j: int)
    requires
        heap.wf(),
        0 <= i < j < heap.rows(heap.pages.len() as int).len(),
    ensures
        heap.rows(heap.pages.len() as int)[i].rid != heap.rows(heap.pages.len() as int)[j].rid,
{
    lemma_rows_once(heap, heap.pages.len() as int, i, j);
}

/// Opening a heap from its first page visits its pages in order, and ends with all
/// of them.
pub proof fn heaps_reopen(heap: Heap, index: int)
    requires
        heap.wf(),
        0 <= index < heap.pages.len(),
    ensures
        heap_model::open_step(heap.pages.take(index + 1), heap.page(index).next) == if index + 1
            < heap.pages.len() {
            Ok::<(Seq<PageId>, bool), HeapFileError>((heap.pages.take(index + 2), false))
        } else {
            Ok((heap.pages, true))
        },
{
    let visited = heap.pages.take(index + 1);
    assert(heap.contents.dom().contains(heap.pages[index]));
    if index + 1 < heap.pages.len() {
        let next = heap.pages[index + 1];
        if visited.contains(next) {
            let i = choose|i: int| 0 <= i < visited.len() && visited[i] == next;
            assert(heap.pages[i] == heap.pages[index + 1]);
        }
        assert(visited.push(next) =~= heap.pages.take(index + 2));
    } else {
        assert(visited =~= heap.pages);
    }
}

/// Opening a heap visits no page twice, and so it ends: there are no more distinct
/// pages than page numbers.
pub proof fn openings_end(pages: Seq<PageId>, next: Option<PageId>)
    requires
        pages.no_duplicates(),
    ensures
        pages.len() <= 0x1_0000_0000,
        heap_model::open_step(pages, next) matches Ok((found, _)) ==> found.no_duplicates(),
{
    let numbers = Seq::new(pages.len(), |i: int| pages[i].0 as int);
    assert(numbers.no_duplicates()) by {
        assert forall|i: int, j: int| 0 <= i < numbers.len() && 0 <= j < numbers.len() && i
            != j implies numbers[i] != numbers[j] by {
            assert(pages[i] != pages[j]);
        }
    }
    let all = vstd::set_lib::set_int_range(0, 0x1_0000_0000);
    vstd::set_lib::lemma_int_range(0, 0x1_0000_0000);
    numbers.unique_seq_to_set();
    assert(numbers.to_set().subset_of(all));
    vstd::set_lib::lemma_len_subset(numbers.to_set(), all);
}

/// A page that was just allocated can become a page of a heap whose pages were
/// allocated before.
pub proof fn new_pages_can_join_heaps(heap: Heap, header: Header)
    requires
        header.valid(),
        header.next_page_id < u32::MAX,
        forall|i: int|
            0 <= i < heap.pages.len() ==> header.allocated(#[trigger] heap.pages[i]),
    ensures
        heap.can_grow_by(PageId(header.next_page_id)),
{
}

/// Replacing a page by one with the same number and link keeps the heap a heap.
proof fn lemma_with_page(heap: Heap, index: int, page: HeapPage)
    requires
        heap.wf(),
        0 <= index < heap.pages.len(),
        page.id == heap.pages[index],
        page.next == heap.page(index).next,
        page.fits(),
        page_format::generations_positive(page.slots),
    ensures
        heap.with_page(heap.pages[index], page).wf(),
{
    let after = heap.with_page(heap.pages[index], page);
    assert(heap.contents.dom().contains(heap.pages[index]));
    assert forall|i: int| 0 <= i < after.pages.len() implies {
        &&& after.contents.dom().contains(#[trigger] after.pages[i])
        &&& after.page(i).id == after.pages[i]
        &&& after.page(i).fits()
        &&& page_format::generations_positive(after.page(i).slots)
        &&& after.page(i).next == after.link(i)
    } by {
        assert(heap.contents.dom().contains(heap.pages[i]));
    }
}

/// A row that is stored in one of the pages is one more row of the heap.
proof fn lemma_page_gains(heap: Heap, index: int, record: Seq<u8>)
    requires
        heap.wf(),
        0 <= index < heap.pages.len(),
        heap.page(index).insert_error(record.len() as int) is None,
    ensures
        ({
            let page = heap.page(index);
            let after = heap.with_page(heap.pages[index], page.insert(record));
            heap.gains(after, page.next_rid(), record) && after.wf()
        }),
{
    let page = heap.page(index);
    let rid = page.next_rid();
    let inserted = page.insert(record);
    let after = heap.with_page(heap.pages[index], inserted);
    assert(heap.contents.dom().contains(heap.pages[index]));
    page_laws::inserted_rows_read_back(page, record);
    page_laws::free_space_is_accounted_for(page, record, rid);
    page_laws::generations_stay_positive(page, record, rid);
    page_laws::insertion_uses_all_free_space(page, record.len() as int);
    lemma_with_page(heap, index, inserted);
    assert forall|other: Rid| other != rid implies (#[trigger] after.is_live(other)
        <==> heap.is_live(other)) by {
        if page.is_live(other) {
            page_laws::insertion_keeps_rows(page, record, other);
        }
        if inserted.is_live(other) {
            page_laws::insertion_adds_one_row(page, record, other);
        }
    }
    assert forall|other: Rid| #[trigger] heap.is_live(other) implies after.record(other)
        == heap.record(other) by {
        if page.is_live(other) {
            page_laws::insertion_keeps_rows(page, record, other);
        }
    }
}

/// The row in a page of its own is one more row of the heap.
proof fn lemma_append_gains(heap: Heap, record: Seq<u8>, fresh: PageId)
    requires
        heap.wf(),
        heap.can_grow_by(fresh),
        record.len() <= MAX_RECORD_SIZE,
    ensures
        ({
            let (after, rid) = heap.append(record, fresh);
            heap.gains(after, rid, record) && after.wf()
        }),
{
    let blank = heap_model::blank_page(fresh);
    let (after, rid) = heap.append(record, fresh);
    let filled = blank.insert(record);
    let last = heap.pages.last();
    let count = heap.pages.len() as int;
    assert(heap.pages[count - 1] == last);
    assert(heap.contents.dom().contains(heap.pages[count - 1]));
    assert(last != fresh);
    assert(blank.free_space() == PAGE_SIZE - PAGE_HEADER_SIZE);
    page_laws::inserted_rows_read_back(blank, record);
    page_laws::free_space_is_accounted_for(blank, record, rid);
    page_laws::generations_stay_positive(blank, record, rid);
    assert forall|i: int| 0 <= i < after.pages.len() implies {
        &&& after.contents.dom().contains(#[trigger] after.pages[i])
        &&& after.page(i).id == after.pages[i]
        &&& after.page(i).fits()
        &&& page_format::generations_positive(after.page(i).slots)
        &&& after.page(i).next == after.link(i)
    } by {
        if i < count {
            assert(heap.contents.dom().contains(heap.pages[i]));
            assert(heap.pages[i] != fresh);
            if i < count - 1 {
                assert(heap.pages[i] != heap.pages[count - 1]);
            }
        }
    }
    assert(after.pages.no_duplicates()) by {
        assert forall|i: int, j: int|
            0 <= i < after.pages.len() && 0 <= j < after.pages.len() && i
                != j implies after.pages[i] != after.pages[j] by {
            if i < count && j < count {
                assert(heap.pages[i] != heap.pages[j]);
            } else if i < count {
                assert(heap.pages.contains(heap.pages[i]));
            } else {
                assert(heap.pages.contains(heap.pages[j]));
            }
        }
    }
    assert(after.pages[count] == fresh);
    assert forall|page_id: PageId| heap.pages.contains(page_id) implies
        #[trigger] after.pages.contains(page_id) by {
        let i = choose|i: int| 0 <= i < count && heap.pages[i] == page_id;
        assert(after.pages[i] == page_id);
    }
    assert forall|page_id: PageId| #[trigger] after.pages.contains(page_id) implies page_id == fresh
        || heap.pages.contains(page_id) by {
        let i = choose|i: int| 0 <= i < after.pages.len() && after.pages[i] == page_id;
        if i < count {
            assert(heap.pages[i] == page_id);
        }
    }
    assert forall|other: Rid| other != rid implies (#[trigger] after.is_live(other)
        <==> heap.is_live(other)) by {
        if other.page_id == fresh && filled.is_live(other) {
            page_laws::insertion_adds_one_row(blank, record, other);
        }
    }
}

proof fn lemma_insert_from(heap: Heap, index: int, record: Seq<u8>, fresh: PageId)
    requires
        heap.wf(),
        heap.can_grow_by(fresh),
        record.len() <= MAX_RECORD_SIZE,
        0 <= index,
        heap.insert_from(index, record, fresh) is Ok,
    ensures
        ({
            let (after, rid) = heap.insert_from(index, record, fresh)->Ok_0;
            heap.gains(after, rid, record) && after.wf()
        }),
    decreases heap.pages.len() - index,
{
    if index >= heap.pages.len() {
        lemma_append_gains(heap, record, fresh);
    } else if heap.page(index).insert_error(record.len() as int) is None {
        lemma_page_gains(heap, index, record);
    } else {
        lemma_insert_from(heap, index + 1, record, fresh);
    }
}

proof fn lemma_insert_from_succeeds(heap: Heap, index: int, record: Seq<u8>, fresh: PageId)
    requires
        heap.wf(),
        record.len() <= MAX_RECORD_SIZE,
        0 <= index,
        forall|i: int|
            0 <= i < heap.pages.len() ==> (#[trigger] heap.page(i)).directory_growth()
                <= heap.page(i).free_space(),
    ensures
        heap.insert_from(index, record, fresh) is Ok,
    decreases heap.pages.len() - index,
{
    if index < heap.pages.len() {
        assert(heap.page(index).directory_growth() <= heap.page(index).free_space());
        lemma_insert_from_succeeds(heap, index + 1, record, fresh);
    }
}

proof fn lemma_first_fit(
    heap: Heap,
    start: int,
    record: Seq<u8>,
    fresh: PageId,
    index: int,
)
    requires
        heap.insert_from(start, record, fresh) is Ok,
        0 <= start <= index < heap.pages.len(),
        heap.page(index).insert_error(record.len() as int) is None,
        forall|j: int|
            0 <= j < index ==> (#[trigger] heap.page(j)).insert_error(record.len() as int) is Some,
    ensures
        heap.insert_from(start, record, fresh)->Ok_0.1 == heap.page(index).next_rid(),
        heap.insert_from(start, record, fresh)->Ok_0.0.pages == heap.pages,
    decreases index - start,
{
    if start < index {
        assert(heap.page(start).insert_error(record.len() as int) is Some);
        lemma_first_fit(heap, start + 1, record, fresh, index);
    }
}

proof fn lemma_stale_from(heap: Heap, index: int, stale: Rid, record: Seq<u8>, fresh: PageId)
    requires
        heap.wf(),
        heap.can_grow_by(fresh),
        0 <= index,
        heap.pages.contains(stale.page_id),
        heap.contents[stale.page_id].is_stale(stale),
        heap.insert_from(index, record, fresh) is Ok,
    ensures
        heap.insert_from(index, record, fresh)->Ok_0.0.contents[stale.page_id].is_stale(stale),
    decreases heap.pages.len() - index,
{
    if index < heap.pages.len() {
        if heap.page(index).insert_error(record.len() as int) is None {
            page_laws::stale_rids_stay_stale(heap.page(index), stale, stale, record);
        } else {
            lemma_stale_from(heap, index + 1, stale, record, fresh);
        }
    }
}

/// The rows of a page are listed with their identifiers.
proof fn lemma_first_records(page: HeapPage, count: int, rid: Rid, bytes: Seq<u8>)
    requires
        0 <= count <= page.live_rids().len(),
    ensures
        heap_model::first_records(page, count).contains(Record { rid, bytes }) <==> page.record(rid)
            == bytes && exists|i: int| 0 <= i < count && #[trigger] page.live_rids()[i] == rid,
    decreases count,
{
    if count > 0 {
        lemma_first_records(page, count - 1, rid, bytes);
        let shorter = heap_model::first_records(page, count - 1);
        let records = heap_model::first_records(page, count);
        let wanted = Record { rid, bytes };
        if shorter.contains(wanted) {
            let i = choose|i: int| 0 <= i < shorter.len() && shorter[i] == wanted;
            assert(records[i] == wanted);
        }
        if records.contains(wanted) {
            let i = choose|i: int| 0 <= i < records.len() && records[i] == wanted;
            if i < shorter.len() {
                assert(shorter[i] == wanted);
            } else {
                assert(page.live_rids()[count - 1] == rid);
            }
        }
        if page.record(rid) == bytes && page.live_rids()[count - 1] == rid {
            assert(records[shorter.len() as int] == wanted);
        }
    }
}

/// The rows of the first pages are listed with their identifiers.
proof fn lemma_rows(heap: Heap, count: int, rid: Rid, bytes: Seq<u8>)
    requires
        heap.wf(),
        0 <= count <= heap.pages.len(),
    ensures
        heap.rows(count).contains(Record { rid, bytes }) <==> exists|i: int|
            0 <= i < count && #[trigger] heap.pages[i] == rid.page_id && heap.page(i).is_live(rid)
                && heap.page(i).record(rid) == bytes,
    decreases count,
{
    if count > 0 {
        let page = heap.page(count - 1);
        let listed = heap_model::page_records(page);
        let shorter = heap.rows(count - 1);
        let rows = heap.rows(count);
        let wanted = Record { rid, bytes };
        lemma_rows(heap, count - 1, rid, bytes);
        assert(heap.contents.dom().contains(heap.pages[count - 1]));
        lemma_first_records(page, page.live_rids().len() as int, rid, bytes);
        page_laws::live_rids_list_the_rows(page, page.slots.len() as int);
        assert(listed.contains(wanted) <==> page.is_live(rid) && page.record(rid) == bytes) by {
            if page.is_live(rid) && page.record(rid) == bytes {
                assert(page.live_rids().contains(rid));
                let i = choose|i: int|
                    0 <= i < page.live_rids().len() && page.live_rids()[i] == rid;
                assert(page.live_rids()[i] == rid);
            }
            if listed.contains(wanted) {
                assert(page.live_rids().contains(rid));
            }
        }
        if shorter.contains(wanted) {
            let i = choose|i: int| 0 <= i < shorter.len() && shorter[i] == wanted;
            assert(rows[i] == wanted);
        }
        if listed.contains(wanted) {
            let i = choose|i: int| 0 <= i < listed.len() && listed[i] == wanted;
            assert(rows[shorter.len() + i] == wanted);
            assert(heap.pages[count - 1] == rid.page_id);
        }
        if rows.contains(wanted) {
            let i = choose|i: int| 0 <= i < rows.len() && rows[i] == wanted;
            if i < shorter.len() {
                assert(shorter[i] == wanted);
            } else {
                assert(listed[i - shorter.len()] == wanted);
            }
        }
    }
}

/// The rows of a page are listed in the order of their identifiers.
pub proof fn lemma_records_at(page: HeapPage, count: int)
    requires
        0 <= count <= page.live_rids().len(),
    ensures
        heap_model::first_records(page, count).len() == count,
        forall|i: int|
            0 <= i < count ==> (#[trigger] heap_model::first_records(page, count)[i]).rid
                == page.live_rids()[i],
    decreases count,
{
    if count > 0 {
        lemma_records_at(page, count - 1);
    }
}

/// The rows of the first pages have distinct identifiers.
proof fn lemma_rows_once(heap: Heap, count: int, i: int, j: int)
    requires
        heap.wf(),
        0 <= count <= heap.pages.len(),
        0 <= i < j < heap.rows(count).len(),
    ensures
        heap.rows(count)[i].rid != heap.rows(count)[j].rid,
    decreases count,
{
    if count > 0 {
        let page = heap.page(count - 1);
        let listed = heap_model::page_records(page);
        let shorter = heap.rows(count - 1);
        let rids = page.live_rids();
        assert(heap.contents.dom().contains(heap.pages[count - 1]));
        page_laws::live_rids_list_the_rows(page, page.slots.len() as int);
        if j < shorter.len() {
            lemma_rows_once(heap, count - 1, i, j);
        } else {
            let last = j - shorter.len();
            lemma_records_at(page, rids.len() as int);
            assert(rids.contains(rids[last]));
            assert(heap.rows(count)[j].rid == rids[last]);
            if i < shorter.len() {
                let row = shorter[i];
                lemma_rows(heap, count - 1, row.rid, row.bytes);
                assert(shorter.contains(row));
            } else {
                assert(heap.rows(count)[i].rid == rids[i - shorter.len()]);
            }
        }
    }
}

} // verus!
