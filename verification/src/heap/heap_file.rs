//! Heaps of rows in linked pages.
//!
//! A heap file never fetches a page: each operation says which page it needs, and
//! goes on when that page is pinned.

use vstd::prelude::*;

use crate::codec;
use crate::message::{self, Message};
use crate::storage::page;
use crate::storage::{BufferPoolError, Page, PageId, Rid, PAGE_HEADER_SIZE, PAGE_SIZE};

use super::heap_model::{self, Record};
use super::page_format;
use super::page_laws;
use super::page_layout;
use super::page_lemmas;
use super::slotted_page::{self, SlottedPageError, SLOT_ENTRY_SIZE};

verus! {

broadcast use page::page_length;

/// The largest row that fits into a page of its own.
pub const MAX_RECORD_SIZE: usize = PAGE_SIZE - PAGE_HEADER_SIZE - SLOT_ENTRY_SIZE;

#[derive(Clone, Debug, PartialEq, Eq)]
pub struct HeapRecord {
    pub rid: Rid,
    pub bytes: Vec<u8>,
}

impl View for HeapRecord {
    type V = Record;

    open spec fn view(&self) -> Record {
        Record { rid: self.rid, bytes: self.bytes@ }
    }
}

/// The rows that `records` hold.
pub open spec fn records_of(records: Seq<HeapRecord>) -> Seq<Record> {
    Seq::new(records.len(), |i: int| records[i]@)
}

/// A page that an operation is to be given, for writing.
#[derive(Clone, Copy, Debug, PartialEq, Eq, Structural)]
pub enum PageRequest {
    /// This page.
    Write(PageId),
    /// A new page.
    Allocate,
}

/// What an insertion does next.
#[derive(Clone, Copy, Debug, PartialEq, Eq, Structural)]
pub enum InsertStep {
    /// Try the page at this place of the heap.
    Visit(usize),
    /// Put the row into a new page, as no page has space.
    Append,
    /// Link the last page to the new one, which holds the row.
    Link(Rid, PageId),
    /// Nothing: the row is stored.
    Inserted(Rid),
}

/// A heap file whose pages are being listed.
pub struct HeapOpening {
    pages: Vec<PageId>,
}

impl View for HeapOpening {
    type V = Seq<PageId>;

    /// The pages found so far; the last one is to be visited next.
    closed spec fn view(&self) -> Seq<PageId> {
        self.pages@
    }
}

/// What opening a heap file does next.
pub enum OpenStep {
    /// Visit the next page.
    Visit(HeapOpening),
    /// The heap file is open.
    Opened(HeapFile),
}

impl HeapOpening {
    /// The page to visit next.
    pub fn page_id(&self) -> (page_id: PageId)
        requires
            self@.len() > 0,
        ensures
            page_id == self@.last(),
    {
        self.pages[self.pages.len() - 1]
    }

    /// Follows the link of the page that was to be visited.
    pub(super) fn visit_page(self, page: &Page) -> (result: Result<OpenStep, HeapFileError>)
        requires
            self@.len() > 0,
        ensures
            follows_link(self@, page@, result),
    {
        match slotted_page::validate(page) {
            Ok(()) => {},
            Err(error) => {
                return Err(HeapFileError::Page(Box::new(error)));
            },
        }
        match slotted_page::next_link(page) {
            None => Ok(OpenStep::Opened(HeapFile { pages: self.pages })),
            Some(page_id) => {
                if contains_page(&self.pages, page_id) {
                    return Err(HeapFileError::PageChainCycle(page_id));
                }
                let mut pages = self.pages;
                pages.push(page_id);
                Ok(OpenStep::Visit(HeapOpening { pages }))
            },
        }
    }
}

/// Whether this comes of opening a heap whose pages so far are these, with the
/// bytes of the last one.
pub open spec fn follows_link(
    pages: Seq<PageId>,
    bytes: Seq<u8>,
    result: Result<OpenStep, HeapFileError>,
) -> bool {
    match heap_model::page_error(bytes) {
        Some(error) => result matches Err(found) && found == error,
        None => match heap_model::open_step(pages, page_format::next_page(bytes)) {
            Err(error) => result matches Err(found) && found == error,
            Ok((found, opened)) => match result {
                Ok(OpenStep::Opened(heap)) => opened && heap@ == found,
                Ok(OpenStep::Visit(opening)) => !opened && opening@ == found,
                Err(_) => false,
            },
        },
    }
}

/// A linked sequence of slotted pages belonging to one table or system heap.
pub struct HeapFile {
    pages: Vec<PageId>,
}

impl View for HeapFile {
    type V = Seq<PageId>;

    /// The pages of the heap, in the order in which they are linked.
    closed spec fn view(&self) -> Seq<PageId> {
        self.pages@
    }
}

impl HeapFile {
    /// Makes a new heap of a page that was just allocated.
    pub(super) fn create_on(page: &mut Page) -> (heap: Self)
        ensures
            heap@ == seq![old(page).spec_id()],
            final(page).spec_id() == old(page).spec_id(),
            final(page).spec_dirty(),
            page_format::well_formed(final(page)@),
            page_format::content(final(page).spec_id(), final(page)@) == heap_model::blank_page(
                old(page).spec_id(),
            ),
            final(page)@ == page_layout::initialized(old(page)@),
    {
        slotted_page::initialize(page);
        let mut pages: Vec<PageId> = Vec::new();
        pages.push(page.id());
        assert(pages@ =~= seq![page.spec_id()]);
        Self { pages }
    }

    /// Starts to open the heap that begins with this page.
    pub fn open(first_page_id: PageId) -> (opening: HeapOpening)
        ensures
            opening@ == seq![first_page_id],
    {
        let mut pages: Vec<PageId> = Vec::new();
        pages.push(first_page_id);
        assert(pages@ =~= seq![first_page_id]);
        HeapOpening { pages }
    }

    pub fn first_page_id(&self) -> (page_id: PageId)
        requires
            self@.len() > 0,
        ensures
            page_id == self@[0],
    {
        self.pages[0]
    }

    pub fn last_page_id(&self) -> (page_id: PageId)
        requires
            self@.len() > 0,
        ensures
            page_id == self@.last(),
    {
        self.pages[self.pages.len() - 1]
    }

    pub fn page_count(&self) -> (count: usize)
        ensures
            count == self@.len(),
    {
        self.pages.len()
    }

    /// The page at this place in the heap.
    pub fn page_id(&self, index: usize) -> (page_id: PageId)
        requires
            index < self@.len(),
        ensures
            page_id == self@[index as int],
    {
        self.pages[index]
    }

    /// Starts to insert a row: the first page is tried first.
    pub fn insert(&self, record: &[u8]) -> (result: Result<InsertStep, HeapFileError>)
        ensures
            result == if record@.len() > MAX_RECORD_SIZE {
                Err::<InsertStep, _>(
                    HeapFileError::RecordTooLarge {
                        size: record@.len() as usize,
                        maximum: MAX_RECORD_SIZE,
                    },
                )
            } else {
                Ok(InsertStep::Visit(0))
            },
    {
        if record.len() > MAX_RECORD_SIZE {
            return Err(
                HeapFileError::RecordTooLarge { size: record.len(), maximum: MAX_RECORD_SIZE },
            );
        }
        Ok(InsertStep::Visit(0))
    }

    /// The page that a step of an insertion is to be given.
    pub fn insert_request(&self, step: InsertStep) -> (request: Option<PageRequest>)
        requires
            self@.len() > 0,
            step matches InsertStep::Visit(index) ==> index < self@.len(),
        ensures
            request == heap_model::insert_request(self@, step),
    {
        match step {
            InsertStep::Visit(index) => Some(PageRequest::Write(self.pages[index])),
            InsertStep::Append => Some(PageRequest::Allocate),
            InsertStep::Link(_, _) => Some(PageRequest::Write(self.last_page_id())),
            InsertStep::Inserted(_) => None,
        }
    }

    /// Performs one step of an insertion on the page that it asked for.
    pub(super) fn insert_on(&mut self, step: InsertStep, page: &mut Page, record: &[u8]) -> (result:
        Result<InsertStep, HeapFileError>)
        requires
            record@.len() <= MAX_RECORD_SIZE,
            step matches InsertStep::Visit(index) ==> index < old(self)@.len(),
        ensures
            final(page).spec_id() == old(page).spec_id(),
            match heap_model::insert_page_error(step, old(page)@) {
                Some(error) => {
                    &&& result == Err::<InsertStep, _>(error)
                    &&& *final(page) == *old(page)
                    &&& final(self)@ == old(self)@
                },
                None => {
                    let before = page_format::content(old(page).spec_id(), old(page)@);
                    let after = page_format::content(final(page).spec_id(), final(page)@);
                    &&& result == heap_model::insert_step(old(self)@, step, before, record@)
                    &&& after == heap_model::page_after_step(step, before, record@)
                    &&& if heap_model::changes_page(step, before, record@) {
                        &&& page_format::well_formed(final(page)@)
                        &&& final(page).spec_dirty()
                        &&& heap_model::step_layout(
                            step,
                            old(page).spec_id(),
                            old(page)@,
                            final(page)@,
                            record@,
                        )
                    } else {
                        *final(page) == *old(page)
                    }
                    &&& result is Ok ==> final(self)@ == heap_model::pages_after_step(
                        old(self)@,
                        step,
                    )
                    &&& result is Err ==> final(self)@ == old(self)@
                },
            },
    {
        match step {
            InsertStep::Visit(index) => self.try_page(index, page, record),
            InsertStep::Append => {
                let rid = fill_page(page, record);
                Ok(InsertStep::Link(rid, page.id()))
            },
            InsertStep::Link(rid, fresh) => {
                match slotted_page::validate(page) {
                    Ok(()) => {},
                    Err(error) => {
                        return Err(HeapFileError::Page(Box::new(error)));
                    },
                }
                proof {
                    page_lemmas::valid_pages_are_well_formed(page@);
                }
                slotted_page::link_page(page, Some(fresh));
                self.pages.push(fresh);
                Ok(InsertStep::Inserted(rid))
            },
            InsertStep::Inserted(rid) => Ok(InsertStep::Inserted(rid)),
        }
    }

    /// Tries to store a row in the page at place `index` of the heap.
    fn try_page(&self, index: usize, page: &mut Page, record: &[u8]) -> (result: Result<
        InsertStep,
        HeapFileError,
    >)
        requires
            index < self@.len(),
        ensures
            final(page).spec_id() == old(page).spec_id(),
            match heap_model::page_error(old(page)@) {
                Some(error) => {
                    &&& result == Err::<InsertStep, _>(error)
                    &&& *final(page) == *old(page)
                },
                None => {
                    let step = InsertStep::Visit(index);
                    let before = page_format::content(old(page).spec_id(), old(page)@);
                    let after = page_format::content(final(page).spec_id(), final(page)@);
                    &&& result == heap_model::insert_step(self@, step, before, record@)
                    &&& after == heap_model::page_after_step(step, before, record@)
                    &&& if heap_model::changes_page(step, before, record@) {
                        &&& page_format::well_formed(final(page)@)
                        &&& final(page).spec_dirty()
                        &&& heap_model::step_layout(
                            step,
                            old(page).spec_id(),
                            old(page)@,
                            final(page)@,
                            record@,
                        )
                    } else {
                        *final(page) == *old(page)
                    }
                },
            },
    {
        match slotted_page::validate(page) {
            Ok(()) => {},
            Err(error) => {
                return Err(HeapFileError::Page(Box::new(error)));
            },
        }
        proof {
            page_lemmas::valid_pages_are_well_formed(page@);
        }
        let result = slotted_page::insert_record(page, record);
        match result {
            Ok(rid) => Ok(InsertStep::Inserted(rid)),
            Err(error) => match error {
                SlottedPageError::NoSpace { .. } => {
                    if index < self.pages.len() - 1 {
                        Ok(InsertStep::Visit(index + 1))
                    } else {
                        Ok(InsertStep::Append)
                    }
                },
                _ => Err(HeapFileError::Page(Box::new(error))),
            },
        }
    }

    /// The page that holds the row of a heap with this identifier.
    pub fn locate(&self, rid: Rid) -> (result: Result<PageId, HeapFileError>)
        ensures
            result == if self@.contains(rid.page_id) {
                Ok::<PageId, HeapFileError>(rid.page_id)
            } else {
                Err(HeapFileError::RidOutsideHeap(rid))
            },
    {
        match self.ensure_owned_rid(rid) {
            Ok(()) => Ok(rid.page_id()),
            Err(error) => Err(error),
        }
    }

    /// Copies the row with this identifier out of its page.
    pub(super) fn get_from(&self, page: &Page, rid: Rid) -> (result: Result<
        Vec<u8>,
        HeapFileError,
    >)
        requires
            self@.contains(rid.page_id),
        ensures
            match access_error(page.spec_id(), page@, rid) {
                Some(error) => result matches Err(found) && found == error,
                None => result matches Ok(bytes) && bytes@ == page_format::content(
                    page.spec_id(),
                    page@,
                ).record(rid),
            },
    {
        match slotted_page::validate(page) {
            Ok(()) => {},
            Err(error) => {
                return Err(HeapFileError::Page(Box::new(error)));
            },
        }
        proof {
            page_lemmas::valid_pages_are_well_formed(page@);
        }
        match slotted_page::read_record(page, rid) {
            Ok(record) => Ok(copy_of(record)),
            Err(error) => Err(HeapFileError::Page(Box::new(error))),
        }
    }

    /// Deletes the row with this identifier from its page.
    pub(super) fn delete_from(&self, page: &mut Page, rid: Rid) -> (result: Result<
        (),
        HeapFileError,
    >)
        requires
            self@.contains(rid.page_id),
        ensures
            final(page).spec_id() == old(page).spec_id(),
            match access_error(old(page).spec_id(), old(page)@, rid) {
                Some(error) => result == Err::<(), _>(error) && *final(page) == *old(page),
                None => {
                    &&& result is Ok
                    &&& page_format::well_formed(final(page)@)
                    &&& page_format::content(final(page).spec_id(), final(page)@)
                        == page_format::content(old(page).spec_id(), old(page)@).delete(rid)
                    &&& page_layout::deleted(old(page)@, final(page)@, rid.slot_id.0 as int)
                    &&& final(page).spec_dirty()
                },
            },
    {
        match slotted_page::validate(page) {
            Ok(()) => {},
            Err(error) => {
                return Err(HeapFileError::Page(Box::new(error)));
            },
        }
        proof {
            page_lemmas::valid_pages_are_well_formed(page@);
        }
        match slotted_page::delete_record(page, rid) {
            Ok(()) => Ok(()),
            Err(error) => Err(HeapFileError::Page(Box::new(error))),
        }
    }

    /// Starts to list the rows.
    pub fn scan(&self) -> (scan: HeapScan)
        ensures
            scan@ == (ScanState { index: 0, records: Seq::empty() }),
    {
        let scan = HeapScan { index: 0, records: Vec::new() };
        assert(records_of(scan.records@) =~= Seq::empty());
        scan
    }

    pub(super) fn ensure_owned_rid(&self, rid: Rid) -> (result: Result<(), HeapFileError>)
        ensures
            result == if self@.contains(rid.page_id) {
                Ok::<(), HeapFileError>(())
            } else {
                Err(HeapFileError::RidOutsideHeap(rid))
            },
    {
        if !contains_page(&self.pages, rid.page_id()) {
            return Err(HeapFileError::RidOutsideHeap(rid));
        }
        Ok(())
    }
}

/// The rows of a heap that are being listed.
pub struct HeapScan {
    index: usize,
    records: Vec<HeapRecord>,
}

/// How far a scan is: the place of the next page, and the rows so far.
#[verifier::ext_equal]
pub struct ScanState {
    pub index: int,
    pub records: Seq<Record>,
}

impl View for HeapScan {
    type V = ScanState;

    closed spec fn view(&self) -> ScanState {
        ScanState { index: self.index as int, records: records_of(self.records@) }
    }
}

impl HeapScan {
    /// Whether every page was visited.
    pub fn is_complete(&self, heap: &HeapFile) -> (complete: bool)
        ensures
            complete == (self@.index >= heap@.len()),
    {
        self.index >= heap.pages.len()
    }

    /// The page that the scan is to be given, for reading.
    pub fn page_id(&self, heap: &HeapFile) -> (page_id: PageId)
        requires
            self@.index < heap@.len(),
        ensures
            page_id == heap@[self@.index],
    {
        heap.pages[self.index]
    }

    /// Lists the rows of the page that the scan asked for.
    pub(super) fn visit_page(&mut self, heap: &HeapFile, page: &Page) -> (result: Result<(), HeapFileError>)
        requires
            old(self)@.index < heap@.len(),
        ensures
            match heap_model::page_error(page@) {
                Some(error) => result == Err::<(), _>(error) && final(self)@ == old(self)@,
                None => {
                    &&& result is Ok
                    &&& final(self)@ == (ScanState {
                        index: old(self)@.index + 1,
                        records: old(self)@.records + heap_model::page_records(
                            page_format::content(page.spec_id(), page@),
                        ),
                    })
                },
            },
    {
        let count: usize = heap.pages.len();
        assert(self.index < count);
        match list_rows(page, &mut self.records) {
            Ok(()) => {
                self.index = self.index + 1;
                Ok(())
            },
            Err(error) => Err(error),
        }
    }

    pub fn finish(self) -> (records: Vec<HeapRecord>)
        ensures
            records_of(records@) == self@.records,
    {
        self.records
    }
}

/// Adds copies of the rows of a page to `records`.
fn list_rows(page: &Page, records: &mut Vec<HeapRecord>) -> (result: Result<(), HeapFileError>)
    ensures
        match heap_model::page_error(page@) {
            Some(error) => {
                &&& result == Err::<(), _>(error)
                &&& final(records)@ == old(records)@
            },
            None => {
                &&& result is Ok
                &&& records_of(final(records)@) == records_of(old(records)@)
                    + heap_model::page_records(page_format::content(page.spec_id(), page@))
            },
        },
{
    match slotted_page::validate(page) {
        Ok(()) => {},
        Err(error) => {
            return Err(HeapFileError::Page(Box::new(error)));
        },
    }
    let ghost content = page_format::content(page.spec_id(), page@);
    proof {
        page_lemmas::valid_pages_are_well_formed(page@);
        page_laws::well_formed_pages_fit(page.spec_id(), page@);
        page_laws::live_rids_list_the_rows(content, content.slots.len() as int);
    }
    let rids = slotted_page::record_ids(page);
    let mut index: usize = 0;
    while index < rids.len()
        invariant
            index <= rids@.len(),
            page_format::well_formed(page@),
            content == page_format::content(page.spec_id(), page@),
            rids@ == content.live_rids(),
            forall|rid: Rid| #[trigger]
                rids@.contains(rid) ==> content.is_live(rid),
            records_of(records@) == records_of(old(records)@) + heap_model::first_records(
                content,
                index as int,
            ),
        decreases rids@.len() - index,
    {
        let rid = rids[index];
        assert(rids@.contains(rid));
        let ghost before = records_of(records@);
        let bytes = copy_of(slotted_page::read_record(page, rid).unwrap());
        let record = HeapRecord { rid, bytes };
        records.push(record);
        assert(records_of(records@) =~= before.push(record@));
        assert(records_of(records@) =~= records_of(old(records)@) + heap_model::first_records(
            content,
            index + 1,
        ));
        index += 1;
    }
    Ok(())
}

/// Stores a row in a page that was just allocated.
fn fill_page(page: &mut Page, record: &[u8]) -> (rid: Rid)
    requires
        record@.len() <= MAX_RECORD_SIZE,
    ensures
        final(page).spec_id() == old(page).spec_id(),
        final(page).spec_dirty(),
        page_format::well_formed(final(page)@),
        ({
            let blank = heap_model::blank_page(old(page).spec_id());
            &&& rid == blank.next_rid()
            &&& page_format::content(final(page).spec_id(), final(page)@) == blank.insert(record@)
        }),
        page_layout::inserted(
            old(page).spec_id(),
            page_layout::initialized(old(page)@),
            final(page)@,
            record@.len() as int,
        ),
{
    slotted_page::initialize(page);
    proof {
        let blank = heap_model::blank_page(page.spec_id());
        assert(blank.free_space() == PAGE_SIZE - PAGE_HEADER_SIZE);
        assert(blank.insert_error(record@.len() as int) is None);
    }
    slotted_page::insert_record(page, record).unwrap()
}

/// Why the row with this identifier cannot be reached in a page with these bytes;
/// `None` where it can.
pub open spec fn access_error(page_id: PageId, bytes: Seq<u8>, rid: Rid) -> Option<HeapFileError> {
    if heap_model::page_error(bytes) is Some {
        heap_model::page_error(bytes)
    } else if !page_format::content(page_id, bytes).is_live(rid) {
        Some(HeapFileError::Page(Box::new(SlottedPageError::InvalidRid(rid))))
    } else {
        None
    }
}

fn contains_page(pages: &Vec<PageId>, page_id: PageId) -> (contained: bool)
    ensures
        contained == pages@.contains(page_id),
{
    let mut index: usize = 0;
    while index < pages.len()
        invariant
            index <= pages@.len(),
            forall|j: int| 0 <= j < index ==> pages@[j] != page_id,
        decreases pages@.len() - index,
    {
        if pages[index] == page_id {
            assert(pages@[index as int] == page_id);
            return true;
        }
        index += 1;
    }
    false
}

fn copy_of(bytes: &[u8]) -> (copy: Vec<u8>)
    ensures
        copy@ == bytes@,
{
    let mut copy: Vec<u8> = Vec::new();
    codec::append(&mut copy, bytes);
    assert(copy@ =~= bytes@);
    copy
}

#[derive(Clone, Debug, PartialEq, Eq)]
pub enum HeapFileError {
    Buffer(Box<BufferPoolError>),
    Page(Box<SlottedPageError>),
    RecordTooLarge { size: usize, maximum: usize },
    PageChainCycle(PageId),
    RidOutsideHeap(Rid),
}

impl HeapFileError {
    pub open spec fn text(self) -> Seq<char> {
        match self {
            HeapFileError::Buffer(error) => error.text(),
            HeapFileError::Page(error) => error.text(),
            HeapFileError::RecordTooLarge { size, maximum } => {
                "record is "@ + message::decimal(size as int) + " bytes; maximum is "@
                    + message::decimal(maximum as int)
            },
            HeapFileError::PageChainCycle(page_id) => {
                "heap page chain contains a cycle at page "@ + message::decimal(page_id.0 as int)
            },
            HeapFileError::RidOutsideHeap(rid) => {
                "RID belongs to a different heap file: "@ + message::rid_text(rid)
            },
        }
    }

    /// What went wrong, for people to read.
    pub fn message(&self) -> (message: String)
        ensures
            message@ == self.text(),
    {
        match self {
            Self::Buffer(error) => error.message(),
            Self::Page(error) => error.message(),
            Self::RecordTooLarge { size, maximum } => Message::new("record is ").number(
                *size as u64,
            ).text(" bytes; maximum is ").number(*maximum as u64).finish(),
            Self::PageChainCycle(page_id) => Message::new(
                "heap page chain contains a cycle at page ",
            ).number(page_id.get() as u64).finish(),
            Self::RidOutsideHeap(rid) => Message::new(
                "RID belongs to a different heap file: ",
            ).rid(*rid).finish(),
        }
    }
}

impl From<BufferPoolError> for HeapFileError {
    fn from(error: BufferPoolError) -> (converted: Self) {
        Self::Buffer(Box::new(error))
    }
}

impl vstd::std_specs::convert::FromSpecImpl<BufferPoolError> for HeapFileError {
    open spec fn obeys_from_spec() -> bool {
        true
    }

    open spec fn from_spec(error: BufferPoolError) -> Self {
        HeapFileError::Buffer(Box::new(error))
    }
}

impl From<SlottedPageError> for HeapFileError {
    fn from(error: SlottedPageError) -> (converted: Self) {
        Self::Page(Box::new(error))
    }
}

impl vstd::std_specs::convert::FromSpecImpl<SlottedPageError> for HeapFileError {
    open spec fn obeys_from_spec() -> bool {
        true
    }

    open spec fn from_spec(error: SlottedPageError) -> Self {
        HeapFileError::Page(Box::new(error))
    }
}

} // verus!
