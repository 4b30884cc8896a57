//! What a heap file does, page by page.

use vstd::prelude::*;

use crate::storage::{PageId, Rid};

use super::heap_file::{HeapFileError, InsertStep, PageRequest};
use super::page_format::{self, HeapPage};
use super::page_layout;
use super::slotted_page::{self, SlottedPageError};

verus! {

/// A row with its identifier.
pub struct Record {
    pub rid: Rid,
    pub bytes: Seq<u8>,
}

/// What opening a heap file comes to after it read the page that it visited last
/// and is linked to `next`: the pages so far, and whether they are all.
pub open spec fn open_step(pages: Seq<PageId>, next: Option<PageId>) -> Result<
    (Seq<PageId>, bool),
    HeapFileError,
> {
    match next {
        None => Ok((pages, true)),
        Some(page_id) => if pages.contains(page_id) {
            Err(HeapFileError::PageChainCycle(page_id))
        } else {
            Ok((pages.push(page_id), false))
        },
    }
}

/// What an insertion does after a step for which it was given a page that holds
/// `page`.
pub open spec fn insert_step(
    pages: Seq<PageId>,
    step: InsertStep,
    page: HeapPage,
    record: Seq<u8>,
) -> Result<InsertStep, HeapFileError> {
    match step {
        InsertStep::Visit(index) => match page.insert_error(record.len() as int) {
            None => Ok(InsertStep::Inserted(page.next_rid())),
            Some(SlottedPageError::NoSpace { .. }) => if index + 1 < pages.len() {
                Ok(InsertStep::Visit((index + 1) as usize))
            } else {
                Ok(InsertStep::Append)
            },
            Some(error) => Err(HeapFileError::Page(Box::new(error))),
        },
        InsertStep::Append => Ok(InsertStep::Link(blank_page(page.id).next_rid(), page.id)),
        InsertStep::Link(rid, _) => Ok(InsertStep::Inserted(rid)),
        InsertStep::Inserted(rid) => Ok(InsertStep::Inserted(rid)),
    }
}

/// What the page holds after that step.
pub open spec fn page_after_step(step: InsertStep, page: HeapPage, record: Seq<u8>) -> HeapPage {
    match step {
        InsertStep::Visit(_) => if page.insert_error(record.len() as int) is None {
            page.insert(record)
        } else {
            page
        },
        InsertStep::Append => blank_page(page.id).insert(record),
        InsertStep::Link(_, fresh) => HeapPage {
            next: slotted_page::stored_link(Some(fresh)),
            ..page
        },
        InsertStep::Inserted(_) => page,
    }
}

/// Whether that step changes the page.
pub open spec fn changes_page(step: InsertStep, page: HeapPage, record: Seq<u8>) -> bool {
    match step {
        InsertStep::Visit(_) => page.insert_error(record.len() as int) is None,
        InsertStep::Append | InsertStep::Link(_, _) => true,
        InsertStep::Inserted(_) => false,
    }
}

/// Whether that step, where it changes the page, leaves these bytes in it.
pub open spec fn step_layout(
    step: InsertStep,
    page_id: PageId,
    before: Seq<u8>,
    after: Seq<u8>,
    record: Seq<u8>,
) -> bool {
    let length = record.len() as int;
    match step {
        InsertStep::Visit(_) => page_layout::inserted(page_id, before, after, length),
        InsertStep::Append => page_layout::inserted(
            page_id,
            page_layout::initialized(before),
            after,
            length,
        ),
        InsertStep::Link(_, _) => page_layout::linked(before, after),
        InsertStep::Inserted(_) => after == before,
    }
}

/// The pages of the heap after that step.
pub open spec fn pages_after_step(pages: Seq<PageId>, step: InsertStep) -> Seq<PageId> {
    match step {
        InsertStep::Link(_, fresh) => pages.push(fresh),
        _ => pages,
    }
}

/// The page that a step of an insertion is to be given.
pub open spec fn insert_request(pages: Seq<PageId>, step: InsertStep) -> Option<PageRequest> {
    match step {
        InsertStep::Visit(index) => Some(PageRequest::Write(pages[index as int])),
        InsertStep::Append => Some(PageRequest::Allocate),
        InsertStep::Link(_, _) => Some(PageRequest::Write(pages.last())),
        InsertStep::Inserted(_) => None,
    }
}

/// Why a step cannot use a page with these bytes; `None` where it can. A page that
/// was just allocated may hold anything.
pub open spec fn insert_page_error(step: InsertStep, bytes: Seq<u8>) -> Option<HeapFileError> {
    match step {
        InsertStep::Visit(_) | InsertStep::Link(_, _) => page_error(bytes),
        _ => None,
    }
}

/// The first `count` rows of a page.
pub open spec fn first_records(page: HeapPage, count: int) -> Seq<Record>
    decreases count,
{
    if count <= 0 {
        Seq::empty()
    } else {
        let rid = page.live_rids()[count - 1];
        first_records(page, count - 1).push(Record { rid, bytes: page.record(rid) })
    }
}

/// The rows of a page, by slot.
pub open spec fn page_records(page: HeapPage) -> Seq<Record> {
    first_records(page, page.live_rids().len() as int)
}

/// A page without rows.
pub open spec fn blank_page(page_id: PageId) -> HeapPage {
    HeapPage { id: page_id, slots: Seq::empty(), next: None }
}

/// Why a page cannot be used; `None` where it can.
pub open spec fn page_error(bytes: Seq<u8>) -> Option<HeapFileError> {
    match page_format::page_fault(bytes) {
        Some(fault) => Some(HeapFileError::Page(Box::new(SlottedPageError::Corrupt(fault)))),
        None => None,
    }
}

} // verus!
