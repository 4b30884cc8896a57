//! Fixed-size pages with checked access.

use vstd::prelude::*;

use crate::codec;
use crate::message::{self, Message};

verus! {

pub const PAGE_SIZE: usize = 8192;

pub const PAGE_HEADER_SIZE: usize = 32;

/// Number of a page inside the database file.
#[derive(Clone, Copy, Debug, Default, PartialEq, Eq, PartialOrd, Ord, Hash, Structural)]
pub struct PageId(pub u32);

impl PageId {
    pub fn new(value: u32) -> (id: Self)
        ensures
            id == PageId(value),
    {
        Self(value)
    }

    pub fn get(self) -> (value: u32)
        ensures
            value == self.0,
    {
        self.0
    }

    /// Where the page starts in the database file.
    pub fn file_offset(self) -> (offset: u64)
        ensures
            offset == self.0 * PAGE_SIZE,
    {
        self.0 as u64 * PAGE_SIZE as u64
    }

    pub fn to_le_bytes(self) -> (bytes: [u8; 4])
        ensures
            bytes@ == codec::u32_bytes(self.0),
    {
        codec::encode_u32(self.0)
    }

    pub fn from_le_bytes(bytes: [u8; 4]) -> (id: Self)
        ensures
            id == PageId(codec::u32_at(bytes@, 0)),
    {
        Self(codec::read_u32(&bytes, 0))
    }
}

/// An 8 KiB block of the database file, held in memory.
pub struct Page {
    id: PageId,
    bytes: Box<[u8; PAGE_SIZE]>,
    dirty: bool,
}

impl View for Page {
    type V = Seq<u8>;

    /// The bytes of the page.
    closed spec fn view(&self) -> Seq<u8> {
        self.bytes@
    }
}

/// Every page holds exactly `PAGE_SIZE` bytes.
pub broadcast proof fn page_length(page: &Page)
    ensures
        #[trigger] page@.len() == PAGE_SIZE,
{
}

impl Page {
    /// Identifier that the page was created with.
    pub closed spec fn spec_id(&self) -> PageId {
        self.id
    }

    /// Whether the page was written to since it was last clean.
    pub closed spec fn spec_dirty(&self) -> bool {
        self.dirty
    }

    pub fn zeroed(id: PageId) -> (page: Self)
        ensures
            page.spec_id() == id,
            !page.spec_dirty(),
            page@ == Seq::new(PAGE_SIZE as nat, |i: int| 0u8),
    {
        let bytes: [u8; PAGE_SIZE] = [0u8; PAGE_SIZE];
        assert(bytes@ =~= Seq::new(PAGE_SIZE as nat, |i: int| 0u8));
        Self { id, bytes: Box::new(bytes), dirty: false }
    }

    pub fn from_bytes(id: PageId, bytes: Box<[u8; PAGE_SIZE]>) -> (page: Self)
        ensures
            page.spec_id() == id,
            !page.spec_dirty(),
            page@ == bytes@,
    {
        Self { id, bytes, dirty: false }
    }

    pub fn id(&self) -> (id: PageId)
        ensures
            id == self.spec_id(),
    {
        self.id
    }

    pub fn is_dirty(&self) -> (dirty: bool)
        ensures
            dirty == self.spec_dirty(),
    {
        self.dirty
    }

    pub fn mark_clean(&mut self)
        ensures
            final(self)@ == old(self)@,
            final(self).spec_id() == old(self).spec_id(),
            !final(self).spec_dirty(),
    {
        self.dirty = false;
    }

    pub fn as_bytes(&self) -> (bytes: &[u8; PAGE_SIZE])
        ensures
            bytes@ == self@,
    {
        &self.bytes
    }

    /// Borrows `length` bytes from `offset` on.
    pub fn read(&self, offset: usize, length: usize) -> (result: Result<&[u8], PageError>)
        ensures
            match result {
                Ok(bytes) => offset + length <= PAGE_SIZE && bytes@ == self@.subrange(
                    offset as int,
                    offset + length,
                ),
                Err(error) => offset + length > PAGE_SIZE && error == (PageError::OutOfBounds {
                    offset,
                    length,
                }),
            },
    {
        match checked_end(offset, length) {
            Ok(end) => Ok(&self.bytes[offset..end]),
            Err(error) => Err(error),
        }
    }

    /// Stores `source` from `offset` on and marks the page dirty.
    pub fn write(&mut self, offset: usize, source: &[u8]) -> (result: Result<(), PageError>)
        ensures
            final(self).spec_id() == old(self).spec_id(),
            match result {
                Ok(()) => {
                    &&& offset + source@.len() <= PAGE_SIZE
                    &&& final(self)@ == codec::splice(old(self)@, offset as int, source@)
                    &&& final(self).spec_dirty()
                },
                Err(error) => {
                    &&& offset + source@.len() > PAGE_SIZE
                    &&& error == (PageError::OutOfBounds {
                        offset,
                        length: source@.len() as usize,
                    })
                    &&& *final(self) == *old(self)
                },
            },
    {
        match checked_end(offset, source.len()) {
            Ok(_) => {},
            Err(error) => {
                return Err(error);
            },
        }
        let mut i: usize = 0;
        while i < source.len()
            invariant
                i <= source@.len(),
                offset + source@.len() <= PAGE_SIZE,
                self.id == old(self).id,
                self@ =~= codec::splice(old(self)@, offset as int, source@.take(i as int)),
            decreases source@.len() - i,
        {
            self.bytes[offset + i] = source[i];
            i += 1;
        }
        assert(source@.take(i as int) =~= source@);
        self.dirty = true;
        Ok(())
    }

    pub fn read_u16(&self, offset: usize) -> (result: Result<u16, PageError>)
        ensures
            match result {
                Ok(value) => offset + 2 <= PAGE_SIZE && value == codec::u16_at(self@, offset as int),
                Err(error) => offset + 2 > PAGE_SIZE && error == (PageError::OutOfBounds {
                    offset,
                    length: 2,
                }),
            },
    {
        match self.read(offset, 2) {
            Ok(bytes) => Ok(codec::read_u16(bytes, 0)),
            Err(error) => Err(error),
        }
    }

    pub fn write_u16(&mut self, offset: usize, value: u16) -> (result: Result<(), PageError>)
        ensures
            final(self).spec_id() == old(self).spec_id(),
            match result {
                Ok(()) => {
                    &&& offset + 2 <= PAGE_SIZE
                    &&& final(self)@ == codec::splice(old(self)@, offset as int, codec::u16_bytes(value))
                    &&& final(self).spec_dirty()
                },
                Err(error) => {
                    &&& offset + 2 > PAGE_SIZE
                    &&& error == (PageError::OutOfBounds { offset, length: 2 })
                    &&& *final(self) == *old(self)
                },
            },
    {
        self.write(offset, &codec::encode_u16(value))
    }

    pub fn read_u32(&self, offset: usize) -> (result: Result<u32, PageError>)
        ensures
            match result {
                Ok(value) => offset + 4 <= PAGE_SIZE && value == codec::u32_at(self@, offset as int),
                Err(error) => offset + 4 > PAGE_SIZE && error == (PageError::OutOfBounds {
                    offset,
                    length: 4,
                }),
            },
    {
        match self.read(offset, 4) {
            Ok(bytes) => Ok(codec::read_u32(bytes, 0)),
            Err(error) => Err(error),
        }
    }

    pub fn write_u32(&mut self, offset: usize, value: u32) -> (result: Result<(), PageError>)
        ensures
            final(self).spec_id() == old(self).spec_id(),
            match result {
                Ok(()) => {
                    &&& offset + 4 <= PAGE_SIZE
                    &&& final(self)@ == codec::splice(old(self)@, offset as int, codec::u32_bytes(value))
                    &&& final(self).spec_dirty()
                },
                Err(error) => {
                    &&& offset + 4 > PAGE_SIZE
                    &&& error == (PageError::OutOfBounds { offset, length: 4 })
                    &&& *final(self) == *old(self)
                },
            },
    {
        self.write(offset, &codec::encode_u32(value))
    }
}

/// End of the range of `length` bytes from `offset` on, where it lies inside a
/// page.
fn checked_end(offset: usize, length: usize) -> (result: Result<usize, PageError>)
    ensures
        match result {
            Ok(end) => end == offset + length && end <= PAGE_SIZE,
            Err(error) => offset + length > PAGE_SIZE && error == (PageError::OutOfBounds {
                offset,
                length,
            }),
        },
{
    match offset.checked_add(length) {
        Some(end) if end <= PAGE_SIZE => Ok(end),
        _ => Err(PageError::OutOfBounds { offset, length }),
    }
}

#[derive(Clone, Copy, Debug, PartialEq, Eq, Structural)]
pub enum PageError {
    OutOfBounds { offset: usize, length: usize },
}

impl PageError {
    pub open spec fn text(self) -> Seq<char> {
        match self {
            PageError::OutOfBounds { offset, length } => {
                "page access at offset "@ + message::decimal(offset as int) + " with length "@
                    + message::decimal(length as int) + " exceeds 8192 bytes"@
            },
        }
    }

    /// What went wrong, for people to read.
    pub fn message(&self) -> (message: String)
        ensures
            message@ == self.text(),
    {
        match self {
            Self::OutOfBounds { offset, length } => Message::new("page access at offset ").number(
                *offset as u64,
            ).text(" with length ").number(*length as u64).text(" exceeds 8192 bytes").finish(),
        }
    }
}

} // verus!
