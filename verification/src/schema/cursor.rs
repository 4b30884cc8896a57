//! Reading and writing the parts of an encoded schema.

use vstd::prelude::*;

use crate::codec;
use crate::text;

use super::table::SchemaError;
use super::table_format;

verus! {

/// A position in an encoded schema.
pub(super) struct Cursor<'a> {
    pub(super) bytes: &'a [u8],
    pub(super) position: usize,
}

impl<'a> Cursor<'a> {
    pub(super) open spec fn wf(&self) -> bool {
        self.position <= self.bytes@.len()
    }

    pub(super) fn new(bytes: &'a [u8]) -> (cursor: Self)
        ensures
            cursor.wf(),
            cursor.bytes@ == bytes@,
            cursor.position == 0,
    {
        Self { bytes, position: 0 }
    }

    /// Moves over the next `length` bytes.
    pub(super) fn take(&mut self, length: usize) -> (result: Result<&'a [u8], SchemaError>)
        requires
            old(self).wf(),
        ensures
            final(self).wf(),
            final(self).bytes@ == old(self).bytes@,
            if old(self).position + length <= old(self).bytes@.len() {
                &&& result matches Ok(taken)
                &&& taken@ == old(self).bytes@.subrange(
                    old(self).position as int,
                    old(self).position + length,
                )
                &&& final(self).position == old(self).position + length
            } else {
                &&& result matches Err(error)
                &&& error@ == table_format::SchemaFault::CorruptEncoding(
                    "truncated schema encoding",
                )
                &&& final(self).position == old(self).position
            },
    {
        if length > self.bytes.len() - self.position {
            return Err(SchemaError::CorruptEncoding("truncated schema encoding"));
        }
        let start: usize = self.position;
        self.position = start + length;
        Ok(&self.bytes[start..start + length])
    }

    pub(super) fn read_u8(&mut self) -> (result: Result<u8, SchemaError>)
        requires
            old(self).wf(),
        ensures
            final(self).wf(),
            final(self).bytes@ == old(self).bytes@,
            if old(self).position + 1 <= old(self).bytes@.len() {
                &&& result == Ok::<u8, SchemaError>(
                    old(self).bytes@[old(self).position as int],
                )
                &&& final(self).position == old(self).position + 1
            } else {
                &&& result matches Err(error)
                &&& error@ == table_format::SchemaFault::CorruptEncoding(
                    "truncated schema encoding",
                )
            },
    {
        match self.take(1) {
            Ok(bytes) => Ok(bytes[0]),
            Err(error) => Err(error),
        }
    }

    pub(super) fn read_u16(&mut self) -> (result: Result<u16, SchemaError>)
        requires
            old(self).wf(),
        ensures
            final(self).wf(),
            final(self).bytes@ == old(self).bytes@,
            if old(self).position + 2 <= old(self).bytes@.len() {
                &&& result == Ok::<u16, SchemaError>(
                    codec::u16_at(old(self).bytes@, old(self).position as int),
                )
                &&& final(self).position == old(self).position + 2
            } else {
                &&& result matches Err(error)
                &&& error@ == table_format::SchemaFault::CorruptEncoding(
                    "truncated schema encoding",
                )
            },
    {
        match self.take(2) {
            Ok(bytes) => Ok(codec::read_u16(bytes, 0)),
            Err(error) => Err(error),
        }
    }

    /// Reads a string after its length in bytes.
    pub(super) fn read_string(&mut self) -> (result: Result<&'a str, SchemaError>)
        requires
            old(self).wf(),
        ensures
            final(self).wf(),
            final(self).bytes@ == old(self).bytes@,
            match table_format::parse_string(old(self).bytes@, old(self).position as int) {
                Ok((value, end)) => {
                    &&& result matches Ok(text)
                    &&& text@ == value
                    &&& final(self).position == end
                },
                Err(reason) => {
                    &&& result matches Err(error)
                    &&& error@ == table_format::SchemaFault::CorruptEncoding(reason)
                },
            },
    {
        let length: usize = match self.read_u16() {
            Ok(length) => length as usize,
            Err(error) => {
                return Err(error);
            },
        };
        let bytes = match self.take(length) {
            Ok(bytes) => bytes,
            Err(error) => {
                return Err(error);
            },
        };
        match text::decode_text(bytes) {
            Some(value) => Ok(value),
            None => Err(SchemaError::CorruptEncoding("schema identifier is not UTF-8")),
        }
    }

    pub(super) fn is_empty(&self) -> (empty: bool)
        requires
            self.wf(),
        ensures
            empty == (self.position == self.bytes@.len()),
    {
        self.position == self.bytes.len()
    }
}

/// Appends a string after its length in bytes.
pub(super) fn write_string(bytes: &mut Vec<u8>, value: &str)
    requires
        vstd::utf8::encode_utf8(value@).len() <= u16::MAX,
    ensures
        final(bytes)@ == old(bytes)@ + table_format::string_bytes(value@),
{
    let encoded = value.as_bytes();
    let length: u16 = encoded.len() as u16;
    codec::append(bytes, &codec::encode_u16(length));
    codec::append(bytes, encoded);
    assert(bytes@ =~= old(bytes)@ + table_format::string_bytes(value@));
}

} // verus!
