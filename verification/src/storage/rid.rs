//! Stable row identifiers.

use vstd::prelude::*;

use super::PageId;
use crate::codec;

verus! {

pub const RID_SIZE: usize = 8;

/// Position of an entry in the slot directory of a page.
#[derive(Clone, Copy, Debug, Default, PartialEq, Eq, PartialOrd, Ord, Hash, Structural)]
pub struct SlotId(pub u16);

impl SlotId {
    pub fn new(value: u16) -> (id: Self)
        ensures
            id == SlotId(value),
    {
        Self(value)
    }

    pub fn get(self) -> (value: u16)
        ensures
            value == self.0,
    {
        self.0
    }
}

/// Stable identifier of a row: the page, the slot, and the generation that the
/// slot had when the row was stored.
#[derive(Clone, Copy, Debug, Default, PartialEq, Eq, Hash, Structural)]
pub struct Rid {
    pub page_id: PageId,
    pub slot_id: SlotId,
    pub generation: u16,
}

impl Rid {
    pub fn new(page_id: PageId, slot_id: SlotId, generation: u16) -> (rid: Self)
        ensures
            rid == (Rid { page_id, slot_id, generation }),
    {
        Self { page_id, slot_id, generation }
    }

    pub fn page_id(self) -> (page_id: PageId)
        ensures
            page_id == self.page_id,
    {
        self.page_id
    }

    pub fn slot_id(self) -> (slot_id: SlotId)
        ensures
            slot_id == self.slot_id,
    {
        self.slot_id
    }

    pub fn generation(self) -> (generation: u16)
        ensures
            generation == self.generation,
    {
        self.generation
    }

    /// The stable encoding: page, slot, then generation, all little-endian.
    pub open spec fn encoded(self) -> Seq<u8> {
        codec::u32_bytes(self.page_id.0) + codec::u16_bytes(self.slot_id.0) + codec::u16_bytes(self.generation)
    }

    /// The identifier that eight bytes stand for.
    pub open spec fn decoded(bytes: Seq<u8>) -> Self {
        Rid {
            page_id: PageId(codec::u32_at(bytes, 0)),
            slot_id: SlotId(codec::u16_at(bytes, 4)),
            generation: codec::u16_at(bytes, 6),
        }
    }

    /// Encodes the RID as PageId, SlotId, then generation, all little-endian.
    pub fn encode(self) -> (bytes: [u8; RID_SIZE])
        ensures
            bytes@ == self.encoded(),
    {
        let page = self.page_id.to_le_bytes();
        let slot = codec::encode_u16(self.slot_id.0);
        let generation = codec::encode_u16(self.generation);
        let bytes = [
            page[0],
            page[1],
            page[2],
            page[3],
            slot[0],
            slot[1],
            generation[0],
            generation[1],
        ];
        assert(bytes@ =~= self.encoded());
        bytes
    }

    pub fn decode(bytes: [u8; RID_SIZE]) -> (rid: Self)
        ensures
            rid == Self::decoded(bytes@),
    {
        Self {
            page_id: PageId::from_le_bytes([bytes[0], bytes[1], bytes[2], bytes[3]]),
            slot_id: SlotId(codec::read_u16(&bytes, 4)),
            generation: codec::read_u16(&bytes, 6),
        }
    }
}

/// Decoding an encoded identifier gives the identifier back.
pub proof fn rid_encoding_round_trips(rid: Rid)
    ensures
        rid.encoded().len() == RID_SIZE,
        Rid::decoded(rid.encoded()) == rid,
{
}

/// Encoding a decoded identifier gives the bytes back, so that every eight
/// bytes stand for exactly one identifier.
pub proof fn rid_decoding_round_trips(bytes: Seq<u8>)
    requires
        bytes.len() == RID_SIZE,
    ensures
        Rid::decoded(bytes).encoded() == bytes,
{
    let page = bytes.subrange(0, 4);
    let slot = bytes.subrange(4, 6);
    let generation = bytes.subrange(6, 8);
    codec::lemma_u32_bytes_of_read(page);
    codec::lemma_u16_bytes_of_read(slot);
    codec::lemma_u16_bytes_of_read(generation);
    assert(codec::u32_at(bytes, 0) == codec::u32_at(page, 0));
    assert(codec::u16_at(bytes, 4) == codec::u16_at(slot, 0));
    assert(codec::u16_at(bytes, 6) == codec::u16_at(generation, 0));
    assert(page + slot + generation =~= bytes);
}

/// An identifier takes up eight bytes: the page, the slot and the generation, each
/// with its lowest byte first.
pub proof fn rids_have_their_fields(rid: Rid)
    ensures
        rid.encoded().len() == 8,
        codec::u32_at(rid.encoded(), 0) == rid.page_id.0,
        codec::u16_at(rid.encoded(), 4) == rid.slot_id.0,
        codec::u16_at(rid.encoded(), 6) == rid.generation,
{
    rid_encoding_round_trips(rid);
}

} // verus!
