use crate::buffer::{PacketBuffer, CAPACITY};
use crate::decoded::{decoded, failed, Decoded};
use crate::error::CodecError;
use crate::uint::be_u16;
use vstd::prelude::*;

verus! {

/// Bytes that a header takes on the wire.
pub const HEADER_LEN: usize = 12;

/// The fixed part that every message begins with.
#[derive(Clone, Copy, Debug, PartialEq, Eq, Structural)]
pub struct DNSHeader {
    /// Chosen by whoever asks, and sent back with the answer.
    pub id: u16,
    /// Set in an answer, clear in a query.
    pub query_response: bool,
    /// Kind of query, four bits.
    pub op_code: u8,
    /// The answering server owns the name asked for.
    pub authoritative_answer: bool,
    /// The message was cut to fit.
    pub truncated_message: bool,
    /// The server is asked to resolve the name by asking others.
    pub recursion_desired: bool,
    /// The server does resolve names by asking others.
    pub recursion_available: bool,
    /// Three bits once kept for later use.
    pub reserved: u8,
    /// How the query went, four bits.
    pub response_code: u8,
    /// Entries of the question section.
    pub question_count: u16,
    /// Entries of the answer section.
    pub answer_count: u16,
    /// Entries of the authority section.
    pub authority_count: u16,
    /// Entries of the additional section.
    pub additional_count: u16,
}

/// Whether `flags` has the bit set whose value alone is `weight`.
pub open spec fn bit_set(flags: u16, weight: u16) -> bool {
    flags / weight % 2 == 1
}

/// The header whose second word is `flags` and whose other five words are
/// the numbers given.
pub open spec fn header_of(
    id: u16,
    flags: u16,
    question_count: u16,
    answer_count: u16,
    authority_count: u16,
    additional_count: u16,
) -> DNSHeader {
    DNSHeader {
        id,
        query_response: bit_set(flags, 0x8000),
        op_code: (flags / 0x800 % 0x10) as u8,
        authoritative_answer: bit_set(flags, 0x400),
        truncated_message: bit_set(flags, 0x200),
        recursion_desired: bit_set(flags, 0x100),
        recursion_available: bit_set(flags, 0x80),
        reserved: (flags / 0x10 % 8) as u8,
        response_code: (flags % 0x10) as u8,
        question_count,
        answer_count,
        authority_count,
        additional_count,
    }
}

/// The header that `data` holds at `pos`. Its six words are read one by
/// one, so where some are missing the cursor stays behind the last whole
/// word that is there.
pub open spec fn header_at(data: Seq<u8>, pos: int) -> Decoded<DNSHeader> {
    if pos + HEADER_LEN <= CAPACITY {
        decoded(
            header_of(
                be_u16(data, pos),
                be_u16(data, pos + 2),
                be_u16(data, pos + 4),
                be_u16(data, pos + 6),
                be_u16(data, pos + 8),
                be_u16(data, pos + 10),
            ),
            pos + HEADER_LEN,
        )
    } else {
        failed(CodecError::EndOfBuffer, pos + (CAPACITY - pos) / 2 * 2)
    }
}

impl DNSHeader {
    /// The header with every number zero and every flag clear.
    pub open spec fn zero() -> DNSHeader {
        DNSHeader {
            id: 0,
            query_response: false,
            op_code: 0,
            authoritative_answer: false,
            truncated_message: false,
            recursion_desired: false,
            recursion_available: false,
            reserved: 0,
            response_code: 0,
            question_count: 0,
            answer_count: 0,
            authority_count: 0,
            additional_count: 0,
        }
    }

    /// A header with every number zero and every flag clear.
    pub fn new() -> (header: DNSHeader)
        ensures
            header == DNSHeader::zero(),
    {
        DNSHeader {
            id: 0,
            query_response: false,
            op_code: 0,
            authoritative_answer: false,
            truncated_message: false,
            recursion_desired: false,
            recursion_available: false,
            reserved: 0,
            response_code: 0,
            question_count: 0,
            answer_count: 0,
            authority_count: 0,
            additional_count: 0,
        }
    }

    /// Sets the fields that the flags word of a header holds.
    fn set_flags(&mut self, flags: u16)
        ensures
            *final(self) == header_of(
                old(self).id,
                flags,
                old(self).question_count,
                old(self).answer_count,
                old(self).authority_count,
                old(self).additional_count,
            ),
    {
        self.query_response = (flags & 0x8000) != 0;
        self.op_code = ((flags >> 11) & 0x0F) as u8;
        self.authoritative_answer = (flags & 0x0400) != 0;
        self.truncated_message = (flags & 0x0200) != 0;
        self.recursion_desired = (flags & 0x0100) != 0;
        self.recursion_available = (flags & 0x0080) != 0;
        self.reserved = ((flags >> 4) & 0x07) as u8;
        self.response_code = (flags & 0x0F) as u8;
        assert(((flags & 0x8000) != 0) == (flags / 0x8000 % 2 == 1) && ((flags & 0x0400) != 0) == (
        flags / 0x400 % 2 == 1) && ((flags & 0x0200) != 0) == (flags / 0x200 % 2 == 1) && ((flags
            & 0x0100) != 0) == (flags / 0x100 % 2 == 1) && ((flags & 0x0080) != 0) == (flags / 0x80
            % 2 == 1)) by (bit_vector);
        assert(((flags >> 11) & 0x0F) as u8 == (flags / 0x800 % 0x10) as u8 && ((flags >> 4)
            & 0x07) as u8 == (flags / 0x10 % 8) as u8 && (flags & 0x0F) as u8 == (flags % 0x10) as u8)
            by (bit_vector);
    }

    /// Decodes the header under the read cursor.
    pub fn from_buffer(buffer: &mut PacketBuffer) -> (result: Result<DNSHeader, CodecError>)
        ensures
            final(buffer)@ == old(buffer)@.reading_at(
                header_at(old(buffer)@.data, old(buffer)@.read_position).cursor,
            ),
            result == header_at(old(buffer)@.data, old(buffer)@.read_position).value,
    {
        proof {
            use_type_invariant(&*buffer);
        }
        let mut header = DNSHeader::new();
        header.id = buffer.read_as_u16()?;
        let flags = buffer.read_as_u16()?;
        header.set_flags(flags);
        header.question_count = buffer.read_as_u16()?;
        header.answer_count = buffer.read_as_u16()?;
        header.authority_count = buffer.read_as_u16()?;
        header.additional_count = buffer.read_as_u16()?;
        Ok(header)
    }
}

} // verus!
