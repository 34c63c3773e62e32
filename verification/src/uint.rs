use crate::buffer::{lemma_put_twice, BufferView, PacketBuffer, CAPACITY};
use crate::error::CodecError;
use vstd::prelude::*;

verus! {

/// The 16-bit number that the two bytes of `data` at `pos` hold, the more
/// significant byte first.
pub open spec fn be_u16(data: Seq<u8>, pos: int) -> u16 {
    (data[pos] * 0x100 + data[pos + 1]) as u16
}

/// The 32-bit number that the four bytes of `data` at `pos` hold, the most
/// significant byte first.
pub open spec fn be_u32(data: Seq<u8>, pos: int) -> u32 {
    (data[pos] * 0x100_0000 + data[pos + 1] * 0x1_0000 + data[pos + 2] * 0x100 + data[pos
        + 3]) as u32
}

/// The two bytes that hold `value`, the more significant first.
pub open spec fn u16_bytes(value: u16) -> Seq<u8> {
    seq![(value / 0x100) as u8, (value % 0x100) as u8]
}

/// The four bytes that hold `value`, the most significant first.
pub open spec fn u32_bytes(value: u32) -> Seq<u8> {
    seq![
        (value / 0x100_0000) as u8,
        (value / 0x1_0000 % 0x100) as u8,
        (value / 0x100 % 0x100) as u8,
        (value % 0x100) as u8,
    ]
}

/// A 16-bit number written at the write cursor is the number read there.
pub proof fn lemma_u16_round_trip(view: BufferView, value: u16)
    requires
        view.wf(),
        view.write_position + 2 <= CAPACITY,
    ensures
        be_u16(view.put(u16_bytes(value)).data, view.write_position) == value,
{
}

/// A 32-bit number written at the write cursor is the number read there.
pub proof fn lemma_u32_round_trip(view: BufferView, value: u32)
    requires
        view.wf(),
        view.write_position + 4 <= CAPACITY,
    ensures
        be_u32(view.put(u32_bytes(value)).data, view.write_position) == value,
{
}

impl PacketBuffer {
    /// Reads one byte at the read cursor.
    pub fn read_as_u8(&mut self) -> (result: Result<u8, CodecError>)
        ensures
            match result {
                Ok(value) => old(self)@.read_position + 1 <= CAPACITY && value == old(
                    self,
                )@.data[old(self)@.read_position] && final(self)@ == old(self)@.reading_at(
                    old(self)@.read_position + 1,
                ),
                Err(e) => old(self)@.read_position + 1 > CAPACITY && e == CodecError::EndOfBuffer
                    && final(self)@ == old(self)@,
            },
    {
        self.read()
    }

    /// Reads a big-endian 16-bit number at the read cursor, or nothing at
    /// all where fewer than two bytes are left.
    pub fn read_as_u16(&mut self) -> (result: Result<u16, CodecError>)
        ensures
            match result {
                Ok(value) => old(self)@.read_position + 2 <= CAPACITY && value == be_u16(
                    old(self)@.data,
                    old(self)@.read_position,
                ) && final(self)@ == old(self)@.reading_at(old(self)@.read_position + 2),
                Err(e) => old(self)@.read_position + 2 > CAPACITY && e == CodecError::EndOfBuffer
                    && final(self)@ == old(self)@,
            },
    {
        let at = self.read_position();
        if at + 2 > CAPACITY {
            return Err(CodecError::EndOfBuffer);
        }
        let byte1 = self.get_at(at) as u16;
        let byte2 = self.get_at(at + 1) as u16;
        self.step_read(2);
        let value: u16 = (byte1 << 8) | byte2;
        assert(value == byte1 * 0x100 + byte2) by (bit_vector)
            requires
                byte1 < 0x100,
                byte2 < 0x100,
                value == (byte1 << 8) | byte2,
        ;
        Ok(value)
    }

    /// Reads a big-endian 32-bit number at the read cursor, or nothing at
    /// all where fewer than four bytes are left.
    pub fn read_as_u32(&mut self) -> (result: Result<u32, CodecError>)
        ensures
            match result {
                Ok(value) => old(self)@.read_position + 4 <= CAPACITY && value == be_u32(
                    old(self)@.data,
                    old(self)@.read_position,
                ) && final(self)@ == old(self)@.reading_at(old(self)@.read_position + 4),
                Err(e) => old(self)@.read_position + 4 > CAPACITY && e == CodecError::EndOfBuffer
                    && final(self)@ == old(self)@,
            },
    {
        let at = self.read_position();
        if at + 4 > CAPACITY {
            return Err(CodecError::EndOfBuffer);
        }
        let byte1 = self.get_at(at) as u32;
        let byte2 = self.get_at(at + 1) as u32;
        let byte3 = self.get_at(at + 2) as u32;
        let byte4 = self.get_at(at + 3) as u32;
        self.step_read(4);
        let value: u32 = (byte1 << 24) | (byte2 << 16) | (byte3 << 8) | byte4;
        assert(value == byte1 * 0x100_0000 + byte2 * 0x1_0000 + byte3 * 0x100 + byte4)
            by (bit_vector)
            requires
                byte1 < 0x100,
                byte2 < 0x100,
                byte3 < 0x100,
                byte4 < 0x100,
                value == (byte1 << 24) | (byte2 << 16) | (byte3 << 8) | byte4,
        ;
        Ok(value)
    }

    /// Writes one byte at the write cursor.
    pub fn write_u8(&mut self, value: u8) -> (result: Result<(), CodecError>)
        ensures
            match result {
                Ok(_) => old(self)@.write_position + 1 <= CAPACITY && final(self)@ == old(
                    self,
                )@.put(seq![value]),
                Err(e) => old(self)@.write_position + 1 > CAPACITY && e
                    == CodecError::EndOfBuffer && final(self)@ == old(self)@,
            },
    {
        self.write(value)
    }

    /// Writes `value` at the write cursor as two bytes, the more significant
    /// first, or nothing at all where fewer than two bytes are free.
    pub fn write_u16(&mut self, value: u16) -> (result: Result<(), CodecError>)
        ensures
            match result {
                Ok(_) => old(self)@.write_position + 2 <= CAPACITY && final(self)@ == old(
                    self,
                )@.put(u16_bytes(value)),
                Err(e) => old(self)@.write_position + 2 > CAPACITY && e
                    == CodecError::EndOfBuffer && final(self)@ == old(self)@,
            },
    {
        if self.write_position() + 2 > CAPACITY {
            return Err(CodecError::EndOfBuffer);
        }
        let byte1 = (value >> 8) as u8;
        let byte2 = (value & 0xFF) as u8;
        assert(byte1 == (value / 0x100) as u8 && byte2 == (value % 0x100) as u8) by (bit_vector)
            requires
                byte1 == (value >> 8) as u8,
                byte2 == (value & 0xFF) as u8,
        ;
        proof {
            use_type_invariant(&*self);
            lemma_put_twice(old(self)@, seq![byte1], seq![byte2]);
            assert(seq![byte1] + seq![byte2] =~= u16_bytes(value));
        }
        self.write(byte1)?;
        self.write(byte2)
    }

    /// Writes `value` at the write cursor as four bytes, the most significant
    /// first, or nothing at all where fewer than four bytes are free.
    pub fn write_u32(&mut self, value: u32) -> (result: Result<(), CodecError>)
        ensures
            match result {
                Ok(_) => old(self)@.write_position + 4 <= CAPACITY && final(self)@ == old(
                    self,
                )@.put(u32_bytes(value)),
                Err(e) => old(self)@.write_position + 4 > CAPACITY && e
                    == CodecError::EndOfBuffer && final(self)@ == old(self)@,
            },
    {
        if self.write_position() + 4 > CAPACITY {
            return Err(CodecError::EndOfBuffer);
        }
        let high = (value >> 16) as u16;
        let low = (value & 0xFFFF) as u16;
        assert(u16_bytes(high) + u16_bytes(low) =~= u32_bytes(value)) by {
            assert((high / 0x100) as u8 == (value / 0x100_0000) as u8 && (high % 0x100) as u8 == (
            value / 0x1_0000 % 0x100) as u8 && (low / 0x100) as u8 == (value / 0x100 % 0x100) as u8
                && (low % 0x100) as u8 == (value % 0x100) as u8) by (bit_vector)
                requires
                    high == (value >> 16) as u16,
                    low == (value & 0xFFFF) as u16,
            ;
        }
        proof {
            use_type_invariant(&*self);
            lemma_put_twice(old(self)@, u16_bytes(high), u16_bytes(low));
        }
        self.write_u16(high)?;
        self.write_u16(low)
    }
}

} // verus!
