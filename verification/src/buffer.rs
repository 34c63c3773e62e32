use crate::error::CodecError;
use vstd::prelude::*;
use vstd::slice::slice_subrange;

verus! {

/// Number of bytes a packet buffer holds.
pub const CAPACITY: usize = 512;

/// Mathematical model of a packet buffer: its bytes and its two cursors.
pub struct BufferView {
    pub data: Seq<u8>,
    pub read_position: int,
    pub write_position: int,
}

impl BufferView {
    /// Every buffer holds `CAPACITY` bytes, and each cursor lies between 0 and
    /// `CAPACITY`, the latter meaning that nothing is left to read or write.
    pub open spec fn wf(self) -> bool {
        &&& self.data.len() == CAPACITY
        &&& 0 <= self.read_position <= CAPACITY
        &&& 0 <= self.write_position <= CAPACITY
    }

    /// The same buffer with its read cursor at `position`.
    pub open spec fn reading_at(self, position: int) -> BufferView {
        BufferView { read_position: position, ..self }
    }

    /// The same buffer with its write cursor at `position`.
    pub open spec fn writing_at(self, position: int) -> BufferView {
        BufferView { write_position: position, ..self }
    }

    /// The buffer after `bytes` went in at the write cursor, which moves past them.
    pub open spec fn put(self, bytes: Seq<u8>) -> BufferView {
        BufferView {
            data: overwrite(self.data, self.write_position, bytes),
            write_position: self.write_position + bytes.len(),
            ..self
        }
    }

    /// How many of `len` bytes the rest of the buffer can take.
    pub open spec fn room_for(self, len: int) -> int {
        if len <= CAPACITY - self.write_position {
            len
        } else {
            CAPACITY - self.write_position
        }
    }

    /// The buffer after as many of `bytes` went in, from the first on, as
    /// the rest of it can take.
    pub open spec fn put_what_fits(self, bytes: Seq<u8>) -> BufferView {
        self.put(bytes.take(self.room_for(bytes.len() as int)))
    }
}

/// Two writes, the first of which fits, are one write of both runs of bytes.
pub proof fn lemma_put_twice(view: BufferView, first: Seq<u8>, second: Seq<u8>)
    requires
        view.wf(),
        view.write_position + first.len() <= CAPACITY,
    ensures
        view.put(first).wf(),
        view.put_what_fits(first) == view.put(first),
        view.put(first).put_what_fits(second) == view.put_what_fits(first + second),
        view.write_position + first.len() + second.len() <= CAPACITY ==> view.put(first).put(
            second,
        ) == view.put(first + second),
{
    let both = first + second;
    assert(first.take(first.len() as int) =~= first);
    assert(view.put(first).put_what_fits(second).data =~= view.put_what_fits(both).data);
    if view.write_position + first.len() + second.len() <= CAPACITY {
        assert(view.put(first).put(second).data =~= view.put(both).data);
    }
}

/// Bytes behind a run that fills the buffer, or fails to fit, change nothing.
pub proof fn lemma_put_full(view: BufferView, bytes: Seq<u8>, more: Seq<u8>)
    requires
        view.wf(),
        view.write_position + bytes.len() >= CAPACITY,
    ensures
        view.put_what_fits(bytes + more) == view.put_what_fits(bytes),
{
    let room = CAPACITY - view.write_position;
    assert((bytes + more).take(room) =~= bytes.take(room));
}

/// `data` with `bytes` in place of what stood at `at` and after it.
pub open spec fn overwrite(data: Seq<u8>, at: int, bytes: Seq<u8>) -> Seq<u8> {
    Seq::new(
        data.len(),
        |i: int|
            if at <= i < at + bytes.len() {
                bytes[i - at]
            } else {
                data[i]
            },
    )
}

/// A fixed store of `CAPACITY` bytes with a read cursor and a write cursor
/// that move independently of each other.
pub struct PacketBuffer {
    data: [u8; CAPACITY],
    read_position: usize,
    write_position: usize,
}

impl View for PacketBuffer {
    type V = BufferView;

    closed spec fn view(&self) -> BufferView {
        BufferView {
            data: self.data@,
            read_position: self.read_position as int,
            write_position: self.write_position as int,
        }
    }
}

impl PacketBuffer {
    /// Holds of every buffer at every moment.
    #[verifier::type_invariant]
    pub open spec fn well_formed(&self) -> bool {
        self@.wf()
    }

    /// A zero-filled buffer with both cursors at the start.
    pub fn new() -> (buffer: PacketBuffer)
        ensures
            buffer@.data == Seq::new(CAPACITY as nat, |i: int| 0u8),
            buffer@.read_position == 0,
            buffer@.write_position == 0,
    {
        PacketBuffer { data: [0; CAPACITY], read_position: 0, write_position: 0 }
    }

    /// Where the next read takes place.
    pub fn read_position(&self) -> (position: usize)
        ensures
            position == self@.read_position,
            position <= CAPACITY,
    {
        proof {
            use_type_invariant(self);
        }
        self.read_position
    }

    /// Where the next write takes place.
    pub fn write_position(&self) -> (position: usize)
        ensures
            position == self@.write_position,
            position <= CAPACITY,
    {
        proof {
            use_type_invariant(self);
        }
        self.write_position
    }

    /// The byte under the read cursor. Moves nothing.
    pub fn get(&self) -> (byte: u8)
        requires
            self@.read_position < CAPACITY,
        ensures
            byte == self@.data[self@.read_position],
    {
        self.data[self.read_position]
    }

    /// The byte at `position`. Moves nothing.
    pub fn get_at(&self, position: usize) -> (byte: u8)
        requires
            position < CAPACITY,
        ensures
            byte == self@.data[position as int],
    {
        self.data[position]
    }

    /// The `len` bytes from `start` on, where they all lie inside the buffer.
    pub fn get_range(&self, start: usize, len: usize) -> (result: Result<&[u8], CodecError>)
        ensures
            match result {
                Ok(bytes) => start + len <= CAPACITY && bytes@ == self@.data.subrange(
                    start as int,
                    start + len,
                ),
                Err(e) => start + len > CAPACITY && e == CodecError::EndOfBuffer,
            },
    {
        if start > CAPACITY || len > CAPACITY - start {
            return Err(CodecError::EndOfBuffer);
        }
        Ok(slice_subrange(self.data.as_slice(), start, start + len))
    }

    /// Moves the read cursor `steps` bytes on.
    pub fn step_read(&mut self, steps: usize)
        requires
            old(self)@.read_position + steps <= CAPACITY,
        ensures
            final(self)@ == old(self)@.reading_at(old(self)@.read_position + steps),
    {
        proof {
            use_type_invariant(&*self);
        }
        self.read_position = self.read_position + steps;
    }

    /// Moves the write cursor `steps` bytes on.
    pub fn step_write(&mut self, steps: usize)
        requires
            old(self)@.write_position + steps <= CAPACITY,
        ensures
            final(self)@ == old(self)@.writing_at(old(self)@.write_position + steps),
    {
        proof {
            use_type_invariant(&*self);
        }
        self.write_position = self.write_position + steps;
    }

    /// Puts the read cursor at `position`, which must lie inside the buffer.
    pub fn seek_read(&mut self, position: usize) -> (result: Result<(), CodecError>)
        ensures
            match result {
                Ok(_) => position < CAPACITY && final(self)@ == old(self)@.reading_at(
                    position as int,
                ),
                Err(e) => position >= CAPACITY && e == CodecError::EndOfBuffer && final(self)@
                    == old(self)@,
            },
    {
        proof {
            use_type_invariant(&*self);
        }
        if position >= CAPACITY {
            return Err(CodecError::EndOfBuffer);
        }
        self.read_position = position;
        Ok(())
    }

    /// Puts the write cursor at `position`, which must lie inside the buffer.
    pub fn seek_write(&mut self, position: usize) -> (result: Result<(), CodecError>)
        ensures
            match result {
                Ok(_) => position < CAPACITY && final(self)@ == old(self)@.writing_at(
                    position as int,
                ),
                Err(e) => position >= CAPACITY && e == CodecError::EndOfBuffer && final(self)@
                    == old(self)@,
            },
    {
        proof {
            use_type_invariant(&*self);
        }
        if position >= CAPACITY {
            return Err(CodecError::EndOfBuffer);
        }
        self.write_position = position;
        Ok(())
    }

    /// Hands out the byte under the read cursor and moves the cursor past it.
    pub fn read(&mut self) -> (result: Result<u8, CodecError>)
        ensures
            match result {
                Ok(byte) => old(self)@.read_position < CAPACITY && byte == old(
                    self,
                )@.data[old(self)@.read_position] && final(self)@ == old(self)@.reading_at(
                    old(self)@.read_position + 1,
                ),
                Err(e) => old(self)@.read_position >= CAPACITY && e == CodecError::EndOfBuffer
                    && final(self)@ == old(self)@,
            },
    {
        proof {
            use_type_invariant(&*self);
        }
        if self.read_position >= CAPACITY {
            return Err(CodecError::EndOfBuffer);
        }
        let byte = self.data[self.read_position];
        self.read_position = self.read_position + 1;
        Ok(byte)
    }

    /// Stores `byte` under the write cursor and moves the cursor past it.
    pub fn write(&mut self, byte: u8) -> (result: Result<(), CodecError>)
        ensures
            match result {
                Ok(_) => old(self)@.write_position < CAPACITY && final(self)@ == old(self)@.put(
                    seq![byte],
                ),
                Err(e) => old(self)@.write_position >= CAPACITY && e == CodecError::EndOfBuffer
                    && final(self)@ == old(self)@,
            },
    {
        proof {
            use_type_invariant(&*self);
        }
        if self.write_position >= CAPACITY {
            return Err(CodecError::EndOfBuffer);
        }
        self.data[self.write_position] = byte;
        self.write_position = self.write_position + 1;
        assert(self@.data =~= old(self)@.put(seq![byte]).data);
        Ok(())
    }

    /// Stores `bytes` one after the other from the write cursor on, and stops
    /// where the buffer is full.
    pub fn write_bytes(&mut self, bytes: &[u8]) -> (result: Result<(), CodecError>)
        ensures
            final(self)@ == old(self)@.put_what_fits(bytes@),
            match result {
                Ok(_) => old(self)@.write_position + bytes@.len() <= CAPACITY,
                Err(e) => old(self)@.write_position + bytes@.len() > CAPACITY && e
                    == CodecError::EndOfBuffer,
            },
    {
        proof {
            use_type_invariant(&*self);
        }
        let mut i: usize = 0;
        assert(old(self)@.put(bytes@.take(0)).data =~= self@.data);
        while i < bytes.len()
            invariant
                i <= bytes@.len(),
                old(self)@.wf(),
                old(self)@.write_position + i <= CAPACITY,
                self@ == old(self)@.put(bytes@.take(i as int)),
            decreases bytes@.len() - i,
        {
            self.write(bytes[i])?;
            assert(bytes@.take(i + 1) =~= bytes@.take(i as int) + seq![bytes@[i as int]]);
            assert(self@.data =~= old(self)@.put(bytes@.take(i + 1)).data);
            i = i + 1;
        }
        assert(bytes@.take(i as int) =~= bytes@);
        Ok(())
    }
}

} // verus!
