use crate::buffer::CAPACITY;
use crate::error::CodecError;
use crate::uint::{be_u16, be_u32};
use vstd::prelude::*;

verus! {

/// What decoding something at the read cursor gives: the value or the
/// reason why there is none, and where the read cursor stands afterwards.
pub struct Decoded<T> {
    pub value: Result<T, CodecError>,
    pub cursor: int,
}

impl<T> Decoded<T> {
    /// Decoding goes on with `next` from where this part ended; after a
    /// failure nothing more is decoded.
    pub open spec fn and_then<U>(self, next: spec_fn(T, int) -> Decoded<U>) -> Decoded<U> {
        match self.value {
            Ok(value) => next(value, self.cursor),
            Err(e) => Decoded { value: Err(e), cursor: self.cursor },
        }
    }
}

/// A value decoded with the cursor left at `cursor`.
pub open spec fn decoded<T>(value: T, cursor: int) -> Decoded<T> {
    Decoded { value: Ok(value), cursor }
}

/// A failure with the cursor left at `cursor`.
pub open spec fn failed<T>(e: CodecError, cursor: int) -> Decoded<T> {
    Decoded { value: Err(e), cursor }
}

/// The 16-bit number at `pos`, where two bytes are left.
pub open spec fn u16_at(data: Seq<u8>, pos: int) -> Decoded<u16> {
    if pos + 2 <= CAPACITY {
        decoded(be_u16(data, pos), pos + 2)
    } else {
        failed(CodecError::EndOfBuffer, pos)
    }
}

/// The 32-bit number at `pos`, where four bytes are left.
pub open spec fn u32_at(data: Seq<u8>, pos: int) -> Decoded<u32> {
    if pos + 4 <= CAPACITY {
        decoded(be_u32(data, pos), pos + 4)
    } else {
        failed(CodecError::EndOfBuffer, pos)
    }
}

/// What `count` items in a row give, the first of them at `pos`: all of
/// them in order, or the failure of the first that fails.
pub open spec fn repeat_at<T>(
    item: spec_fn(Seq<u8>, int) -> Decoded<T>,
    data: Seq<u8>,
    pos: int,
    count: nat,
) -> Decoded<Seq<T>>
    decreases count,
{
    if count == 0 {
        decoded(Seq::empty(), pos)
    } else {
        let before = repeat_at(item, data, pos, (count - 1) as nat);
        match before.value {
            Ok(items) => {
                let last = item(data, before.cursor);
                match last.value {
                    Ok(value) => decoded(items.push(value), last.cursor),
                    Err(e) => failed(e, last.cursor),
                }
            },
            Err(e) => before,
        }
    }
}

/// Where `count` items in a row are decoded, they are `count` items.
pub proof fn lemma_repeat_len<T>(
    item: spec_fn(Seq<u8>, int) -> Decoded<T>,
    data: Seq<u8>,
    pos: int,
    count: nat,
)
    ensures
        repeat_at(item, data, pos, count).value matches Ok(items) ==> items.len() == count,
    decreases count,
{
    if count > 0 {
        lemma_repeat_len(item, data, pos, (count - 1) as nat);
    }
}

/// Once an item has failed, asking for more items changes nothing.
pub proof fn lemma_repeat_failed<T>(
    item: spec_fn(Seq<u8>, int) -> Decoded<T>,
    data: Seq<u8>,
    pos: int,
    count: nat,
    more: nat,
)
    requires
        repeat_at(item, data, pos, count).value is Err,
        count <= more,
    ensures
        repeat_at(item, data, pos, more) == repeat_at(item, data, pos, count),
    decreases more,
{
    if count < more {
        lemma_repeat_failed(item, data, pos, count, (more - 1) as nat);
    }
}

} // verus!
