use vstd::prelude::*;

verus! {

/// The ways a codec operation can fail.
#[derive(Clone, Copy, Debug, PartialEq, Eq, Hash, Structural)]
pub enum CodecError {
    /// A read, write, seek or skip would pass the end of the buffer.
    EndOfBuffer,
    /// A name did not end within the allowed number of labels and pointers.
    TooManyJumps,
    /// A label of a name to encode is longer than 63 bytes.
    LabelTooLong,
}

} // verus!
