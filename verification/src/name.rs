use crate::buffer::{lemma_put_full, lemma_put_twice, PacketBuffer, CAPACITY};
use crate::decoded::{decoded, failed, Decoded};
use crate::error::CodecError;
use vstd::prelude::*;
use vstd::slice::slice_subrange;
use vstd::string::StringExecFns;
use vstd::string::StringSliceAdditionalSpecFns;
use vstd::utf8::{decode_utf8, valid_utf8};

verus! {

/// Most labels and pointers a name may take to reach its end.
pub const MAX_NAME_STEPS: usize = 5;

/// Most bytes a label may hold when a name is encoded.
pub const MAX_LABEL_LEN: usize = 63;

/// The text that `String::from_utf8_lossy` makes of bytes that are not
/// valid UTF-8.
pub uninterp spec fn lossy_text(bytes: Seq<u8>) -> Seq<char>;

/// The text that stands for the bytes of a label: the text they encode
/// where they are valid UTF-8, else what is made of them.
pub open spec fn label_chars(bytes: Seq<u8>) -> Seq<char> {
    if valid_utf8(bytes) {
        decode_utf8(bytes)
    } else {
        lossy_text(bytes)
    }
}

/// Turns the bytes of a label into text with `String::from_utf8_lossy`. Of
/// that function this says: bytes that are valid UTF-8 come out as the text
/// they encode; what comes out of any other bytes depends on the bytes
/// alone.
#[verifier::external_body]
fn label_text(bytes: &[u8]) -> (text: String)
    ensures
        valid_utf8(bytes@) ==> text@ == decode_utf8(bytes@),
        !valid_utf8(bytes@) ==> text@ == lossy_text(bytes@),
{
    String::from_utf8_lossy(bytes).into_owned()
}

/// Where the decoding of a name stands between two steps.
pub struct NameWalk {
    /// Position of the length byte to look at next.
    pub pos: int,
    /// Labels and pointers passed so far.
    pub steps: int,
    /// The name as far as it has been built.
    pub text: Seq<char>,
    /// Where the read cursor was put when the first pointer was met.
    pub resume: Option<int>,
}

/// What one look at a length byte leads to.
pub enum NameStep {
    /// The zero byte that ends the name.
    End,
    /// A label or a pointer was passed.
    Next(NameWalk),
    /// The name cannot be decoded.
    Fail(CodecError),
}

/// A length byte with its two top bits set is the first byte of a pointer.
pub open spec fn is_pointer(len: u8) -> bool {
    len >= 0xC0
}

/// The offset that the two bytes of a pointer hold: fourteen bits, the
/// first byte's lower six before the second byte's eight.
pub open spec fn pointer_target(first: u8, second: u8) -> int {
    (first - 0xC0) * 256 + second
}

/// The name after one more label: a dot goes between two labels.
pub open spec fn append_label(text: Seq<char>, label: Seq<char>) -> Seq<char> {
    if text.len() > 0 {
        text + seq!['.'] + label
    } else {
        label
    }
}

/// One step of decoding a name in `data`.
pub open spec fn name_step(data: Seq<u8>, walk: NameWalk) -> NameStep {
    if walk.steps > MAX_NAME_STEPS {
        NameStep::Fail(CodecError::TooManyJumps)
    } else if !(0 <= walk.pos < CAPACITY) {
        NameStep::Fail(CodecError::EndOfBuffer)
    } else {
        let len = data[walk.pos];
        if len == 0 {
            NameStep::End
        } else if is_pointer(len) {
            if walk.resume is None && walk.pos + 2 >= CAPACITY {
                NameStep::Fail(CodecError::EndOfBuffer)
            } else if walk.pos + 1 >= CAPACITY {
                NameStep::Fail(CodecError::EndOfBuffer)
            } else {
                NameStep::Next(
                    NameWalk {
                        pos: pointer_target(len, data[walk.pos + 1]),
                        steps: walk.steps + 1,
                        text: walk.text,
                        resume: if walk.resume is None {
                            Some(walk.pos + 2)
                        } else {
                            walk.resume
                        },
                    },
                )
            }
        } else if walk.pos + 1 + len > CAPACITY {
            NameStep::Fail(CodecError::EndOfBuffer)
        } else {
            NameStep::Next(
                NameWalk {
                    pos: walk.pos + 1 + len,
                    steps: walk.steps + 1,
                    text: append_label(
                        walk.text,
                        label_chars(data.subrange(walk.pos + 1, walk.pos + 1 + len)),
                    ),
                    resume: walk.resume,
                },
            )
        }
    }
}

/// Where the read cursor stays when decoding stops at `walk`, having begun
/// at `start`, without reaching the end of the name.
pub open spec fn cursor_on_failure(walk: NameWalk, start: int) -> int {
    match walk.resume {
        Some(after_pointer) => after_pointer,
        None => start,
    }
}

/// What decoding gives once `walk` stands on the zero byte that ends the
/// name. After a pointer the cursor stays behind that pointer. Else it goes
/// behind the zero byte, but for a name without labels, which moves nothing.
pub open spec fn name_end(walk: NameWalk, start: int) -> Decoded<Seq<char>> {
    match walk.resume {
        Some(after_pointer) => decoded(walk.text, after_pointer),
        None => if walk.steps == 0 {
            decoded(walk.text, start)
        } else if walk.pos + 1 < CAPACITY {
            decoded(walk.text, walk.pos + 1)
        } else {
            failed(CodecError::EndOfBuffer, start)
        },
    }
}

/// Decoding a name in `data` from `walk` on, the read cursor having been at
/// `start` when decoding began.
pub open spec fn walk_name(data: Seq<u8>, walk: NameWalk, start: int) -> Decoded<Seq<char>>
    decreases MAX_NAME_STEPS + 1 - walk.steps,
{
    match name_step(data, walk) {
        NameStep::End => name_end(walk, start),
        NameStep::Fail(e) => failed(e, cursor_on_failure(walk, start)),
        NameStep::Next(next) => walk_name(data, next, start),
    }
}

/// Where decoding begins: at `start`, with nothing passed and nothing built.
pub open spec fn walk_from(start: int) -> NameWalk {
    NameWalk { pos: start, steps: 0, text: Seq::empty(), resume: None }
}

/// The name that `data` holds at `start`.
pub open spec fn name_at(data: Seq<u8>, start: int) -> Decoded<Seq<char>> {
    walk_name(data, walk_from(start), start)
}

/// Where decoding stands after `count` more labels and pointers, if as
/// many follow each other before the name ends or fails.
pub open spec fn walk_after(data: Seq<u8>, walk: NameWalk, count: nat) -> Option<NameWalk>
    decreases count,
{
    if count == 0 {
        Some(walk)
    } else {
        match name_step(data, walk) {
            NameStep::Next(next) => walk_after(data, next, (count - 1) as nat),
            _ => None,
        }
    }
}

/// From `walk` on, decoding fails for want of an end exactly where labels
/// and pointers follow each other until more than `MAX_NAME_STEPS` have
/// been passed.
proof fn lemma_walk_too_long(data: Seq<u8>, walk: NameWalk, start: int)
    requires
        0 <= walk.steps <= MAX_NAME_STEPS + 1,
    ensures
        walk_name(data, walk, start).value == Err::<Seq<char>, CodecError>(
            CodecError::TooManyJumps,
        ) <==> walk_after(data, walk, (MAX_NAME_STEPS + 1 - walk.steps) as nat) is Some,
    decreases MAX_NAME_STEPS + 1 - walk.steps,
{
    match name_step(data, walk) {
        NameStep::Next(next) => {
            lemma_walk_too_long(data, next, start);
        },
        _ => {},
    }
}

/// Decoding a name fails with `TooManyJumps` if and only if more than
/// `MAX_NAME_STEPS` labels and pointers follow each other from `start` on,
/// each inside the buffer: whatever the sixth leads to is never looked at.
pub proof fn lemma_too_many_jumps(data: Seq<u8>, start: int)
    ensures
        name_at(data, start).value == Err::<Seq<char>, CodecError>(CodecError::TooManyJumps)
            <==> walk_after(data, walk_from(start), (MAX_NAME_STEPS + 1) as nat) is Some,
{
    lemma_walk_too_long(data, walk_from(start), start);
}

/// The byte that parts the labels of a name in text.
pub const DOT: u8 = 0x2E;

/// How many bytes stand before the first dot of `bytes`, or all of them.
pub open spec fn first_label_len(bytes: Seq<u8>) -> nat
    decreases bytes.len(),
{
    if bytes.len() == 0 || bytes[0] == DOT {
        0
    } else {
        1 + first_label_len(bytes.drop_first())
    }
}

/// The labels of a name given as bytes: the runs of bytes between its dots.
/// A name without a dot is one label, and so is the empty name.
pub open spec fn split_labels(bytes: Seq<u8>) -> Seq<Seq<u8>>
    decreases bytes.len(),
{
    let len = first_label_len(bytes) as int;
    if len < bytes.len() {
        seq![bytes.take(len)] + split_labels(bytes.skip(len + 1))
    } else {
        seq![bytes]
    }
}

/// No label is longer than `MAX_LABEL_LEN` bytes.
pub open spec fn all_short(labels: Seq<Seq<u8>>) -> bool {
    forall|i: int| 0 <= i < labels.len() ==> (#[trigger] labels[i]).len() <= MAX_LABEL_LEN
}

/// The wire form of `labels`: before each label its length in one byte, and
/// a zero byte behind the last. It breaks off before the first label that is
/// too long.
pub open spec fn labels_wire(labels: Seq<Seq<u8>>) -> Seq<u8>
    decreases labels.len(),
{
    if labels.len() == 0 {
        seq![0u8]
    } else if labels[0].len() > MAX_LABEL_LEN {
        Seq::empty()
    } else {
        seq![labels[0].len() as u8] + labels[0] + labels_wire(labels.drop_first())
    }
}

/// The wire form of the name whose text is `bytes` in UTF-8.
pub open spec fn name_wire(bytes: Seq<u8>) -> Seq<u8> {
    labels_wire(split_labels(bytes))
}

/// `len` is the length of the first label if the bytes before it hold no
/// dot and a dot or the end follows.
proof fn lemma_first_label_len(bytes: Seq<u8>, len: int)
    requires
        0 <= len <= bytes.len(),
        forall|i: int| 0 <= i < len ==> bytes[i] != DOT,
        len == bytes.len() || bytes[len] == DOT,
    ensures
        first_label_len(bytes) == len,
    decreases bytes.len(),
{
    if len > 0 {
        let rest = bytes.drop_first();
        assert forall|i: int| 0 <= i < len - 1 implies rest[i] != DOT by {
            assert(rest[i] == bytes[i + 1]);
        }
        lemma_first_label_len(rest, len - 1);
    }
}

/// The wire form of a short label followed by more labels.
proof fn lemma_wire_cons(label: Seq<u8>, rest: Seq<Seq<u8>>)
    requires
        label.len() <= MAX_LABEL_LEN,
    ensures
        labels_wire(seq![label] + rest) == seq![label.len() as u8] + label + labels_wire(rest),
        all_short(seq![label] + rest) <==> all_short(rest),
{
    let labels = seq![label] + rest;
    assert(labels.drop_first() =~= rest);
    if all_short(labels) {
        assert forall|i: int| 0 <= i < rest.len() implies (#[trigger] rest[i]).len()
            <= MAX_LABEL_LEN by {
            assert(labels[i + 1] == rest[i]);
        }
    }
    if all_short(rest) {
        assert forall|i: int| 0 <= i < labels.len() implies (#[trigger] labels[i]).len()
            <= MAX_LABEL_LEN by {
            if i > 0 {
                assert(labels[i] == rest[i - 1]);
            }
        }
    }
}

/// The wire form breaks off at once where the first label is too long.
proof fn lemma_wire_long(labels: Seq<Seq<u8>>)
    requires
        labels.len() > 0,
        labels[0].len() > MAX_LABEL_LEN,
    ensures
        labels_wire(labels) == Seq::<u8>::empty(),
        !all_short(labels),
{
}

/// Finds where the label that begins at `start` ends.
fn label_end(bytes: &[u8], start: usize) -> (end: usize)
    requires
        start <= bytes@.len(),
    ensures
        start <= end <= bytes@.len(),
        end - start == first_label_len(bytes@.skip(start as int)),
{
    let mut end = start;
    while end < bytes.len() && bytes[end] != DOT
        invariant
            start <= end <= bytes@.len(),
            forall|i: int| start <= i < end ==> bytes@[i] != DOT,
        decreases bytes@.len() - end,
    {
        end = end + 1;
    }
    proof {
        lemma_first_label_len(bytes@.skip(start as int), end - start);
    }
    end
}

/// Reduces the two bytes of a pointer to the offset they hold.
fn pointer_offset(first: u8, second: u8) -> (offset: usize)
    requires
        is_pointer(first),
    ensures
        offset == pointer_target(first, second),
{
    let high: u16 = (first ^ 0xC0) as u16;
    let low: u16 = second as u16;
    let offset: u16 = (high << 8) | low;
    assert(offset == (first - 0xC0) * 256 + second) by (bit_vector)
        requires
            first >= 0xC0,
            high == (first ^ 0xC0) as u16,
            low == second as u16,
            offset == (high << 8) | low,
    ;
    offset as usize
}

/// Adds the text of one more label to `name`, behind a dot where `name`
/// holds a label already.
pub fn push_label(name: &mut String, label: &str)
    ensures
        final(name)@ == append_label(old(name)@, label@),
{
    if !name.as_str().is_empty() {
        proof {
            reveal_strlit(".");
        }
        name.append(".");
    }
    name.append(label);
    assert(name@ =~= append_label(old(name)@, label@));
}

impl PacketBuffer {
    /// Decodes the name under the read cursor, following pointers, and
    /// leaves the cursor behind the name's encoding in place.
    pub fn read_qname(&mut self) -> (result: Result<String, CodecError>)
        ensures
            final(self)@ == old(self)@.reading_at(
                name_at(old(self)@.data, old(self)@.read_position).cursor,
            ),
            match result {
                Ok(name) => name_at(old(self)@.data, old(self)@.read_position).value == Ok::<
                    Seq<char>,
                    CodecError,
                >(name@),
                Err(e) => name_at(old(self)@.data, old(self)@.read_position).value == Err::<
                    Seq<char>,
                    CodecError,
                >(e),
            },
    {
        let start = self.read_position();
        let mut name = String::new();
        let mut pos: usize = start;
        let mut steps: usize = 0;
        let mut jumped = false;
        loop
            invariant
                steps <= MAX_NAME_STEPS + 1,
                self@.data == old(self)@.data,
                self@.write_position == old(self)@.write_position,
                start == old(self)@.read_position,
                !jumped ==> self@.read_position == start,
                walk_name(
                    self@.data,
                    NameWalk {
                        pos: pos as int,
                        steps: steps as int,
                        text: name@,
                        resume: if jumped {
                            Some(self@.read_position)
                        } else {
                            None
                        },
                    },
                    start as int,
                ) == name_at(old(self)@.data, start as int),
            ensures
                steps <= MAX_NAME_STEPS,
                pos < CAPACITY,
                self@.data == old(self)@.data,
                self@.write_position == old(self)@.write_position,
                start == old(self)@.read_position,
                !jumped ==> self@.read_position == start,
                name_end(
                    NameWalk {
                        pos: pos as int,
                        steps: steps as int,
                        text: name@,
                        resume: if jumped {
                            Some(self@.read_position)
                        } else {
                            None
                        },
                    },
                    start as int,
                ) == name_at(old(self)@.data, start as int),
            decreases MAX_NAME_STEPS + 1 - steps,
        {
            if steps > MAX_NAME_STEPS {
                return Err(CodecError::TooManyJumps);
            }
            if pos >= CAPACITY {
                return Err(CodecError::EndOfBuffer);
            }
            let len = self.get_at(pos);
            if len == 0 {
                break ;
            }
            if (len & 0xC0) == 0xC0 {
                assert(is_pointer(len)) by (bit_vector)
                    requires
                        (len & 0xC0) == 0xC0,
                ;
                if !jumped {
                    self.seek_read(pos + 2)?;
                }
                if pos + 1 >= CAPACITY {
                    return Err(CodecError::EndOfBuffer);
                }
                let second = self.get_at(pos + 1);
                pos = pointer_offset(len, second);
                jumped = true;
                steps = steps + 1;
                continue ;
            }
            assert(!is_pointer(len)) by (bit_vector)
                requires
                    (len & 0xC0) != 0xC0,
            ;
            let text = label_text(self.get_range(pos + 1, len as usize)?);
            push_label(&mut name, text.as_str());
            pos = pos + 1 + len as usize;
            steps = steps + 1;
        }
        if steps > 0 && !jumped {
            self.seek_read(pos + 1)?;
        }
        Ok(name)
    }

    /// Encodes `qname`, label by label and without compression, from the write
    /// cursor on. The bytes go in one by one: what fits has gone in when the
    /// buffer proves too small, and the labels before one that is too long
    /// have gone in when that one is met.
    pub fn write_qname(&mut self, qname: &str) -> (result: Result<(), CodecError>)
        ensures
            final(self)@ == old(self)@.put_what_fits(name_wire(qname.spec_bytes())),
            match result {
                Ok(_) => old(self)@.write_position + name_wire(qname.spec_bytes()).len()
                    <= CAPACITY && all_short(split_labels(qname.spec_bytes())),
                Err(e) => if old(self)@.write_position + name_wire(qname.spec_bytes()).len()
                    > CAPACITY {
                    e == CodecError::EndOfBuffer
                } else {
                    e == CodecError::LabelTooLong && !all_short(
                        split_labels(qname.spec_bytes()),
                    )
                },
            },
    {
        proof {
            use_type_invariant(&*self);
        }
        let bytes = qname.as_bytes();
        let total = bytes.len();
        let ghost wire = name_wire(bytes@);
        let ghost mut written = Seq::<u8>::empty();
        let mut start: usize = 0;
        assert(bytes@.skip(0) =~= bytes@);
        assert(old(self)@.put(written).data =~= self@.data);
        loop
            invariant_except_break
                wire == written + labels_wire(split_labels(bytes@.skip(start as int))),
                all_short(split_labels(bytes@)) <==> all_short(
                    split_labels(bytes@.skip(start as int)),
                ),
            invariant
                total == bytes@.len(),
                bytes@ == qname.spec_bytes(),
                start <= total,
                old(self)@.wf(),
                old(self)@.write_position + written.len() <= CAPACITY,
                self@ == old(self)@.put(written),
                wire == name_wire(bytes@),
            ensures
                wire == written + seq![0u8],
                all_short(split_labels(bytes@)),
            decreases total - start,
        {
            let ghost rest = bytes@.skip(start as int);
            let end = label_end(bytes, start);
            let len = end - start;
            let ghost label = rest.take(len as int);
            let ghost more = if end < total {
                split_labels(rest.skip(len + 1))
            } else {
                Seq::empty()
            };
            proof {
                if end == total {
                    assert(label =~= rest);
                } else {
                    assert(rest.skip(len + 1) =~= bytes@.skip(end + 1));
                }
                lemma_put_twice(old(self)@, written, Seq::empty());
            }
            if len > MAX_LABEL_LEN {
                proof {
                    lemma_wire_long(split_labels(rest));
                }
                return Err(CodecError::LabelTooLong);
            }
            let ghost size = seq![len as u8];
            let ghost head = size + label;
            let ghost tail = labels_wire(more);
            proof {
                lemma_wire_cons(label, more);
                assert(wire =~= (written + head) + tail);
                assert(written + size + label =~= written + head);
                assert(bytes@.subrange(start as int, end as int) =~= label);
            }
            match self.write(len as u8) {
                Ok(_) => {},
                Err(e) => {
                    proof {
                        lemma_put_full(old(self)@, written, head + tail);
                    }
                    return Err(e);
                },
            }
            proof {
                lemma_put_twice(old(self)@, written, size);
                lemma_put_twice(old(self)@, written + size, label);
            }
            match self.write_bytes(slice_subrange(bytes, start, end)) {
                Ok(_) => {},
                Err(e) => {
                    proof {
                        lemma_put_full(old(self)@, written + head, tail);
                    }
                    return Err(e);
                },
            }
            proof {
                lemma_put_twice(old(self)@, written + head, Seq::empty());
                written = written + head;
            }
            if end == total {
                break ;
            }
            start = end + 1;
        }
        proof {
            lemma_put_twice(old(self)@, written, seq![0u8]);
        }
        match self.write(0) {
            Ok(_) => {
                proof {
                    lemma_put_twice(old(self)@, wire, Seq::empty());
                }
                Ok(())
            },
            Err(e) => {
                proof {
                    lemma_put_full(old(self)@, written, seq![0u8]);
                }
                Err(e)
            },
        }
    }
}

} // verus!
