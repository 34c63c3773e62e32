use crate::buffer::{BufferView, CAPACITY};
use crate::decoded::decoded;
use crate::name::{
    all_short, append_label, first_label_len, is_pointer, label_chars, labels_wire, name_at,
    name_end, name_step, name_wire, pointer_target, split_labels, walk_after, walk_from,
    walk_name, NameStep, NameWalk, DOT, MAX_LABEL_LEN, MAX_NAME_STEPS,
};
use vstd::prelude::*;
use vstd::utf8::{
    decode_first_scalar, decode_utf8, decode_utf8_split, encode_utf8, encode_utf8_decode_utf8,
    encode_utf8_valid_utf8, is_char_boundary_iff_not_is_continuation_byte,
    length_of_first_scalar, pop_first_scalar, valid_first_scalar, valid_utf8, valid_utf8_split,
};

verus! {

/// The name that labels make when they are decoded one after the other,
/// `text` being what was decoded before them.
pub open spec fn join_labels(text: Seq<char>, labels: Seq<Seq<u8>>) -> Seq<char>
    decreases labels.len(),
{
    if labels.len() == 0 {
        text
    } else {
        join_labels(append_label(text, label_chars(labels[0])), labels.drop_first())
    }
}

/// Every label holds at least one byte and at most `MAX_LABEL_LEN`.
pub open spec fn labels_fit(labels: Seq<Seq<u8>>) -> bool {
    forall|i: int| 0 <= i < labels.len() ==> 1 <= (#[trigger] labels[i]).len() <= MAX_LABEL_LEN
}

/// The names that come back from their wire form as they went in: the
/// empty name, and every name of at most `MAX_NAME_STEPS` labels that
/// hold between one byte and `MAX_LABEL_LEN` bytes each.
pub open spec fn comes_back(name: Seq<char>) -> bool {
    let labels = split_labels(encode_utf8(name));
    name.len() == 0 || (labels.len() <= MAX_NAME_STEPS && labels_fit(labels))
}

/// Decoding passes over the wire form of labels that fit, one step for each.
proof fn lemma_walk_labels(data: Seq<u8>, labels: Seq<Seq<u8>>, walk: NameWalk, start: int)
    requires
        data.len() == CAPACITY,
        walk.resume is None,
        0 <= walk.steps,
        walk.steps + labels.len() <= MAX_NAME_STEPS,
        0 <= walk.pos,
        walk.pos + labels_wire(labels).len() <= CAPACITY,
        data.subrange(walk.pos, walk.pos + labels_wire(labels).len()) == labels_wire(labels),
        labels_fit(labels),
    ensures
        walk_name(data, walk, start) == name_end(
            NameWalk {
                pos: walk.pos + labels_wire(labels).len() - 1,
                steps: walk.steps + labels.len(),
                text: join_labels(walk.text, labels),
                resume: None,
            },
            start,
        ),
    decreases labels.len(),
{
    let wire = labels_wire(labels);
    let here = data.subrange(walk.pos, walk.pos + wire.len());
    if labels.len() == 0 {
        assert(here[0] == 0u8);
    } else {
        let label = labels[0];
        let rest = labels.drop_first();
        let tail = labels_wire(rest);
        assert(labels_fit(rest)) by {
            assert forall|i: int| 0 <= i < rest.len() implies 1 <= (#[trigger] rest[i]).len()
                <= MAX_LABEL_LEN by {
                assert(rest[i] == labels[i + 1]);
            }
        }
        assert(here[0] == label.len() as u8);
        let next = NameWalk {
            pos: walk.pos + 1 + label.len(),
            steps: walk.steps + 1,
            text: append_label(walk.text, label_chars(label)),
            resume: None,
        };
        assert(data.subrange(walk.pos + 1, walk.pos + 1 + label.len()) =~= label) by {
            assert forall|i: int| 0 <= i < label.len() implies data[walk.pos + 1 + i]
                == label[i] by {
                assert(here[1 + i] == wire[1 + i]);
            }
        }
        assert(data.subrange(next.pos, next.pos + tail.len()) =~= tail) by {
            assert forall|i: int| 0 <= i < tail.len() implies data[next.pos + i] == tail[i] by {
                assert(here[1 + label.len() + i] == wire[1 + label.len() + i]);
            }
        }
        lemma_walk_labels(data, rest, next, start);
    }
}

/// Bytes that are valid UTF-8 and not empty encode at least one character.
proof fn lemma_decode_not_empty(bytes: Seq<u8>)
    requires
        valid_utf8(bytes),
        bytes.len() > 0,
    ensures
        decode_utf8(bytes).len() > 0,
{
}

/// A dot in valid UTF-8 parts it into valid UTF-8 on either side, and the
/// text is the text of the one side, a dot, and the text of the other.
proof fn lemma_split_at_dot(bytes: Seq<u8>, at: int)
    requires
        valid_utf8(bytes),
        0 <= at < bytes.len(),
        bytes[at] == DOT,
    ensures
        valid_utf8(bytes.take(at)),
        valid_utf8(bytes.skip(at + 1)),
        decode_utf8(bytes) == decode_utf8(bytes.take(at)) + seq!['.'] + decode_utf8(
            bytes.skip(at + 1),
        ),
{
    let total = bytes.len() as int;
    let tail = bytes.subrange(at, total);
    is_char_boundary_iff_not_is_continuation_byte(bytes, at);
    valid_utf8_split(bytes, at);
    decode_utf8_split(bytes, at);
    assert(bytes.take(at) =~= bytes.subrange(0, at));
    assert(pop_first_scalar(tail) =~= bytes.skip(at + 1));
    assert(decode_first_scalar(tail) == 0x2Eu32) by {
        assert(0x2Eu8 & 0x7F == 0x2Eu8) by (bit_vector);
    }
}

/// The labels of valid UTF-8, decoded and joined with dots, are its text.
proof fn lemma_join_split(text: Seq<char>, bytes: Seq<u8>)
    requires
        valid_utf8(bytes),
        labels_fit(split_labels(bytes)),
    ensures
        join_labels(text, split_labels(bytes)) == append_label(text, decode_utf8(bytes)),
    decreases bytes.len(),
{
    let len = first_label_len(bytes) as int;
    let labels = split_labels(bytes);
    lemma_first_dot(bytes);
    if len < bytes.len() {
        let label = bytes.take(len);
        let rest = bytes.skip(len + 1);
        let more = split_labels(rest);
        assert(labels.drop_first() =~= more);
        assert(labels_fit(more)) by {
            assert forall|i: int| 0 <= i < more.len() implies 1 <= (#[trigger] more[i]).len()
                <= MAX_LABEL_LEN by {
                assert(more[i] == labels[i + 1]);
            }
        }
        lemma_split_at_dot(bytes, len);
        lemma_decode_not_empty(label);
        let so_far = append_label(text, decode_utf8(label));
        lemma_join_split(so_far, rest);
        assert(append_label(so_far, decode_utf8(rest)) =~= append_label(
            text,
            decode_utf8(bytes),
        ));
    } else {
        assert(labels[0] == bytes);
        assert(labels.drop_first() =~= Seq::<Seq<u8>>::empty());
        assert(join_labels(text, labels) == join_labels(
            append_label(text, label_chars(bytes)),
            Seq::empty(),
        ));
    }
}

/// Before the end of the first label stands no dot, and at its end a dot
/// or the end of the bytes.
proof fn lemma_first_dot(bytes: Seq<u8>)
    ensures
        first_label_len(bytes) <= bytes.len(),
        first_label_len(bytes) < bytes.len() ==> bytes[first_label_len(bytes) as int] == DOT,
    decreases bytes.len(),
{
    if bytes.len() > 0 && bytes[0] != DOT {
        lemma_first_dot(bytes.drop_first());
    }
}

/// Labels that stand in `data` at `start` in their wire form, without a
/// pointer among them, are decoded as these labels joined by dots, and the
/// read cursor goes behind the zero byte that ends them: for at least one
/// and at most `MAX_NAME_STEPS` labels of one to `MAX_LABEL_LEN` bytes each
/// that end before the last byte of the buffer.
pub proof fn lemma_plain_name(data: Seq<u8>, start: int, labels: Seq<Seq<u8>>)
    requires
        data.len() == CAPACITY,
        0 < labels.len() <= MAX_NAME_STEPS,
        labels_fit(labels),
        0 <= start,
        start + labels_wire(labels).len() < CAPACITY,
        data.subrange(start, start + labels_wire(labels).len()) == labels_wire(labels),
    ensures
        name_at(data, start) == decoded(
            join_labels(Seq::empty(), labels),
            start + labels_wire(labels).len(),
        ),
{
    lemma_walk_labels(data, labels, walk_from(start), start);
}

/// A walk that has passed a pointer and one step more than another walk,
/// and stands where that one stands, ends with the same name, if the other
/// ends at all and early enough to leave room for the step.
proof fn lemma_walk_behind_pointer(
    data: Seq<u8>,
    walk: NameWalk,
    start: int,
    behind: NameWalk,
    behind_start: int,
)
    requires
        0 <= walk.steps <= MAX_NAME_STEPS,
        behind.pos == walk.pos,
        behind.text == walk.text,
        behind.steps == walk.steps + 1,
        behind.resume is Some,
        walk_name(data, walk, start).value is Ok,
        walk_after(data, walk, (MAX_NAME_STEPS - walk.steps) as nat) is None,
    ensures
        walk_name(data, behind, behind_start) == decoded(
            walk_name(data, walk, start).value->Ok_0,
            behind.resume->Some_0,
        ),
    decreases MAX_NAME_STEPS - walk.steps,
{
    match name_step(data, walk) {
        NameStep::Next(next) => {
            let behind_next = NameWalk {
                pos: next.pos,
                steps: behind.steps + 1,
                text: next.text,
                resume: behind.resume,
            };
            lemma_walk_behind_pointer(data, next, start, behind_next, behind_start);
        },
        _ => {},
    }
}

/// A pointer is decoded as the name that it points to, and the read cursor
/// goes behind the pointer: where the pointer ends before the last byte of
/// the buffer, and the name it points to can be decoded by itself and ends
/// within one step less than `MAX_NAME_STEPS`.
pub proof fn lemma_pointer(data: Seq<u8>, start: int)
    requires
        0 <= start,
        start + 2 < CAPACITY,
        is_pointer(data[start]),
        name_at(data, pointer_target(data[start], data[start + 1])).value is Ok,
        walk_after(
            data,
            walk_from(pointer_target(data[start], data[start + 1])),
            MAX_NAME_STEPS as nat,
        ) is None,
    ensures
        name_at(data, start) == decoded(
            name_at(data, pointer_target(data[start], data[start + 1])).value->Ok_0,
            start + 2,
        ),
{
    let target = pointer_target(data[start], data[start + 1]);
    let behind = NameWalk { pos: target, steps: 1, text: Seq::empty(), resume: Some(start + 2) };
    lemma_walk_behind_pointer(data, walk_from(target), target, behind, start);
}

/// A name that was encoded at the write cursor is decoded there as the
/// same name: for every name without an empty label, of at most
/// `MAX_NAME_STEPS` labels of at most `MAX_LABEL_LEN` bytes each, whose
/// wire form ends before the last byte of the buffer. Encoding such a name
/// succeeds and puts its whole wire form into the buffer; decoding leaves
/// the read cursor behind the wire form. The empty name comes back too,
/// from any place that has room for it, and moves no cursor.
pub proof fn lemma_name_round_trip(view: BufferView, name: Seq<char>)
    requires
        view.wf(),
        comes_back(name),
        view.write_position + name_wire(encode_utf8(name)).len() <= CAPACITY,
        name.len() > 0 ==> view.write_position + name_wire(encode_utf8(name)).len() < CAPACITY,
    ensures
        all_short(split_labels(encode_utf8(name))),
        view.put_what_fits(name_wire(encode_utf8(name))) == view.put(
            name_wire(encode_utf8(name)),
        ),
        name_at(view.put(name_wire(encode_utf8(name))).data, view.write_position) == decoded(
            name,
            if name.len() == 0 {
                view.write_position
            } else {
                view.write_position + name_wire(encode_utf8(name)).len()
            },
        ),
{
    let bytes = encode_utf8(name);
    let labels = split_labels(bytes);
    let wire = name_wire(bytes);
    let data = view.put(wire).data;
    let start = view.write_position;
    let walk = walk_from(start);
    crate::buffer::lemma_put_twice(view, wire, Seq::empty());
    assert(data.subrange(start, start + wire.len()) =~= wire);
    if name.len() == 0 {
        assert(name =~= Seq::<char>::empty());
    } else {
        encode_utf8_valid_utf8(name);
        encode_utf8_decode_utf8(name);
        lemma_walk_labels(data, labels, walk, start);
        lemma_join_split(Seq::empty(), bytes);
        lemma_first_dot(bytes);
    }
}

} // verus!
