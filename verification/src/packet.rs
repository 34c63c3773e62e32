use crate::buffer::PacketBuffer;
use crate::decoded::{decoded, lemma_repeat_failed, lemma_repeat_len, repeat_at, Decoded};
use crate::error::CodecError;
use crate::header::{header_at, DNSHeader};
use crate::question::{question_at, DNSQuestion, QuestionView};
use crate::record::{record_at, DNSRecord, RecordView};
use vstd::prelude::*;

verus! {

/// A whole message: its header and its four sections.
#[derive(Clone, Debug, PartialEq, Eq)]
pub struct DNSPacket {
    pub header: DNSHeader,
    pub questions: Vec<DNSQuestion>,
    pub answers: Vec<DNSRecord>,
    pub authorities: Vec<DNSRecord>,
    pub additionals: Vec<DNSRecord>,
}

/// A shorter name for a whole message.
pub type Packet = DNSPacket;

/// Mathematical model of a message.
pub struct PacketView {
    pub header: DNSHeader,
    pub questions: Seq<QuestionView>,
    pub answers: Seq<RecordView>,
    pub authorities: Seq<RecordView>,
    pub additionals: Seq<RecordView>,
}

/// The models of the questions in `questions`, in order.
pub open spec fn question_views(questions: Seq<DNSQuestion>) -> Seq<QuestionView> {
    questions.map_values(|question: DNSQuestion| question@)
}

/// The models of the records in `records`, in order.
pub open spec fn record_views(records: Seq<DNSRecord>) -> Seq<RecordView> {
    records.map_values(|record: DNSRecord| record@)
}

impl View for DNSPacket {
    type V = PacketView;

    open spec fn view(&self) -> PacketView {
        PacketView {
            header: self.header,
            questions: question_views(self.questions@),
            answers: record_views(self.answers@),
            authorities: record_views(self.authorities@),
            additionals: record_views(self.additionals@),
        }
    }
}

/// The `count` questions that `data` holds from `pos` on.
pub open spec fn questions_at(data: Seq<u8>, pos: int, count: nat) -> Decoded<Seq<QuestionView>> {
    repeat_at(|data: Seq<u8>, pos: int| question_at(data, pos), data, pos, count)
}

/// The `count` records that `data` holds from `pos` on.
pub open spec fn records_at(data: Seq<u8>, pos: int, count: nat) -> Decoded<Seq<RecordView>> {
    repeat_at(|data: Seq<u8>, pos: int| record_at(data, pos), data, pos, count)
}

/// The message that `data` holds at `pos`: the header, then as many
/// questions, answers, authority records and additional records as the
/// header counts, in that order. The counts are taken at their word.
pub open spec fn packet_at(data: Seq<u8>, pos: int) -> Decoded<PacketView> {
    header_at(data, pos).and_then(
        |header: DNSHeader, at: int|
            questions_at(data, at, header.question_count as nat).and_then(
                |questions: Seq<QuestionView>, at: int|
                    records_at(data, at, header.answer_count as nat).and_then(
                        |answers: Seq<RecordView>, at: int|
                            records_at(data, at, header.authority_count as nat).and_then(
                                |authorities: Seq<RecordView>, at: int|
                                    records_at(
                                        data,
                                        at,
                                        header.additional_count as nat,
                                    ).and_then(
                                        |additionals: Seq<RecordView>, at: int|
                                            decoded(
                                                PacketView {
                                                    header,
                                                    questions,
                                                    answers,
                                                    authorities,
                                                    additionals,
                                                },
                                                at,
                                            ),
                                    ),
                            ),
                    ),
            ),
    )
}

/// A message that was decoded holds in each section as many entries as its
/// header counts for that section.
pub proof fn lemma_packet_counts(data: Seq<u8>, pos: int)
    ensures
        packet_at(data, pos).value matches Ok(packet) ==> {
            &&& packet.questions.len() == packet.header.question_count
            &&& packet.answers.len() == packet.header.answer_count
            &&& packet.authorities.len() == packet.header.authority_count
            &&& packet.additionals.len() == packet.header.additional_count
        },
{
    let first = header_at(data, pos);
    if first.value is Ok {
        let header = first.value->Ok_0;
        let question = |data: Seq<u8>, pos: int| question_at(data, pos);
        let record = |data: Seq<u8>, pos: int| record_at(data, pos);
        let questions = questions_at(data, first.cursor, header.question_count as nat);
        lemma_repeat_len(question, data, first.cursor, header.question_count as nat);
        if questions.value is Ok {
            let answers = records_at(data, questions.cursor, header.answer_count as nat);
            lemma_repeat_len(record, data, questions.cursor, header.answer_count as nat);
            if answers.value is Ok {
                let authorities = records_at(data, answers.cursor, header.authority_count as nat);
                lemma_repeat_len(record, data, answers.cursor, header.authority_count as nat);
                if authorities.value is Ok {
                    lemma_repeat_len(
                        record,
                        data,
                        authorities.cursor,
                        header.additional_count as nat,
                    );
                }
            }
        }
    }
}

/// Decodes `count` questions in a row.
fn read_questions(buffer: &mut PacketBuffer, count: u16) -> (result: Result<
    Vec<DNSQuestion>,
    CodecError,
>)
    ensures
        final(buffer)@ == old(buffer)@.reading_at(
            questions_at(old(buffer)@.data, old(buffer)@.read_position, count as nat).cursor,
        ),
        match result {
            Ok(questions) => questions_at(
                old(buffer)@.data,
                old(buffer)@.read_position,
                count as nat,
            ).value == Ok::<Seq<QuestionView>, CodecError>(question_views(questions@)),
            Err(e) => questions_at(
                old(buffer)@.data,
                old(buffer)@.read_position,
                count as nat,
            ).value == Err::<Seq<QuestionView>, CodecError>(e),
        },
{
    let ghost data = buffer@.data;
    let ghost start = buffer@.read_position;
    let mut questions: Vec<DNSQuestion> = Vec::new();
    let mut done: u16 = 0;
    assert(question_views(questions@) =~= Seq::empty());
    while done < count
        invariant
            done <= count,
            data == old(buffer)@.data,
            start == old(buffer)@.read_position,
            buffer@ == old(buffer)@.reading_at(questions_at(data, start, done as nat).cursor),
            questions_at(data, start, done as nat).value == Ok::<Seq<QuestionView>, CodecError>(
                question_views(questions@),
            ),
        decreases count - done,
    {
        let ghost before = question_views(questions@);
        match DNSQuestion::from_buffer(buffer) {
            Ok(question) => {
                questions.push(question);
                assert(question_views(questions@) =~= before.push(question@));
            },
            Err(e) => {
                proof {
                    lemma_repeat_failed(
                        |data: Seq<u8>, pos: int| question_at(data, pos),
                        data,
                        start,
                        (done + 1) as nat,
                        count as nat,
                    );
                }
                return Err(e);
            },
        }
        done = done + 1;
    }
    Ok(questions)
}

/// Decodes `count` records in a row.
fn read_records(buffer: &mut PacketBuffer, count: u16) -> (result: Result<
    Vec<DNSRecord>,
    CodecError,
>)
    ensures
        final(buffer)@ == old(buffer)@.reading_at(
            records_at(old(buffer)@.data, old(buffer)@.read_position, count as nat).cursor,
        ),
        match result {
            Ok(records) => records_at(
                old(buffer)@.data,
                old(buffer)@.read_position,
                count as nat,
            ).value == Ok::<Seq<RecordView>, CodecError>(record_views(records@)),
            Err(e) => records_at(
                old(buffer)@.data,
                old(buffer)@.read_position,
                count as nat,
            ).value == Err::<Seq<RecordView>, CodecError>(e),
        },
{
    let ghost data = buffer@.data;
    let ghost start = buffer@.read_position;
    let mut records: Vec<DNSRecord> = Vec::new();
    let mut done: u16 = 0;
    assert(record_views(records@) =~= Seq::empty());
    while done < count
        invariant
            done <= count,
            data == old(buffer)@.data,
            start == old(buffer)@.read_position,
            buffer@ == old(buffer)@.reading_at(records_at(data, start, done as nat).cursor),
            records_at(data, start, done as nat).value == Ok::<Seq<RecordView>, CodecError>(
                record_views(records@),
            ),
        decreases count - done,
    {
        let ghost before = record_views(records@);
        match DNSRecord::from_buffer(buffer) {
            Ok(record) => {
                records.push(record);
                assert(record_views(records@) =~= before.push(record@));
            },
            Err(e) => {
                proof {
                    lemma_repeat_failed(
                        |data: Seq<u8>, pos: int| record_at(data, pos),
                        data,
                        start,
                        (done + 1) as nat,
                        count as nat,
                    );
                }
                return Err(e);
            },
        }
        done = done + 1;
    }
    Ok(records)
}

impl DNSPacket {
    /// A message with an all-zero header and four empty sections.
    pub fn new() -> (packet: DNSPacket)
        ensures
            packet@ == (PacketView {
                header: DNSHeader::zero(),
                questions: Seq::empty(),
                answers: Seq::empty(),
                authorities: Seq::empty(),
                additionals: Seq::empty(),
            }),
    {
        let packet = DNSPacket {
            header: DNSHeader::new(),
            questions: Vec::new(),
            answers: Vec::new(),
            authorities: Vec::new(),
            additionals: Vec::new(),
        };
        assert(question_views(packet.questions@) =~= Seq::empty());
        assert(record_views(packet.answers@) =~= Seq::empty());
        packet
    }

    /// Decodes the message under the read cursor. The first entry that
    /// fails to decode fails the whole message.
    pub fn from_buffer(buffer: &mut PacketBuffer) -> (result: Result<DNSPacket, CodecError>)
        ensures
            final(buffer)@ == old(buffer)@.reading_at(
                packet_at(old(buffer)@.data, old(buffer)@.read_position).cursor,
            ),
            match result {
                Ok(packet) => packet_at(old(buffer)@.data, old(buffer)@.read_position).value
                    == Ok::<PacketView, CodecError>(packet@),
                Err(e) => packet_at(old(buffer)@.data, old(buffer)@.read_position).value == Err::<
                    PacketView,
                    CodecError,
                >(e),
            },
    {
        let header = DNSHeader::from_buffer(buffer)?;
        let questions = read_questions(buffer, header.question_count)?;
        let answers = read_records(buffer, header.answer_count)?;
        let authorities = read_records(buffer, header.authority_count)?;
        let additionals = read_records(buffer, header.additional_count)?;
        Ok(DNSPacket { header, questions, answers, authorities, additionals })
    }
}

} // verus!
