use crate::buffer::PacketBuffer;
use crate::decoded::{decoded, u16_at, Decoded};
use crate::error::CodecError;
use crate::name::name_at;
use crate::query_type::QueryType;
use vstd::prelude::*;

verus! {

/// One entry of the question section.
#[derive(Clone, Debug, PartialEq, Eq)]
pub struct DNSQuestion {
    /// The name asked for, its labels parted by dots.
    pub name: String,
    /// The type of record asked for.
    pub question_type: QueryType,
    /// The class, in practice always 1.
    pub class: u16,
}

/// Mathematical model of a question.
pub struct QuestionView {
    pub name: Seq<char>,
    pub question_type: QueryType,
    pub class: u16,
}

impl View for DNSQuestion {
    type V = QuestionView;

    open spec fn view(&self) -> QuestionView {
        QuestionView { name: self.name@, question_type: self.question_type, class: self.class }
    }
}

/// The question that `data` holds at `pos`: a name, then the number of a
/// type and a class, sixteen bits each.
pub open spec fn question_at(data: Seq<u8>, pos: int) -> Decoded<QuestionView> {
    name_at(data, pos).and_then(
        |name: Seq<char>, at: int|
            u16_at(data, at).and_then(
                |code: u16, at: int|
                    u16_at(data, at).and_then(
                        |class: u16, at: int|
                            decoded(
                                QuestionView {
                                    name,
                                    question_type: QueryType::from_num(code),
                                    class,
                                },
                                at,
                            ),
                    ),
            ),
    )
}

/// A question that was decoded leaves the read cursor behind the four
/// bytes that follow its name.
pub proof fn lemma_question_cursor(data: Seq<u8>, pos: int)
    ensures
        question_at(data, pos).value is Ok ==> question_at(data, pos).cursor == name_at(
            data,
            pos,
        ).cursor + 4,
{
}

impl DNSQuestion {
    /// A question for the address of the empty name.
    pub fn new() -> (question: DNSQuestion)
        ensures
            question@ == (QuestionView {
                name: Seq::empty(),
                question_type: QueryType::A,
                class: 1,
            }),
    {
        DNSQuestion { name: String::new(), question_type: QueryType::A, class: 1 }
    }

    /// Decodes the question under the read cursor.
    pub fn from_buffer(buffer: &mut PacketBuffer) -> (result: Result<DNSQuestion, CodecError>)
        ensures
            final(buffer)@ == old(buffer)@.reading_at(
                question_at(old(buffer)@.data, old(buffer)@.read_position).cursor,
            ),
            match result {
                Ok(question) => question_at(old(buffer)@.data, old(buffer)@.read_position).value
                    == Ok::<QuestionView, CodecError>(question@),
                Err(e) => question_at(old(buffer)@.data, old(buffer)@.read_position).value == Err::<
                    QuestionView,
                    CodecError,
                >(e),
            },
    {
        let mut question = DNSQuestion::new();
        question.name = buffer.read_qname()?;
        question.question_type = QueryType::from_num(buffer.read_as_u16()?);
        question.class = buffer.read_as_u16()?;
        Ok(question)
    }
}

} // verus!
