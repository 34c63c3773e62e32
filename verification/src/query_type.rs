use vstd::prelude::*;

verus! {

/// The type of a question or of a record: the known ones by name, any
/// other by its number.
#[derive(PartialEq, Eq, Debug, Clone, Hash, Copy, Structural)]
pub enum QueryType {
    /// A type that has no name here, with its number.
    UNKNOWN(u16),
    /// An IPv4 address record: number 1.
    A,
}

/// The name of `QueryType` where it stands for the type of a question.
pub type DNSQuestionQueryType = QueryType;

impl QueryType {
    /// The number that stands for this type on the wire.
    pub open spec fn spec_to_num(&self) -> u16 {
        match *self {
            QueryType::A => 1,
            QueryType::UNKNOWN(num) => num,
        }
    }

    /// The type that `num` stands for on the wire.
    pub open spec fn spec_from_num(num: u16) -> QueryType {
        if num == 1 {
            QueryType::A
        } else {
            QueryType::UNKNOWN(num)
        }
    }

    /// A number never stands under `UNKNOWN` where it has a name.
    pub open spec fn wf(&self) -> bool {
        *self != QueryType::UNKNOWN(1)
    }

    /// The number that stands for this type on the wire.
    #[verifier::when_used_as_spec(spec_to_num)]
    pub fn to_num(&self) -> (num: u16)
        ensures
            num == self.spec_to_num(),
    {
        match *self {
            QueryType::A => 1,
            QueryType::UNKNOWN(num) => num,
        }
    }

    /// The type that `num` stands for on the wire.
    #[verifier::when_used_as_spec(spec_from_num)]
    pub fn from_num(num: u16) -> (query_type: QueryType)
        ensures
            query_type == QueryType::spec_from_num(num),
            query_type.wf(),
    {
        match num {
            1 => QueryType::A,
            _ => QueryType::UNKNOWN(num),
        }
    }
}

/// Every number comes back from the type that it stands for.
pub proof fn lemma_num_round_trip(num: u16)
    ensures
        QueryType::from_num(num).to_num() == num,
        QueryType::from_num(num).wf(),
{
}

/// Every type comes back from its number, unless it holds under `UNKNOWN`
/// a number that has a name.
pub proof fn lemma_type_round_trip(query_type: QueryType)
    requires
        query_type.wf(),
    ensures
        QueryType::from_num(query_type.to_num()) == query_type,
{
}

} // verus!
