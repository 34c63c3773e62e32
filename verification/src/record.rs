use crate::buffer::{PacketBuffer, CAPACITY};
use crate::decoded::{decoded, failed, u16_at, u32_at, Decoded};
use crate::error::CodecError;
use crate::name::name_at;
use crate::query_type::QueryType;
use vstd::prelude::*;

verus! {

/// An IPv4 address as its four octets, in the order in which they are
/// written with dots between them.
#[derive(Clone, Copy, Debug, PartialEq, Eq, Hash, PartialOrd, Ord, Structural)]
pub struct Ipv4Address(pub u8, pub u8, pub u8, pub u8);

impl Ipv4Address {
    /// The address that the 32-bit number `raw` holds, most significant
    /// octet first.
    pub open spec fn spec_from_u32(raw: u32) -> Ipv4Address {
        Ipv4Address(
            (raw / 0x100_0000) as u8,
            (raw / 0x1_0000 % 0x100) as u8,
            (raw / 0x100 % 0x100) as u8,
            (raw % 0x100) as u8,
        )
    }

    /// The address that the 32-bit number `raw` holds, most significant
    /// octet first.
    #[verifier::when_used_as_spec(spec_from_u32)]
    pub fn from_u32(raw: u32) -> (address: Ipv4Address)
        ensures
            address == Ipv4Address::spec_from_u32(raw),
    {
        let first = ((raw >> 24) & 0xFF) as u8;
        let second = ((raw >> 16) & 0xFF) as u8;
        let third = ((raw >> 8) & 0xFF) as u8;
        let fourth = (raw & 0xFF) as u8;
        assert(first == (raw / 0x100_0000) as u8 && second == (raw / 0x1_0000 % 0x100) as u8
            && third == (raw / 0x100 % 0x100) as u8 && fourth == (raw % 0x100) as u8)
            by (bit_vector)
            requires
                first == ((raw >> 24) & 0xFF) as u8,
                second == ((raw >> 16) & 0xFF) as u8,
                third == ((raw >> 8) & 0xFF) as u8,
                fourth == (raw & 0xFF) as u8,
        ;
        Ipv4Address(first, second, third, fourth)
    }
}

/// One entry of the answer, authority or additional section.
#[derive(Debug, Clone, PartialEq, Eq, Hash, PartialOrd, Ord)]
pub enum DNSRecord {
    /// A record of a type without a name here: what came before its data.
    UNKNOWN { domain: String, qtype: u16, data_len: u16, ttl: u32 },
    /// An IPv4 address record.
    A { domain: String, addr: Ipv4Address, ttl: u32 },
}

/// Mathematical model of a record.
pub enum RecordView {
    UNKNOWN { domain: Seq<char>, qtype: u16, data_len: u16, ttl: u32 },
    A { domain: Seq<char>, addr: Ipv4Address, ttl: u32 },
}

impl View for DNSRecord {
    type V = RecordView;

    open spec fn view(&self) -> RecordView {
        match *self {
            DNSRecord::UNKNOWN { domain, qtype, data_len, ttl } => RecordView::UNKNOWN {
                domain: domain@,
                qtype,
                data_len,
                ttl,
            },
            DNSRecord::A { domain, addr, ttl } => RecordView::A { domain: domain@, addr, ttl },
        }
    }
}

/// The record whose data begin at `pos`, given what stands before them. An
/// address record holds four octets there, whatever length was declared.
/// The data of any other type are passed over unread, as many bytes as
/// were declared, which must all lie inside the buffer.
pub open spec fn record_data_at(
    data: Seq<u8>,
    pos: int,
    domain: Seq<char>,
    qtype: u16,
    ttl: u32,
    data_len: u16,
) -> Decoded<RecordView> {
    match QueryType::from_num(qtype) {
        QueryType::A => u32_at(data, pos).and_then(
            |raw: u32, at: int|
                decoded(RecordView::A { domain, addr: Ipv4Address::from_u32(raw), ttl }, at),
        ),
        QueryType::UNKNOWN(_) => if pos + data_len <= CAPACITY {
            decoded(RecordView::UNKNOWN { domain, qtype, data_len, ttl }, pos + data_len)
        } else {
            failed(CodecError::EndOfBuffer, pos)
        },
    }
}

/// The record that `data` holds at `pos`: a name, the number of a type, a
/// class that is passed over, a time to live, the length of the data, and
/// the data.
pub open spec fn record_at(data: Seq<u8>, pos: int) -> Decoded<RecordView> {
    name_at(data, pos).and_then(
        |domain: Seq<char>, at: int|
            u16_at(data, at).and_then(
                |qtype: u16, at: int|
                    u16_at(data, at).and_then(
                        |class: u16, at: int|
                            u32_at(data, at).and_then(
                                |ttl: u32, at: int|
                                    u16_at(data, at).and_then(
                                        |data_len: u16, at: int|
                                            record_data_at(data, at, domain, qtype, ttl, data_len),
                                    ),
                            ),
                    ),
            ),
    )
}

/// Where a record that was decoded leaves the read cursor: behind the ten
/// bytes that follow its name and behind its data, which are four octets
/// for an address and as many bytes as were declared for any other type.
pub proof fn lemma_record_cursor(data: Seq<u8>, pos: int)
    ensures
        match record_at(data, pos).value {
            Ok(RecordView::A { .. }) => record_at(data, pos).cursor == name_at(data, pos).cursor
                + 14,
            Ok(RecordView::UNKNOWN { data_len, .. }) => record_at(data, pos).cursor == name_at(
                data,
                pos,
            ).cursor + 10 + data_len,
            Err(_) => true,
        },
{
}

impl DNSRecord {
    /// Decodes the record under the read cursor.
    pub fn from_buffer(buffer: &mut PacketBuffer) -> (result: Result<DNSRecord, CodecError>)
        ensures
            final(buffer)@ == old(buffer)@.reading_at(
                record_at(old(buffer)@.data, old(buffer)@.read_position).cursor,
            ),
            match result {
                Ok(record) => record_at(old(buffer)@.data, old(buffer)@.read_position).value
                    == Ok::<RecordView, CodecError>(record@),
                Err(e) => record_at(old(buffer)@.data, old(buffer)@.read_position).value == Err::<
                    RecordView,
                    CodecError,
                >(e),
            },
    {
        let domain = buffer.read_qname()?;
        let qtype_num = buffer.read_as_u16()?;
        let qtype = QueryType::from_num(qtype_num);
        let _ = buffer.read_as_u16()?;
        let ttl = buffer.read_as_u32()?;
        let data_len = buffer.read_as_u16()?;
        match qtype {
            QueryType::A => {
                let raw_addr = buffer.read_as_u32()?;
                Ok(DNSRecord::A { domain, addr: Ipv4Address::from_u32(raw_addr), ttl })
            },
            QueryType::UNKNOWN(_) => {
                if data_len as usize > CAPACITY - buffer.read_position() {
                    return Err(CodecError::EndOfBuffer);
                }
                buffer.step_read(data_len as usize);
                Ok(DNSRecord::UNKNOWN { domain, qtype: qtype_num, data_len, ttl })
            },
        }
    }
}

} // verus!
