use dns_wire::buffer::PacketBuffer;
use dns_wire::error::CodecError;
use dns_wire::header::DNSHeader;

fn header_with_flags(flags: u16) -> DNSHeader {
    let mut buffer = PacketBuffer::new();
    buffer.write_u16(0).unwrap();
    buffer.write_u16(flags).unwrap();
    DNSHeader::from_buffer(&mut buffer).unwrap()
}

#[test]
fn new_header_is_all_zero() {
    let header = DNSHeader::new();
    assert_eq!(
        header,
        DNSHeader {
            id: 0,
            query_response: false,
            op_code: 0,
            authoritative_answer: false,
            truncated_message: false,
            recursion_desired: false,
            recursion_available: false,
            reserved: 0,
            response_code: 0,
            question_count: 0,
            answer_count: 0,
            authority_count: 0,
            additional_count: 0,
        }
    );
}

#[test]
fn zeroed_buffer_holds_the_zero_header() {
    let mut buffer = PacketBuffer::new();
    assert_eq!(DNSHeader::from_buffer(&mut buffer), Ok(DNSHeader::new()));
    assert_eq!(buffer.read_position(), 12);
}

#[test]
fn only_bit_15_set_means_response_and_nothing_else() {
    let header = header_with_flags(0x8000);
    assert!(header.query_response);
    assert!(!header.authoritative_answer);
    assert!(!header.truncated_message);
    assert!(!header.recursion_desired);
    assert!(!header.recursion_available);
    assert_eq!(header.op_code, 0);
    assert_eq!(header.reserved, 0);
    assert_eq!(header.response_code, 0);
}

#[test]
fn bits_14_to_11_hold_the_op_code() {
    let header = header_with_flags(0b0101_0000_0000_0000);
    assert_eq!(header.op_code, 10);
    assert!(!header.query_response);
    assert!(!header.authoritative_answer);
    assert!(!header.truncated_message);
    assert!(!header.recursion_desired);
    assert!(!header.recursion_available);
    assert_eq!(header.reserved, 0);
    assert_eq!(header.response_code, 0);
    assert_eq!(header_with_flags(0x7800).op_code, 15);
    assert_eq!(header_with_flags(0x0800).op_code, 1);
}

#[test]
fn each_flag_has_its_own_bit() {
    let authoritative = header_with_flags(0x0400);
    assert!(authoritative.authoritative_answer);
    assert!(!authoritative.truncated_message);
    assert_eq!(authoritative.op_code, 0);
    let truncated = header_with_flags(0x0200);
    assert!(truncated.truncated_message);
    assert!(!truncated.authoritative_answer && !truncated.recursion_desired);
    let desired = header_with_flags(0x0100);
    assert!(desired.recursion_desired);
    assert!(!desired.truncated_message && !desired.recursion_available);
    let available = header_with_flags(0x0080);
    assert!(available.recursion_available);
    assert!(!available.recursion_desired);
    assert_eq!(available.reserved, 0);
}

#[test]
fn reserved_and_response_code_are_small_numbers() {
    assert_eq!(header_with_flags(0x0070).reserved, 7);
    assert_eq!(header_with_flags(0x0070).response_code, 0);
    assert_eq!(header_with_flags(0x0050).reserved, 5);
    assert_eq!(header_with_flags(0x000F).response_code, 15);
    assert_eq!(header_with_flags(0x000F).reserved, 0);
    assert_eq!(header_with_flags(0x0003).response_code, 3);
}

#[test]
fn all_flag_bits_set_sets_every_field() {
    let header = header_with_flags(0xFFFF);
    assert!(header.query_response);
    assert_eq!(header.op_code, 15);
    assert!(header.authoritative_answer);
    assert!(header.truncated_message);
    assert!(header.recursion_desired);
    assert!(header.recursion_available);
    assert_eq!(header.reserved, 7);
    assert_eq!(header.response_code, 15);
}

#[test]
fn header_of_a_usual_response() {
    let mut buffer = PacketBuffer::new();
    buffer
        .write_bytes(&[0x86, 0x2A, 0x81, 0x80, 0x00, 0x01, 0x00, 0x02, 0x00, 0x03, 0x00, 0x04])
        .unwrap();
    let header = DNSHeader::from_buffer(&mut buffer).unwrap();
    assert_eq!(
        header,
        DNSHeader {
            id: 0x862A,
            query_response: true,
            op_code: 0,
            authoritative_answer: false,
            truncated_message: false,
            recursion_desired: true,
            recursion_available: true,
            reserved: 0,
            response_code: 0,
            question_count: 1,
            answer_count: 2,
            authority_count: 3,
            additional_count: 4,
        }
    );
    assert_eq!(buffer.read_position(), 12);
    assert_eq!(buffer.write_position(), 12);
}

#[test]
fn header_is_read_from_the_read_cursor() {
    let mut buffer = PacketBuffer::new();
    buffer.seek_write(500).unwrap();
    buffer
        .write_bytes(&[0, 7, 0x80, 0x03, 0, 0, 0, 0, 0, 0, 0xFF, 0xFF])
        .unwrap();
    buffer.seek_read(500).unwrap();
    let header = DNSHeader::from_buffer(&mut buffer).unwrap();
    assert_eq!(header.id, 7);
    assert!(header.query_response);
    assert_eq!(header.response_code, 3);
    assert_eq!(header.additional_count, 0xFFFF);
    assert_eq!(buffer.read_position(), 512);
}

#[test]
fn header_cut_short_fails_behind_the_last_whole_word() {
    let mut buffer = PacketBuffer::new();
    buffer.seek_read(505).unwrap();
    assert_eq!(DNSHeader::from_buffer(&mut buffer), Err(CodecError::EndOfBuffer));
    assert_eq!(buffer.read_position(), 511);
    buffer.seek_read(502).unwrap();
    assert_eq!(DNSHeader::from_buffer(&mut buffer), Err(CodecError::EndOfBuffer));
    assert_eq!(buffer.read_position(), 512);
    buffer.seek_read(511).unwrap();
    assert_eq!(DNSHeader::from_buffer(&mut buffer), Err(CodecError::EndOfBuffer));
    assert_eq!(buffer.read_position(), 511);
}

#[test]
fn every_flags_word_is_taken_apart_bit_by_bit() {
    let mut buffer = PacketBuffer::new();
    for flags in 0..=u16::MAX {
        buffer.seek_write(2).unwrap();
        buffer.write_u16(flags).unwrap();
        buffer.seek_read(0).unwrap();
        let header = DNSHeader::from_buffer(&mut buffer).unwrap();
        assert_eq!(header.query_response, flags & 0x8000 != 0);
        assert_eq!(header.op_code, ((flags >> 11) & 0x0F) as u8);
        assert_eq!(header.authoritative_answer, flags & 0x0400 != 0);
        assert_eq!(header.truncated_message, flags & 0x0200 != 0);
        assert_eq!(header.recursion_desired, flags & 0x0100 != 0);
        assert_eq!(header.recursion_available, flags & 0x0080 != 0);
        assert_eq!(header.reserved, ((flags >> 4) & 0x07) as u8);
        assert_eq!(header.response_code, (flags & 0x0F) as u8);
        assert_eq!(header.id, 0);
        assert_eq!(header.question_count, 0);
    }
}
