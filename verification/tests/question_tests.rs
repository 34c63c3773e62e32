use dns_wire::buffer::PacketBuffer;
use dns_wire::error::CodecError;
use dns_wire::query_type::QueryType;
use dns_wire::question::DNSQuestion;

#[test]
fn new_question_asks_for_an_address() {
    let question = DNSQuestion::new();
    assert_eq!(
        question,
        DNSQuestion { name: String::new(), question_type: QueryType::A, class: 1 }
    );
}

#[test]
fn question_for_the_address_of_google_com() {
    let mut buffer = PacketBuffer::new();
    buffer.write_qname("google.com").unwrap();
    buffer.write_u16(1).unwrap();
    buffer.write_u16(1).unwrap();
    assert_eq!(
        DNSQuestion::from_buffer(&mut buffer),
        Ok(DNSQuestion { name: String::from("google.com"), question_type: QueryType::A, class: 1 })
    );
    assert_eq!(buffer.read_position(), 16);
}

#[test]
fn question_of_another_type_and_class() {
    let mut buffer = PacketBuffer::new();
    buffer.seek_write(12).unwrap();
    buffer.write_qname("example.org").unwrap();
    buffer.write_u16(28).unwrap();
    buffer.write_u16(0x00FF).unwrap();
    buffer.seek_read(12).unwrap();
    assert_eq!(
        DNSQuestion::from_buffer(&mut buffer),
        Ok(DNSQuestion {
            name: String::from("example.org"),
            question_type: QueryType::UNKNOWN(28),
            class: 255,
        })
    );
    assert_eq!(buffer.read_position(), 29);
}

#[test]
fn question_with_a_compressed_name() {
    let mut buffer = PacketBuffer::new();
    buffer.write_qname("google.com").unwrap();
    buffer.seek_write(40).unwrap();
    buffer.write_bytes(&[3, b'w', b'w', b'w', 0xC0, 0x00, 0x00, 0x01, 0x00, 0x01]).unwrap();
    buffer.seek_read(40).unwrap();
    assert_eq!(
        DNSQuestion::from_buffer(&mut buffer),
        Ok(DNSQuestion {
            name: String::from("www.google.com"),
            question_type: QueryType::A,
            class: 1,
        })
    );
    assert_eq!(buffer.read_position(), 50);
}

#[test]
fn question_with_a_bad_name_fails_as_the_name_does() {
    let mut buffer = PacketBuffer::new();
    buffer.write_bytes(&[0xC0, 0x00]).unwrap();
    assert_eq!(DNSQuestion::from_buffer(&mut buffer), Err(CodecError::TooManyJumps));
    assert_eq!(buffer.read_position(), 2);
}

#[test]
fn question_cut_short_fails_behind_what_was_read() {
    let mut buffer = PacketBuffer::new();
    buffer.seek_write(506).unwrap();
    buffer.write_bytes(&[1, b'a', 0, 0, 1]).unwrap();
    buffer.seek_read(506).unwrap();
    assert_eq!(DNSQuestion::from_buffer(&mut buffer), Err(CodecError::EndOfBuffer));
    assert_eq!(buffer.read_position(), 511);
    let mut buffer = PacketBuffer::new();
    buffer.seek_write(508).unwrap();
    buffer.write_bytes(&[1, b'a', 0]).unwrap();
    buffer.seek_read(508).unwrap();
    assert_eq!(DNSQuestion::from_buffer(&mut buffer), Err(CodecError::EndOfBuffer));
    assert_eq!(buffer.read_position(), 511);
}
