use dns_wire::buffer::PacketBuffer;
use dns_wire::error::CodecError;
use dns_wire::record::{DNSRecord, Ipv4Address};

fn record_head(buffer: &mut PacketBuffer, name: &str, qtype: u16, ttl: u32, data_len: u16) {
    buffer.write_qname(name).unwrap();
    buffer.write_u16(qtype).unwrap();
    buffer.write_u16(1).unwrap();
    buffer.write_u32(ttl).unwrap();
    buffer.write_u16(data_len).unwrap();
}

#[test]
fn address_is_four_octets_most_significant_first() {
    assert_eq!(Ipv4Address::from_u32(0x8EFA_43AE), Ipv4Address(142, 250, 67, 174));
    assert_eq!(Ipv4Address::from_u32(0), Ipv4Address(0, 0, 0, 0));
    assert_eq!(Ipv4Address::from_u32(u32::MAX), Ipv4Address(255, 255, 255, 255));
    assert_eq!(Ipv4Address::from_u32(0x7F00_0001), Ipv4Address(127, 0, 0, 1));
    assert_eq!(Ipv4Address::from_u32(0x0102_0304), Ipv4Address(1, 2, 3, 4));
}

#[test]
fn address_record_of_google_com() {
    let mut buffer = PacketBuffer::new();
    record_head(&mut buffer, "google.com", 1, 300, 4);
    buffer.write_bytes(&[142, 250, 67, 174]).unwrap();
    assert_eq!(
        DNSRecord::from_buffer(&mut buffer),
        Ok(DNSRecord::A {
            domain: String::from("google.com"),
            addr: Ipv4Address(142, 250, 67, 174),
            ttl: 300,
        })
    );
    assert_eq!(buffer.read_position(), 26);
}

#[test]
fn address_record_holds_four_octets_whatever_its_length_says() {
    let mut buffer = PacketBuffer::new();
    record_head(&mut buffer, "a.b", 1, 0xFFFF_FFFF, 9);
    buffer.write_bytes(&[10, 0, 0, 1, 0xEE]).unwrap();
    assert_eq!(
        DNSRecord::from_buffer(&mut buffer),
        Ok(DNSRecord::A {
            domain: String::from("a.b"),
            addr: Ipv4Address(10, 0, 0, 1),
            ttl: u32::MAX,
        })
    );
    assert_eq!(buffer.read_position(), 19);
    assert_eq!(buffer.read(), Ok(0xEE));
}

#[test]
fn record_of_another_type_is_kept_without_its_data() {
    let mut buffer = PacketBuffer::new();
    record_head(&mut buffer, "example.org", 28, 3600, 16);
    buffer.write_bytes(&[0xAB; 16]).unwrap();
    buffer.write(0x77).unwrap();
    assert_eq!(
        DNSRecord::from_buffer(&mut buffer),
        Ok(DNSRecord::UNKNOWN {
            domain: String::from("example.org"),
            qtype: 28,
            data_len: 16,
            ttl: 3600,
        })
    );
    assert_eq!(buffer.read_position(), 39);
    assert_eq!(buffer.read(), Ok(0x77));
}

#[test]
fn record_without_data_is_passed_at_once() {
    let mut buffer = PacketBuffer::new();
    record_head(&mut buffer, "x", 0, 1, 0);
    assert_eq!(
        DNSRecord::from_buffer(&mut buffer),
        Ok(DNSRecord::UNKNOWN { domain: String::from("x"), qtype: 0, data_len: 0, ttl: 1 })
    );
    assert_eq!(buffer.read_position(), 13);
}

#[test]
fn skipping_8_bytes_leads_to_the_next_record() {
    let mut buffer = PacketBuffer::new();
    record_head(&mut buffer, "google.com", 0x00FF, 60, 8);
    buffer.write_bytes(&[1, 2, 3, 4, 5, 6, 7, 8]).unwrap();
    let second = buffer.write_position();
    record_head(&mut buffer, "google.com", 1, 300, 4);
    buffer.write_bytes(&[142, 250, 67, 174]).unwrap();
    assert_eq!(
        DNSRecord::from_buffer(&mut buffer),
        Ok(DNSRecord::UNKNOWN {
            domain: String::from("google.com"),
            qtype: 255,
            data_len: 8,
            ttl: 60,
        })
    );
    assert_eq!(buffer.read_position(), second);
    assert_eq!(second, 30);
    assert_eq!(
        DNSRecord::from_buffer(&mut buffer),
        Ok(DNSRecord::A {
            domain: String::from("google.com"),
            addr: Ipv4Address(142, 250, 67, 174),
            ttl: 300,
        })
    );
    assert_eq!(buffer.read_position(), 56);
}

#[test]
fn record_with_a_compressed_name() {
    let mut buffer = PacketBuffer::new();
    buffer.seek_write(12).unwrap();
    buffer.write_qname("google.com").unwrap();
    buffer.seek_write(28).unwrap();
    buffer.write_bytes(&[0xC0, 0x0C, 0, 1, 0, 1, 0, 0, 0, 5, 0, 4, 8, 8, 4, 4]).unwrap();
    buffer.seek_read(28).unwrap();
    assert_eq!(
        DNSRecord::from_buffer(&mut buffer),
        Ok(DNSRecord::A { domain: String::from("google.com"), addr: Ipv4Address(8, 8, 4, 4), ttl: 5 })
    );
    assert_eq!(buffer.read_position(), 44);
}

#[test]
fn data_may_end_with_the_last_byte() {
    let mut buffer = PacketBuffer::new();
    buffer.seek_write(490).unwrap();
    record_head(&mut buffer, "x", 99, 7, 9);
    buffer.seek_read(490).unwrap();
    assert_eq!(
        DNSRecord::from_buffer(&mut buffer),
        Ok(DNSRecord::UNKNOWN { domain: String::from("x"), qtype: 99, data_len: 9, ttl: 7 })
    );
    assert_eq!(buffer.read_position(), 512);
}

#[test]
fn data_longer_than_the_buffer_fail_the_record() {
    let mut buffer = PacketBuffer::new();
    buffer.seek_write(490).unwrap();
    record_head(&mut buffer, "x", 99, 7, 10);
    buffer.seek_read(490).unwrap();
    assert_eq!(DNSRecord::from_buffer(&mut buffer), Err(CodecError::EndOfBuffer));
    assert_eq!(buffer.read_position(), 503);
    let mut buffer = PacketBuffer::new();
    record_head(&mut buffer, "x", 99, 7, 0xFFFF);
    assert_eq!(DNSRecord::from_buffer(&mut buffer), Err(CodecError::EndOfBuffer));
    assert_eq!(buffer.read_position(), 13);
}

#[test]
fn address_cut_short_fails_the_record() {
    let mut buffer = PacketBuffer::new();
    buffer.seek_write(496).unwrap();
    record_head(&mut buffer, "x", 1, 7, 4);
    buffer.seek_read(496).unwrap();
    assert_eq!(DNSRecord::from_buffer(&mut buffer), Err(CodecError::EndOfBuffer));
    assert_eq!(buffer.read_position(), 509);
}

#[test]
fn record_cut_short_fails_behind_what_was_read() {
    let mut buffer = PacketBuffer::new();
    buffer.seek_write(502).unwrap();
    buffer.write_bytes(&[1, b'x', 0, 0, 1, 0, 1, 0, 0, 0]).unwrap();
    buffer.seek_read(502).unwrap();
    assert_eq!(DNSRecord::from_buffer(&mut buffer), Err(CodecError::EndOfBuffer));
    assert_eq!(buffer.read_position(), 509);
}

#[test]
fn record_with_a_bad_name_fails_as_the_name_does() {
    let mut buffer = PacketBuffer::new();
    buffer.write_bytes(&[0xC0, 0x02, 0xC0, 0x00]).unwrap();
    assert_eq!(DNSRecord::from_buffer(&mut buffer), Err(CodecError::TooManyJumps));
    assert_eq!(buffer.read_position(), 2);
}
