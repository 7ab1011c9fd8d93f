use dns_codec::BUF_SIZE;
use dns_codec::DnsError;
use dns_codec::buffer::PacketBuffer;
use dns_codec::header::DnsHeader;
use dns_codec::header::ResCode;
use dns_codec::record::QueryType;

#[test]
fn read_and_write_u8() {
    let mut buf = PacketBuffer::new();
    buf.write_u8(0xAB).unwrap();
    assert_eq!(buf.pos(), 1);
    buf.move_to_pos(0).unwrap();
    assert_eq!(buf.read_u8().unwrap(), 0xAB);
}

#[test]
fn read_and_write_u16_big_endian() {
    let mut buf = PacketBuffer::new();
    buf.write_u16(0x1234).unwrap();
    assert_eq!(buf.buf[0], 0x12);
    assert_eq!(buf.buf[1], 0x34);
    buf.move_to_pos(0).unwrap();
    assert_eq!(buf.read_u16().unwrap(), 0x1234);
}

#[test]
fn read_and_write_u32_big_endian() {
    let mut buf = PacketBuffer::new();
    buf.write_u32(0xDEADBEEF).unwrap();
    assert_eq!(buf.buf[0], 0xDE);
    assert_eq!(buf.buf[1], 0xAD);
    assert_eq!(buf.buf[2], 0xBE);
    assert_eq!(buf.buf[3], 0xEF);
    buf.move_to_pos(0).unwrap();
    assert_eq!(buf.read_u32().unwrap(), 0xDEADBEEF);
}

#[test]
fn reads_past_capacity_fail() {
    let mut buf = PacketBuffer::new();
    buf.move_to_pos(BUF_SIZE).unwrap();
    assert_eq!(buf.read_u8().unwrap_err(), DnsError::OutOfBounds);
    buf.move_to_pos(BUF_SIZE - 1).unwrap();
    assert_eq!(buf.read_u16().unwrap_err(), DnsError::OutOfBounds);
    buf.move_to_pos(BUF_SIZE - 3).unwrap();
    assert_eq!(buf.read_u32().unwrap_err(), DnsError::OutOfBounds);
}

#[test]
fn writes_past_capacity_fail_without_partial_mutation() {
    let mut buf = PacketBuffer::new();
    buf.move_to_pos(BUF_SIZE - 1).unwrap();
    assert_eq!(buf.write_u16(0xFFFF).unwrap_err(), DnsError::OutOfBounds);
    assert_eq!(buf.pos(), BUF_SIZE - 1);
    assert_eq!(buf.buf[BUF_SIZE - 1], 0);
}

#[test]
fn get_range_accepts_range_to_capacity() {
    let mut buf = PacketBuffer::new();
    assert_eq!(buf.get_range(0, BUF_SIZE).unwrap().len(), BUF_SIZE);
    assert_eq!(buf.get_range(500, 12).unwrap().len(), 12);
    assert_eq!(buf.get_range(500, 13).unwrap_err(), DnsError::OutOfBounds);
    assert_eq!(buf.get_range(513, 0).unwrap_err(), DnsError::OutOfBounds);
}

#[test]
fn set_u16_patches_without_moving_cursor() {
    let mut buf = PacketBuffer::new();
    buf.write_u32(0).unwrap();
    buf.set_u16(1, 0xBEEF).unwrap();
    assert_eq!(buf.pos(), 4);
    assert_eq!(buf.buf[1], 0xBE);
    assert_eq!(buf.buf[2], 0xEF);
    assert_eq!(buf.set_u16(BUF_SIZE - 1, 1).unwrap_err(), DnsError::OutOfBounds);
}

#[test]
fn qname_round_trip_lowercases() {
    let mut buf = PacketBuffer::new();
    buf.write_qname("ABC.Com").unwrap();
    assert_eq!(buf.pos(), 9);
    assert_eq!(buf.buf[0], 3);
    assert_eq!(&buf.buf[1..4], b"ABC");
    assert_eq!(buf.buf[4], 3);
    assert_eq!(buf.buf[8], 0);
    buf.move_to_pos(0).unwrap();
    let mut name = String::new();
    buf.read_qname(&mut name).unwrap();
    assert_eq!(name, "abc.com");
    assert_eq!(buf.pos(), 9);
}

#[test]
fn qname_label_too_long() {
    let mut buf = PacketBuffer::new();
    let long_label = "a".repeat(64);
    let name = format!("www.{}", long_label);
    assert_eq!(buf.write_qname(&name).unwrap_err(), DnsError::LabelTooLong);
    let ok_label = "a".repeat(63);
    let mut buf2 = PacketBuffer::new();
    buf2.write_qname(&ok_label).unwrap();
    assert_eq!(buf2.pos(), 65);
}

#[test]
fn qname_self_pointer_reports_compression_loop() {
    let mut buf = PacketBuffer::new();
    buf.buf[0] = 0xC0;
    buf.buf[1] = 0x00;
    let mut name = String::new();
    assert_eq!(
        buf.read_qname(&mut name).unwrap_err(),
        DnsError::CompressionLoopExceeded
    );
}

#[test]
fn qname_two_pointer_cycle_reports_compression_loop() {
    let mut buf = PacketBuffer::new();
    buf.buf[0] = 0xC0;
    buf.buf[1] = 0x02;
    buf.buf[2] = 0xC0;
    buf.buf[3] = 0x00;
    let mut name = String::new();
    assert_eq!(
        buf.read_qname(&mut name).unwrap_err(),
        DnsError::CompressionLoopExceeded
    );
}

#[test]
fn qname_pointer_fixes_cursor_after_pointer() {
    let mut buf = PacketBuffer::new();
    buf.write_qname("abc.com").unwrap();
    let record_start = buf.pos();
    buf.write_u8(0xC0).unwrap();
    buf.write_u8(0x00).unwrap();
    buf.move_to_pos(record_start).unwrap();
    let mut name = String::new();
    buf.read_qname(&mut name).unwrap();
    assert_eq!(name, "abc.com");
    assert_eq!(buf.pos(), record_start + 2);
}

#[test]
fn header_round_trip() {
    let mut h = DnsHeader::new();
    h.id = 0xBEEF;
    h.query_res = false;
    h.opcode = 9;
    h.authoritative = true;
    h.trunc = false;
    h.rec_des = true;
    h.rec_av = true;
    h.reserved = false;
    h.auth_data = true;
    h.checking_disabled = false;
    h.res_code = ResCode::REFUSED;
    h.ques_count = 3;
    h.ans_count = 7;
    h.auth_count = 1;
    h.res_count = 2;

    let mut buf = PacketBuffer::new();
    h.write(&mut buf).unwrap();
    assert_eq!(buf.pos(), 12);
    buf.move_to_pos(0).unwrap();
    let mut back = DnsHeader::new();
    back.read(&mut buf).unwrap();
    assert_eq!(back, h);
}

#[test]
fn res_code_from_u8_values() {
    assert_eq!(ResCode::from_u8(0), ResCode::NO_ERR);
    assert_eq!(ResCode::from_u8(1), ResCode::FORM_ERR);
    assert_eq!(ResCode::from_u8(2), ResCode::SERV_FAIL);
    assert_eq!(ResCode::from_u8(3), ResCode::NX_DOMAIN);
    assert_eq!(ResCode::from_u8(4), ResCode::NOT_IMP);
    assert_eq!(ResCode::from_u8(5), ResCode::REFUSED);
    assert_eq!(ResCode::from_u8(9), ResCode::NO_ERR);
}

#[test]
fn query_type_round_trip() {
    assert_eq!(QueryType::from_u16(1), QueryType::A);
    assert_eq!(QueryType::from_u16(2), QueryType::NS);
    assert_eq!(QueryType::from_u16(5), QueryType::CNAME);
    assert_eq!(QueryType::from_u16(15), QueryType::MX);
    assert_eq!(QueryType::from_u16(28), QueryType::AAAA);
    assert_eq!(QueryType::from_u16(99), QueryType::UNKNOWN(99));
    for q in [
        QueryType::A,
        QueryType::NS,
        QueryType::CNAME,
        QueryType::MX,
        QueryType::AAAA,
        QueryType::UNKNOWN(700),
    ] {
        assert_eq!(QueryType::from_u16(q.to_u16()), q);
    }
}

#[test]
fn header_flag_bytes_exact() {
    let mut h = DnsHeader::new();
    h.id = 0x1234;
    h.query_res = true;
    h.opcode = 2;
    h.rec_des = true;
    h.rec_av = true;
    h.res_code = ResCode::SERV_FAIL;
    let mut buf = PacketBuffer::new();
    h.write(&mut buf).unwrap();
    assert_eq!(buf.buf[0], 0x12);
    assert_eq!(buf.buf[1], 0x34);
    assert_eq!(buf.buf[2], 0x91);
    assert_eq!(buf.buf[3], 0x82);
}

#[test]
fn qname_overlong_label_leaves_earlier_labels_only() {
    let mut buf = PacketBuffer::new();
    let name = format!("ab.{}", "x".repeat(64));
    assert_eq!(buf.write_qname(&name).unwrap_err(), DnsError::LabelTooLong);
    assert_eq!(buf.pos(), 3);
    assert_eq!(buf.buf[0], 2);
    assert_eq!(&buf.buf[1..3], b"ab");
    assert_eq!(buf.buf[3], 0);
    assert_eq!(buf.buf[4], 0);
}
