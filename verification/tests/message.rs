use dns_codec::buffer::PacketBuffer;
use dns_codec::header::ResCode;
use dns_codec::packet::DnsPacket;
use dns_codec::record::DnsQuestion;
use dns_codec::record::DnsRecord;
use dns_codec::record::Ipv4Address;
use dns_codec::record::Ipv6Address;
use dns_codec::record::QueryType;
use dns_codec::resolver::apply_lookup_result;
use dns_codec::resolver::build_lookup_query;
use dns_codec::resolver::build_response_shell;

fn encode_decode_record(rec: &DnsRecord) -> DnsRecord {
    let mut buf = PacketBuffer::new();
    let written = rec.write(&mut buf).unwrap();
    assert_eq!(written, buf.pos());
    buf.move_to_pos(0).unwrap();
    DnsRecord::read(&mut buf).unwrap()
}

#[test]
fn a_record_round_trip() {
    let rec = DnsRecord::A {
        domain: String::from("example.com"),
        addr_v4: Ipv4Address { o0: 1, o1: 1, o2: 1, o3: 1 },
        ttl: 60,
    };
    let back = encode_decode_record(&rec);
    assert_eq!(back, rec);
}

#[test]
fn ns_record_round_trip() {
    let rec = DnsRecord::NS {
        domain: String::from("example.com"),
        host: String::from("ns1.example.com"),
        ttl: 3600,
    };
    assert_eq!(encode_decode_record(&rec), rec);
}

#[test]
fn cname_record_round_trip() {
    let rec = DnsRecord::CNAME {
        domain: String::from("www.example.com"),
        host: String::from("example.com"),
        ttl: 120,
    };
    assert_eq!(encode_decode_record(&rec), rec);
}

#[test]
fn mx_record_round_trip() {
    let rec = DnsRecord::MX {
        domain: String::from("example.com"),
        priority: 10,
        host: String::from("mail.example.com"),
        ttl: 900,
    };
    assert_eq!(encode_decode_record(&rec), rec);
}

#[test]
fn aaaa_record_round_trip() {
    let rec = DnsRecord::AAAA {
        domain: String::from("example.com"),
        addr: Ipv6Address {
            s0: 0x2001,
            s1: 0x0db8,
            s2: 0,
            s3: 0,
            s4: 0,
            s5: 0,
            s6: 0,
            s7: 0x0001,
        },
        ttl: 300,
    };
    assert_eq!(encode_decode_record(&rec), rec);
}

#[test]
fn unknown_record_decodes_and_skips_payload() {
    let mut buf = PacketBuffer::new();
    buf.write_qname("x.y").unwrap();
    buf.write_u16(99).unwrap();
    buf.write_u16(1).unwrap();
    buf.write_u32(42).unwrap();
    buf.write_u16(8).unwrap();
    for b in 0..8u8 {
        buf.write_u8(b).unwrap();
    }
    let end = buf.pos();
    buf.move_to_pos(0).unwrap();
    let rec = DnsRecord::read(&mut buf).unwrap();
    assert_eq!(
        rec,
        DnsRecord::UNKNOWN { domain: String::from("x.y"), q_type: 99, len: 8, ttl: 42 }
    );
    assert_eq!(buf.pos(), end);
}

#[test]
fn unknown_record_encodes_to_nothing() {
    let rec = DnsRecord::UNKNOWN { domain: String::from("x.y"), q_type: 99, len: 8, ttl: 42 };
    let mut buf = PacketBuffer::new();
    assert_eq!(rec.write(&mut buf).unwrap(), 0);
    assert_eq!(buf.pos(), 0);
    assert_eq!(buf.buf[0], 0);
}

#[test]
fn query_packet_decodes() {
    let mut buf = PacketBuffer::new();
    let header = [0x04u8, 0xD2, 0x01, 0x00, 0, 1, 0, 0, 0, 0, 0, 0];
    buf.buf[..12].copy_from_slice(&header);
    buf.buf[12] = 3;
    buf.buf[13..16].copy_from_slice(b"abc");
    buf.buf[16] = 3;
    buf.buf[17..20].copy_from_slice(b"com");
    buf.buf[20] = 0;
    buf.buf[21] = 0;
    buf.buf[22] = 1;
    buf.buf[23] = 0;
    buf.buf[24] = 1;

    let pak = DnsPacket::from_buf(&mut buf).unwrap();
    assert_eq!(pak.header.id, 1234);
    assert!(pak.header.rec_des);
    assert!(!pak.header.query_res);
    assert_eq!(pak.header.ques_count, 1);
    assert_eq!(pak.questions.len(), 1);
    assert_eq!(pak.questions[0].name, "abc.com");
    assert_eq!(pak.questions[0].q_type, QueryType::A);
}

#[test]
fn packet_write_derives_counts_from_lists() {
    let mut pak = DnsPacket::new();
    pak.header.ques_count = 7;
    pak.header.ans_count = 9;
    pak.header.auth_count = 11;
    pak.header.res_count = 13;
    pak.questions.push(DnsQuestion::new(String::from("abc.com"), QueryType::A));
    pak.answers.push(DnsRecord::A {
        domain: String::from("abc.com"),
        addr_v4: Ipv4Address { o0: 9, o1: 8, o2: 7, o3: 6 },
        ttl: 5,
    });
    let mut buf = PacketBuffer::new();
    pak.write(&mut buf).unwrap();
    assert_eq!(pak.header.ques_count, 1);
    assert_eq!(pak.header.ans_count, 1);
    assert_eq!(pak.header.auth_count, 0);
    assert_eq!(pak.header.res_count, 0);

    buf.move_to_pos(0).unwrap();
    let back = DnsPacket::from_buf(&mut buf).unwrap();
    assert_eq!(back.header.ques_count, 1);
    assert_eq!(back.header.ans_count, 1);
    assert_eq!(back.questions, pak.questions);
    assert_eq!(back.answers, pak.answers);
}

#[test]
fn ns_host_by_pointer_matches_plain_encoding() {
    let mut buf = PacketBuffer::new();
    buf.write_qname("abc.com").unwrap();
    let record_start = buf.pos();
    buf.write_u8(0xC0).unwrap();
    buf.write_u8(0x00).unwrap();
    buf.write_u16(QueryType::NS.to_u16()).unwrap();
    buf.write_u16(1).unwrap();
    buf.write_u32(600).unwrap();
    buf.write_u16(2).unwrap();
    buf.write_u8(0xC0).unwrap();
    buf.write_u8(0x00).unwrap();
    buf.move_to_pos(record_start).unwrap();
    let compressed = DnsRecord::read(&mut buf).unwrap();

    let plain = DnsRecord::NS {
        domain: String::from("abc.com"),
        host: String::from("abc.com"),
        ttl: 600,
    };
    let decoded_plain = encode_decode_record(&plain);
    assert_eq!(compressed, decoded_plain);
    match compressed {
        DnsRecord::NS { host, .. } => assert_eq!(host, "abc.com"),
        _ => panic!("decoded to a different record type"),
    }
}

#[test]
fn lookup_query_has_one_question_and_recursion() {
    let ques = DnsQuestion::new(String::from("abc.com"), QueryType::A);
    let pak = build_lookup_query(0x1234, ques.clone());
    assert_eq!(pak.header.id, 0x1234);
    assert!(!pak.header.query_res);
    assert!(pak.header.rec_des);
    assert_eq!(pak.questions, vec![ques]);
    assert!(pak.answers.is_empty());
}

#[test]
fn response_shell_copies_request_fields() {
    let mut req = build_lookup_query(7, DnsQuestion::new(String::from("a.b"), QueryType::A));
    req.header.opcode = 0;
    let resp = build_response_shell(&req.header);
    assert_eq!(resp.header.id, 7);
    assert!(resp.header.query_res);
    assert!(!resp.header.rec_av);
    assert_eq!(resp.header.res_code, ResCode::NO_ERR);

    req.header.opcode = 2;
    let resp2 = build_response_shell(&req.header);
    assert_eq!(resp2.header.res_code, ResCode::NOT_IMP);
}

#[test]
fn lookup_results_accumulate_or_mark_failure() {
    let ques = DnsQuestion::new(String::from("abc.com"), QueryType::A);
    let mut response = build_response_shell(&DnsPacket::new().header);

    let mut reply = DnsPacket::new();
    reply.answers.push(DnsRecord::A {
        domain: String::from("abc.com"),
        addr_v4: Ipv4Address { o0: 1, o1: 2, o2: 3, o3: 4 },
        ttl: 1,
    });
    apply_lookup_result(&mut response, ques.clone(), Some(reply));
    assert_eq!(response.questions.len(), 1);
    assert_eq!(response.answers.len(), 1);
    assert_eq!(response.header.res_code, ResCode::NO_ERR);

    apply_lookup_result(&mut response, ques, None);
    assert_eq!(response.questions.len(), 2);
    assert_eq!(response.answers.len(), 1);
    assert_eq!(response.header.res_code, ResCode::SERV_FAIL);
}
