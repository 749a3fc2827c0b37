use simpledns::error::DnsError;
use simpledns::header::DnsHeader;
use simpledns::name::DnsName;
use simpledns::packet::DnsPacket;
use simpledns::question::DnsQuestion;
use simpledns::record::{DnsRecord, RecordData};
use simpledns::types::{DnsClass, DnsQueryType, DnsResponseCode};
use simpledns::wire::{get_u16, get_u32, put_u16, put_u32};

fn name(labels: &[&str]) -> DnsName {
    DnsName::new(labels.iter().map(|l| l.as_bytes().to_vec()).collect())
}

fn sample() -> DnsPacket {
    let mut p = DnsPacket::new();
    p.header.id = 0xABCD;
    p.header.query_response = true;
    p.header.opcode = 2;
    p.header.authoritative_answer = true;
    p.header.recurse_desired = true;
    p.header.recurse_available = true;
    p.header.checking_disabled = true;
    p.header.response_code = DnsResponseCode::NXDOMAIN;
    p.add_question(DnsQuestion::new(name(&["example", "com"]), DnsQueryType::MX));
    p.add_answer(DnsRecord::new(name(&["example", "com"]), 300, RecordData::A([93, 184, 216, 34])));
    p.add_answer(DnsRecord::new(
        name(&["example", "com"]),
        60,
        RecordData::MX { preference: 10, exchange: name(&["mail", "example", "com"]) },
    ));
    p.add_authority(DnsRecord::new(name(&["com"]), 7, RecordData::NS(name(&["ns", "com"]))));
    p.add_additional(DnsRecord::new(
        name(&["v6"]),
        1,
        RecordData::AAAA([0x20, 1, 0xd, 0xb8, 0, 0, 0, 0, 0, 0, 0, 0, 0, 0, 0, 1]),
    ));
    p.add_additional(DnsRecord {
        name: name(&["t"]),
        class: DnsClass::Unknown(3),
        ttl: 0xFFFF_FFFF,
        data: RecordData::Unknown { record_type: DnsQueryType::TXT, data: vec![2, b'h', b'i'] },
    });
    p.add_additional(DnsRecord::new(
        name(&["alias"]),
        5,
        RecordData::CNAME(name(&["target", "example"])),
    ));
    p
}

#[test]
fn big_endian_integers() {
    let mut out = Vec::new();
    put_u16(&mut out, 0x1234);
    put_u32(&mut out, 0x89ABCDEF);
    assert_eq!(out, vec![0x12, 0x34, 0x89, 0xAB, 0xCD, 0xEF]);
    assert_eq!(get_u16(&out, 0), 0x1234);
    assert_eq!(get_u32(&out, 2), 0x89ABCDEF);
}

#[test]
fn header_is_twelve_octets_with_packed_flags() {
    let mut h = DnsHeader::new();
    h.id = 0x0102;
    h.query_response = true;
    h.opcode = 0xF;
    h.truncation = true;
    h.recurse_desired = true;
    h.recurse_available = true;
    h.authenticated_data = true;
    h.response_code = DnsResponseCode::REFUSED;
    h.question_count = 1;
    h.answer_count = 0x0203;
    h.authority_count = 4;
    h.additional_count = 5;
    let mut out = Vec::new();
    h.write_to(&mut out);
    assert_eq!(out, vec![1, 2, 0x80 | 0x78 | 0x02 | 0x01, 0x80 | 0x20 | 5, 0, 1, 2, 3, 0, 4, 0, 5]);
    assert_eq!(DnsHeader::read(&out), h);
}

#[test]
fn blank_header_is_all_zero() {
    let mut out = Vec::new();
    DnsHeader::new().write_to(&mut out);
    assert_eq!(out, vec![0; 12]);
}

#[test]
fn reserved_bit_is_read_over_and_written_as_zero() {
    let mut buf = vec![0u8; 12];
    buf[3] = 0x40;
    let h = DnsHeader::read(&buf);
    assert_eq!(h, DnsHeader::new());
}

#[test]
fn response_code_without_a_variant_reads_as_noerror() {
    for n in 6..16u8 {
        assert_eq!(DnsResponseCode::from_num(n), DnsResponseCode::NOERROR);
    }
    assert_eq!(DnsResponseCode::from_num(2), DnsResponseCode::SERVFAIL);
    assert_eq!(DnsResponseCode::SERVFAIL.to_num(), 2);
    assert_eq!(DnsResponseCode::FORMERR.to_num(), 1);
}

#[test]
fn query_type_numbers() {
    assert_eq!(DnsQueryType::A.to_num(), 1);
    assert_eq!(DnsQueryType::NS.to_num(), 2);
    assert_eq!(DnsQueryType::CNAME.to_num(), 5);
    assert_eq!(DnsQueryType::SOA.to_num(), 6);
    assert_eq!(DnsQueryType::MX.to_num(), 15);
    assert_eq!(DnsQueryType::TXT.to_num(), 16);
    assert_eq!(DnsQueryType::AAAA.to_num(), 28);
    assert_eq!(DnsQueryType::Unknown(99).to_num(), 99);
    for n in 0..300u16 {
        assert_eq!(DnsQueryType::from_num(n).to_num(), n);
    }
    assert_eq!(DnsQueryType::from_num(28), DnsQueryType::AAAA);
    assert_eq!(DnsQueryType::from_num(99), DnsQueryType::Unknown(99));
    assert_eq!(DnsClass::from_num(1), DnsClass::IN);
    assert_eq!(DnsClass::from_num(4), DnsClass::Unknown(4));
    assert_eq!(DnsClass::Unknown(4).to_num(), 4);
}

#[test]
fn question_on_the_wire() {
    let q = DnsQuestion::new(name(&["a", "bc"]), DnsQueryType::AAAA);
    let mut out = Vec::new();
    q.write_to(&mut out);
    assert_eq!(out, vec![1, b'a', 2, b'b', b'c', 0, 0, 28, 0, 1]);
    assert_eq!(DnsQuestion::read(&out, 0), Ok((q, 10)));
}

#[test]
fn address_record_on_the_wire() {
    let r = DnsRecord::new(name(&["a"]), 0x01020304, RecordData::A([93, 184, 216, 34]));
    let mut out = Vec::new();
    r.write_to(&mut out);
    assert_eq!(out, vec![1, b'a', 0, 0, 1, 0, 1, 1, 2, 3, 4, 0, 4, 93, 184, 216, 34]);
    assert_eq!(DnsRecord::read(&out, 0), Ok((r, 17)));
}

#[test]
fn mail_exchange_record_on_the_wire() {
    let r = DnsRecord::new(
        DnsName::root(),
        1,
        RecordData::MX { preference: 0x0102, exchange: name(&["m"]) },
    );
    let mut out = Vec::new();
    r.write_to(&mut out);
    assert_eq!(out, vec![0, 0, 15, 0, 1, 0, 0, 0, 1, 0, 5, 1, 2, 1, b'm', 0]);
    assert_eq!(DnsRecord::read(&out, 0), Ok((r, 16)));
}

#[test]
fn round_trip_keeps_the_message() {
    let p = sample();
    assert!(p.fits_wire());
    assert!(p.names_valid());
    let bytes = p.to_bytes().unwrap();
    let back = DnsPacket::from_bytes(&bytes).unwrap();
    assert_eq!(back, p);
    assert_eq!(back.header.question_count, 1);
    assert_eq!(back.header.answer_count, 2);
    assert_eq!(back.header.authority_count, 1);
    assert_eq!(back.header.additional_count, 3);
}

#[test]
fn counts_are_written_from_the_sections() {
    let mut p = sample();
    p.header.question_count = 9;
    p.header.answer_count = 0;
    p.header.authority_count = 77;
    p.header.additional_count = 1000;
    let bytes = p.to_bytes().unwrap();
    assert_eq!(&bytes[4..12], &[0, 1, 0, 2, 0, 1, 0, 3]);
    assert_eq!(DnsPacket::from_bytes(&bytes).unwrap(), sample());
}

#[test]
fn octets_behind_the_message_are_read_over() {
    let p = sample();
    let mut bytes = p.to_bytes().unwrap();
    bytes.resize(512, 0);
    assert_eq!(DnsPacket::from_bytes(&bytes).unwrap(), p);
}

#[test]
fn empty_message_round_trip() {
    let p = DnsPacket::new();
    let bytes = p.to_bytes().unwrap();
    assert_eq!(bytes, vec![0; 12]);
    assert_eq!(DnsPacket::from_bytes(&bytes).unwrap(), p);
}

#[test]
fn invalid_name_fails_the_whole_message() {
    let mut p = sample();
    p.add_answer(DnsRecord::new(name(&["ok"]), 1, RecordData::NS(DnsName::new(vec![vec![b'z'; 64]]))));
    assert!(!p.names_valid());
    assert_eq!(p.to_bytes(), Err(DnsError::InvalidLabel));
}

#[test]
fn oversized_payload_does_not_fit() {
    let mut p = DnsPacket::new();
    p.add_answer(DnsRecord::new(
        name(&["big"]),
        1,
        RecordData::Unknown { record_type: DnsQueryType::TXT, data: vec![0; 65536] },
    ));
    assert!(!p.fits_wire());
    let mut q = DnsPacket::new();
    q.add_answer(DnsRecord::new(
        name(&["big"]),
        1,
        RecordData::Unknown { record_type: DnsQueryType::TXT, data: vec![0; 65535] },
    ));
    assert!(q.fits_wire());
    let bytes = q.to_bytes().unwrap();
    assert_eq!(DnsPacket::from_bytes(&bytes).unwrap(), q);
}

#[test]
fn short_buffers_are_truncated() {
    for n in 0..12 {
        assert_eq!(DnsPacket::from_bytes(&vec![0u8; n]), Err(DnsError::TruncatedMessage));
    }
}

#[test]
fn header_claiming_more_answers_than_present_is_truncated() {
    for claimed in [1u16, 2, 255, 256, 65535] {
        let mut buf = vec![0u8; 12];
        buf[6] = (claimed >> 8) as u8;
        buf[7] = (claimed & 0xFF) as u8;
        assert_eq!(DnsPacket::from_bytes(&buf), Err(DnsError::TruncatedMessage));
    }
    // one answer present, two or more claimed
    let mut p = DnsPacket::new();
    p.add_answer(DnsRecord::new(name(&["a"]), 1, RecordData::A([1, 2, 3, 4])));
    let good = p.to_bytes().unwrap();
    assert_eq!(DnsPacket::from_bytes(&good).unwrap(), p);
    for claimed in [2u16, 3, 1000, 65535] {
        let mut buf = good.clone();
        buf[6] = (claimed >> 8) as u8;
        buf[7] = (claimed & 0xFF) as u8;
        assert_eq!(DnsPacket::from_bytes(&buf), Err(DnsError::TruncatedMessage));
    }
}

#[test]
fn every_proper_prefix_of_a_message_is_truncated() {
    let bytes = sample().to_bytes().unwrap();
    for n in 0..bytes.len() {
        assert_eq!(DnsPacket::from_bytes(&bytes[..n]), Err(DnsError::TruncatedMessage), "prefix {}", n);
    }
}

#[test]
fn payload_shorter_than_its_type_is_truncated() {
    // name root, type A, class IN, ttl 0, rdlength 3, three octets
    let mut buf = vec![0u8; 12];
    buf[7] = 1;
    buf.extend([0, 0, 1, 0, 1, 0, 0, 0, 0, 0, 3, 1, 2, 3]);
    assert_eq!(DnsPacket::from_bytes(&buf), Err(DnsError::TruncatedMessage));
    // rdlength 5: the fifth octet is read over
    let mut buf = vec![0u8; 12];
    buf[7] = 1;
    buf.extend([0, 0, 1, 0, 1, 0, 0, 0, 0, 0, 5, 1, 2, 3, 4, 9]);
    let p = DnsPacket::from_bytes(&buf).unwrap();
    assert_eq!(p.answer_section[0].data, RecordData::A([1, 2, 3, 4]));
}

#[test]
fn payload_length_beyond_the_buffer_is_truncated() {
    let mut buf = vec![0u8; 12];
    buf[7] = 1;
    buf.extend([0, 0, 99, 0, 1, 0, 0, 0, 0, 0, 4, 1, 2, 3]);
    assert_eq!(DnsPacket::from_bytes(&buf), Err(DnsError::TruncatedMessage));
}

#[test]
fn compressed_names_in_a_message_are_expanded() {
    // question example.com A at offset 12; answer name is a pointer to 12,
    // CNAME payload is "www" + pointer to 12
    let mut buf = vec![0u8; 12];
    buf[5] = 1;
    buf[7] = 1;
    buf.extend(name(&["example", "com"]).encode().unwrap());
    buf.extend([0, 1, 0, 1]);
    buf.extend([0xC0, 12, 0, 5, 0, 1, 0, 0, 0, 9, 0, 6, 3, b'w', b'w', b'w', 0xC0, 12]);
    let p = DnsPacket::from_bytes(&buf).unwrap();
    assert_eq!(p.question_section[0].name, name(&["example", "com"]));
    assert_eq!(p.answer_section[0].name, name(&["example", "com"]));
    assert_eq!(p.answer_section[0].ttl, 9);
    assert_eq!(p.answer_section[0].data, RecordData::CNAME(name(&["www", "example", "com"])));
}

#[test]
fn pointer_loop_in_a_message_is_reported() {
    let mut buf = vec![0u8; 12];
    buf[5] = 1;
    buf.extend([0xC0, 12, 0, 1, 0, 1]);
    assert_eq!(DnsPacket::from_bytes(&buf), Err(DnsError::CompressionLoop));
}

#[test]
fn unknown_type_and_class_are_kept() {
    let mut buf = vec![0u8; 12];
    buf[7] = 1;
    buf.extend([0, 0x12, 0x34, 0x56, 0x78, 0, 0, 0, 1, 0, 2, 0xAA, 0xBB]);
    let p = DnsPacket::from_bytes(&buf).unwrap();
    let r = &p.answer_section[0];
    assert_eq!(r.class, DnsClass::Unknown(0x5678));
    assert_eq!(
        r.data,
        RecordData::Unknown { record_type: DnsQueryType::Unknown(0x1234), data: vec![0xAA, 0xBB] }
    );
    assert_eq!(p.to_bytes().unwrap(), buf);
}

#[test]
fn add_keeps_the_counts() {
    let p = sample();
    assert_eq!(p.header.question_count, 1);
    assert_eq!(p.header.answer_count, 2);
    assert_eq!(p.header.authority_count, 1);
    assert_eq!(p.header.additional_count, 3);
    assert_eq!(p.question_section.len(), 1);
}

#[test]
fn clone_is_equal() {
    let p = sample();
    let c = p.clone();
    assert_eq!(c, p);
    assert_eq!(c.to_bytes().unwrap(), p.to_bytes().unwrap());
    assert_eq!(p.answer_section[1].clone(), p.answer_section[1]);
    assert_eq!(p.question_section[0].clone(), p.question_section[0]);
}
