use ovenrack::dns::{DnsAnswerSection, DnsHeader, DnsPacket, DnsQuestionSection, RData};
use ovenrack::error::ErrorKind;

#[test]
fn rdata_serialize_deserialize_ipv4() {
    let raw_rdata: [u8; 4] = [0x3f, 0xf5, 0xd0, 0xc3];
    let rdata_struct = RData::from_slice(&raw_rdata, Some(1)); // A
    let rdata_bytes = rdata_struct.0.bytes();

    assert_eq!(raw_rdata, rdata_bytes.as_ref());
}

#[test]
fn rdata_serialize_deserialize_ipv6() {
    let raw_rdata: [u8; 16] = [
        0x20, 0x01, 0x41, 0xd0, 0x03, 0x02, 0x11, 0x00, 0x00, 0x00, 0x00, 0x00, 0x00, 0x01,
        0x76, 0x15,
    ];
    let rdata_struct = RData::from_slice(&raw_rdata, Some(28)); // AAAA
    let rdata_bytes = rdata_struct.0.bytes();

    assert_eq!(raw_rdata, rdata_bytes.as_ref());
}

#[test]
fn rdata_serialize_deserialize_other() {
    let raw_rdata = b"\x06\x74\x77\x69\x74\x63\x68\x03\x6d\x61\x70\x06\x66\x61\x73\x74\x6c\x79\x03\x6e\x65\x74\x00";
    let rdata_struct = RData::from_slice(raw_rdata, Some(5)); // CNAME
    let rdata_bytes = rdata_struct.0.bytes();

    assert_eq!(raw_rdata, rdata_bytes.as_slice());
}

#[test]
fn dnsanswersection_serialize_deserialize() {
    let raw_dns_answer = b"\xc0\x0c\x00\x1c\x00\x01\x00\x01\x51\x80\x00\x10\x26\x00\x3c\x01\x00\x00\x00\x00\xf0\x3c\x92\xff\xfe\xb3\x3c\x07";
    let dns_answer_struct = DnsAnswerSection::from_slice(raw_dns_answer).unwrap();
    let dns_answer_bytes = dns_answer_struct.0.bytes();

    assert_eq!(raw_dns_answer, dns_answer_bytes.as_slice());
}

#[test]
fn dnsquestionsection_serialize_deserialize() {
    let raw_dns_question = b"\x06\x67\x69\x74\x68\x75\x62\x03\x63\x6f\x6d\x00\x00\x1c\x00\x01";
    let dns_question_struct = DnsQuestionSection::from_slice(raw_dns_question).unwrap();
    let dns_question_bytes = dns_question_struct.0.bytes();

    assert_eq!(raw_dns_question, dns_question_bytes.as_slice());
}

#[test]
fn dnsheader_serialize_deserialize() {
    let raw_dns_header = b"\x02\xaf\x81\x80\x00\x01\x00\x02\x00\x00\x00\x00";
    let dns_header_struct = DnsHeader::from_slice(raw_dns_header).unwrap();
    let dns_header_bytes = dns_header_struct.0.bytes();

    assert_eq!(raw_dns_header, dns_header_bytes.as_slice());
}

#[test]
fn dnsquery_serialize_deserialize() {
    let raw_dns = b"\x2b\x25\x01\x00\x00\x01\x00\x00\x00\x00\x00\x00\x03\x77\x77\x77\x07\x6e\x65\x74\x66\x6c\x69\x78\x03\x63\x6f\x6d\x00\x00\x1c\x00\x01";
    let dns_struct = DnsPacket::from_slice(raw_dns).unwrap();
    let dns_bytes = dns_struct.bytes();

    assert_eq!(&raw_dns[0..], dns_bytes.as_slice());
}

#[test]
fn dnsresponse_serialize_deserialize() {
    let raw_dns = b"\
\x2b\x25\x81\x80\x00\x01\x00\x0a\x00\x00\x00\x00\x03\x77\x77\x77\
\x07\x6e\x65\x74\x66\x6c\x69\x78\x03\x63\x6f\x6d\x00\x00\x1c\x00\
\x01\xc0\x0c\x00\x05\x00\x01\x00\x00\x07\x07\x00\x0a\x03\x77\x77\
\x77\x03\x67\x65\x6f\xc0\x10\xc0\x2d\x00\x05\x00\x01\x00\x00\x07\
\x07\x00\x17\x03\x77\x77\x77\x09\x75\x73\x2d\x77\x65\x73\x74\x2d\
\x32\x06\x70\x72\x6f\x64\x61\x61\xc0\x10\xc0\x43\x00\x1c\x00\x01\
\x00\x00\x00\x13\x00\x10\x26\x20\x01\x08\x70\x0f\x00\x00\x00\x00\
\x00\x00\x34\x0a\x19\xa7\xc0\x43\x00\x1c\x00\x01\x00\x00\x00\x13\
\x00\x10\x26\x20\x01\x08\x70\x0f\x00\x00\x00\x00\x00\x00\x22\xdf\
\xe8\x9d\xc0\x43\x00\x1c\x00\x01\x00\x00\x00\x13\x00\x10\x26\x20\
\x01\x08\x70\x0f\x00\x00\x00\x00\x00\x00\x34\x1b\x35\x54\xc0\x43\
\x00\x1c\x00\x01\x00\x00\x00\x13\x00\x10\x26\x20\x01\x08\x70\x0f\
\x00\x00\x00\x00\x00\x00\x34\x23\xd9\x0b\xc0\x43\x00\x1c\x00\x01\
\x00\x00\x00\x13\x00\x10\x26\x20\x01\x08\x70\x0f\x00\x00\x00\x00\
\x00\x00\x34\x23\xe4\xb9\xc0\x43\x00\x1c\x00\x01\x00\x00\x00\x13\
\x00\x10\x26\x20\x01\x08\x70\x0f\x00\x00\x00\x00\x00\x00\x36\xbb\
\xed\x4c\xc0\x43\x00\x1c\x00\x01\x00\x00\x00\x13\x00\x10\x26\x20\
\x01\x08\x70\x0f\x00\x00\x00\x00\x00\x00\x23\xa2\x22\x9f\xc0\x43\
\x00\x1c\x00\x01\x00\x00\x00\x13\x00\x10\x26\x20\x01\x08\x70\x0f\
\x00\x00\x00\x00\x00\x00\x34\x28\xd6\x48";
    let dns_struct = DnsPacket::from_slice(raw_dns).unwrap();
    let dns_bytes = dns_struct.bytes();

    assert_eq!(&raw_dns[0..], dns_bytes.as_slice());
}

#[test]
fn truncated_header_is_malformed() {
    let raw = [0u8; 5];
    let err = DnsPacket::from_slice(&raw).unwrap_err();
    assert_eq!(err.kind, ErrorKind::MalformedMessage);
}

#[test]
fn truncated_label_is_malformed() {
    // Header announces one question, but its label runs past the buffer.
    let raw = b"\x00\x01\x00\x00\x00\x01\x00\x00\x00\x00\x00\x00\x09\x61\x62";
    let err = DnsPacket::from_slice(raw).unwrap_err();
    assert_eq!(err.kind, ErrorKind::MalformedMessage);
}

#[test]
fn rdata_overrun_is_malformed() {
    // One answer whose rdlength exceeds the remaining bytes.
    let raw = b"\x00\x01\x00\x00\x00\x00\x00\x01\x00\x00\x00\x00\
\x00\x00\x01\x00\x01\x00\x00\x00\x1e\x00\x09\x01\x02\x03\x04";
    let err = DnsPacket::from_slice(raw).unwrap_err();
    assert_eq!(err.kind, ErrorKind::MalformedMessage);
}

#[test]
fn mismatched_rdlength_round_trips_as_opaque() {
    // An A record whose rdlength is 6, not 4: kept opaque and re-emitted
    // byte for byte.
    let raw = b"\x00\x00\x01\x00\x01\x00\x00\x00\x1e\x00\x06\x01\x02\x03\x04\x05\x06";
    let (record, used) = DnsAnswerSection::from_slice(raw).unwrap();
    assert_eq!(used, raw.len());
    assert!(matches!(record.rdata, RData::Other { .. }));
    assert_eq!(record.bytes().as_slice(), raw);
}

#[test]
fn new_with_questions_sets_counts_and_flags() {
    let q = DnsQuestionSection {
        qname: vec![0x07, b'e', b'x', b'a', b'm', b'p', b'l', b'e', 0x03, b'c', b'o', b'm', 0x00],
        qtype: 1,
        qclass: 1,
    };
    let packet = DnsPacket::new_with_questions(vec![q]);
    assert_eq!(packet.header.flags, 0);
    assert_eq!(packet.header.qdcount, 1);
    assert_eq!(packet.header.ancount, 0);
    assert_eq!(packet.header.nscount, 0);
    assert_eq!(packet.header.arcount, 0);
    assert!(packet.header.isrequest());
    assert_eq!(packet.question_section.len(), 1);
    assert!(packet.answer_section.is_empty());
    assert!(packet.authority_section.is_empty());
    assert!(packet.additional_section.is_empty());
}

#[test]
fn isrequest_tests_top_flag_bit() {
    let mut h = DnsHeader { id: 7, flags: 0, qdcount: 0, ancount: 0, nscount: 0, arcount: 0 };
    assert!(h.isrequest());
    h.flags = 0x8000;
    assert!(!h.isrequest());
    h.flags = 0x0100;
    assert!(h.isrequest());
}
