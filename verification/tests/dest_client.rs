use ovenrack::dest::{accept_upstream_response, frame_dot_message, prepare_upstream_request};
use ovenrack::dns::{DnsHeader, DnsPacket};
use ovenrack::error::{ErrorKind, OvenrackError};

fn packet_with(id: u16, flags: u16) -> DnsPacket {
    DnsPacket {
        header: DnsHeader { id, flags, qdcount: 0, ancount: 0, nscount: 0, arcount: 0 },
        question_section: vec![],
        answer_section: vec![],
        authority_section: vec![],
        additional_section: vec![],
    }
}

#[test]
fn id_rewrite_increments_outgoing() {
    let sent = prepare_upstream_request(packet_with(41, 0x0100));
    assert_eq!(sent.header.id, 42);
    assert_eq!(sent.header.flags, 0x0100);
}

#[test]
fn id_rewrite_wraps_at_boundary() {
    let sent = prepare_upstream_request(packet_with(0xFFFF, 0));
    assert_eq!(sent.header.id, 0);
}

#[test]
fn id_rewrite_round_trips_through_a_reply() {
    // The caller's request carries id X; the upstream sees X + 1 and echoes
    // it; the reply handed back carries X again.
    let x: u16 = 0xFFFF;
    let sent = prepare_upstream_request(packet_with(x, 0));
    let reply = packet_with(sent.header.id, 0x8180);
    let delivered = accept_upstream_response(reply).unwrap();
    assert_eq!(delivered.header.id, x);
}

#[test]
fn reply_flagged_as_request_is_a_protocol_violation() {
    let err = accept_upstream_response(packet_with(7, 0x0100)).unwrap_err();
    assert_eq!(err.kind, ErrorKind::ProtocolViolation);
}

#[test]
fn dot_framing_prefixes_big_endian_length() {
    let msg = vec![0xAB, 0xCD, 0xEF];
    let framed = frame_dot_message(&msg).unwrap();
    assert_eq!(framed, vec![0x00, 0x03, 0xAB, 0xCD, 0xEF]);
}

#[test]
fn dot_framing_length_uses_two_bytes() {
    let msg = vec![0u8; 0x0102];
    let framed = frame_dot_message(&msg).unwrap();
    assert_eq!(framed.len(), 0x0102 + 2);
    assert_eq!(framed[0], 0x01);
    assert_eq!(framed[1], 0x02);
}

#[test]
fn error_constructors_carry_kind_and_message() {
    let e = OvenrackError::new(String::from("boom"));
    assert_eq!(e.kind, ErrorKind::Other);
    assert_eq!(e.message().as_str(), "boom");

    let e = OvenrackError::malformed(String::from("bad bytes"));
    assert_eq!(e.kind, ErrorKind::MalformedMessage);
    assert_eq!(e.message().as_str(), "bad bytes");

    let e = OvenrackError::upstream_unavailable(String::from("down"));
    assert_eq!(e.kind, ErrorKind::UpstreamUnavailable);

    let e = OvenrackError::protocol_violation(String::from("query echoed"));
    assert_eq!(e.kind, ErrorKind::ProtocolViolation);
}
