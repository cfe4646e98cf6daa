//! Decision logic of the upstream destination client.
//!
//! Whatever the transport (plain DNS over UDP, DNS-over-TLS, or
//! DNS-over-HTTPS — all driven from outside the library), every query goes
//! through the same two rewrites: the outgoing message's transaction id is
//! raised by one, wrapping at the 16-bit boundary, and a reply's id is
//! lowered by one again before it is handed back. A reply whose
//! query/response flag says it is itself a request is rejected as a
//! protocol violation instead of being forwarded. DNS-over-TLS additionally
//! frames each message with its length as two big-endian bytes.

use vstd::prelude::*;

verus! {

use crate::dns::{DnsHeader, DnsPacket, be16_bytes, clone_bytes, push_u16_be};
use crate::error::{ErrorKind, OvenrackError};

/// The transaction id a request carries upstream: the caller's id plus
/// one, wrapping at the 16-bit boundary.
pub open spec fn wrap_inc(id: u16) -> u16 {
    if id == 0xFFFF {
        0
    } else {
        (id + 1) as u16
    }
}

/// The inverse rewrite, applied to a reply's id before it is returned.
pub open spec fn wrap_dec(id: u16) -> u16 {
    if id == 0 {
        0xFFFF
    } else {
        (id - 1) as u16
    }
}

/// Rewrites a request for transmission upstream: its transaction id is
/// raised by one, wrapping; nothing else changes.
pub fn prepare_upstream_request(request: DnsPacket) -> (r: DnsPacket)
    ensures
        r.header == (DnsHeader { id: wrap_inc(request.header.id), ..request.header }),
        r.question_section == request.question_section,
        r.answer_section == request.answer_section,
        r.authority_section == request.authority_section,
        r.additional_section == request.additional_section,
{
    let mut request = request;
    request.header.id = if request.header.id == 0xFFFF {
        0
    } else {
        request.header.id + 1
    };
    request
}

/// Checks a reply that came back from upstream. A reply flagged as a
/// request is a protocol violation and is rejected; otherwise its
/// transaction id is lowered by one, wrapping, and nothing else changes.
pub fn accept_upstream_response(response: DnsPacket) -> (r: Result<DnsPacket, OvenrackError>)
    ensures
        response.header.spec_isrequest() ==> (r matches Err(e) && e.kind
            == ErrorKind::ProtocolViolation),
        !response.header.spec_isrequest() ==> (r matches Ok(p) && {
            &&& p.header == (DnsHeader { id: wrap_dec(response.header.id), ..response.header })
            &&& p.question_section == response.question_section
            &&& p.answer_section == response.answer_section
            &&& p.authority_section == response.authority_section
            &&& p.additional_section == response.additional_section
        }),
{
    if response.header.isrequest() {
        return Err(
            OvenrackError::protocol_violation("upstream reply is itself a request".to_string()),
        );
    }
    let mut response = response;
    response.header.id = if response.header.id == 0 {
        0xFFFF
    } else {
        response.header.id - 1
    };
    Ok(response)
}

/// Law: the id rewrite round-trips. A request leaving with id X reaches
/// the upstream with id X + 1 modulo 2^16, and a reply bearing that id is
/// handed back to the caller with id X again, wrap-around included.
pub proof fn lemma_id_rewrite_round_trip(id: u16)
    ensures
        wrap_inc(id) == (id + 1) % 0x10000,
        wrap_dec(wrap_inc(id)) == id,
{
}

/// Frames a serialized message for DNS-over-TLS: its length as two
/// big-endian bytes, then the message itself. A message too long for the
/// two-byte length cannot be framed.
pub fn frame_dot_message(msg: &Vec<u8>) -> (r: Result<Vec<u8>, OvenrackError>)
    ensures
        msg@.len() <= 0xFFFF ==> (r matches Ok(v) && v@ == be16_bytes(msg@.len() as u16) + msg@),
        msg@.len() > 0xFFFF ==> (r matches Err(e) && e.kind == ErrorKind::Other),
{
    if msg.len() > 0xFFFF {
        return Err(OvenrackError::new("message too long for two-byte framing".to_string()));
    }
    let mut out: Vec<u8> = Vec::new();
    push_u16_be(&mut out, msg.len() as u16);
    let mut body = clone_bytes(msg);
    out.append(&mut body);
    assert(out@ =~= be16_bytes(msg@.len() as u16) + msg@);
    Ok(out)
}

} // verus!
