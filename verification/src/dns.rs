//! DNS wire-format codec.
//!
//! The format is specified twice over mathematical byte sequences: a
//! specification-level parser (`spec_parse_*`) that says which byte strings
//! form a message and what they decode to, and a specification-level
//! serializer (`spec_ser_*`) that says which bytes a message emits. The
//! executable parser and serializer are proven to agree with them, and
//! `lemma_parse_then_serialize` proves that serializing a parsed message
//! reproduces the parsed bytes exactly.
//!
//! Domain names are stored verbatim as their wire encoding: a run of
//! length-prefixed labels ended by a zero-length label or, in resource
//! records only, by a two-byte compression pointer (first byte with its top
//! two bits set) that is carried through without being resolved.

use vstd::prelude::*;

verus! {

use crate::error::OvenrackError;

// ---------------------------------------------------------------------------
// Big-endian byte helpers
// ---------------------------------------------------------------------------

/// Big-endian value of two bytes.
pub open spec fn be16(hi: u8, lo: u8) -> u16 {
    ((hi as int) * 256 + (lo as int)) as u16
}

/// Big-endian value of four bytes.
pub open spec fn be32(b0: u8, b1: u8, b2: u8, b3: u8) -> u32 {
    ((be16(b0, b1) as int) * 65536 + (be16(b2, b3) as int)) as u32
}

/// The two big-endian bytes of a 16-bit value.
pub open spec fn be16_bytes(x: u16) -> Seq<u8> {
    seq![((x as int) / 256) as u8, ((x as int) % 256) as u8]
}

/// The four big-endian bytes of a 32-bit value.
pub open spec fn be32_bytes(x: u32) -> Seq<u8> {
    be16_bytes(((x as int) / 65536) as u16) + be16_bytes(((x as int) % 65536) as u16)
}

/// Assembles a 16-bit value from its two big-endian bytes.
pub fn read_u16_be(hi: u8, lo: u8) -> (r: u16)
    ensures
        r == be16(hi, lo),
{
    (hi as u16) * 256 + (lo as u16)
}

/// Assembles a 32-bit value from its four big-endian bytes.
pub fn read_u32_be(b0: u8, b1: u8, b2: u8, b3: u8) -> (r: u32)
    ensures
        r == be32(b0, b1, b2, b3),
{
    let hi = read_u16_be(b0, b1);
    let lo = read_u16_be(b2, b3);
    (hi as u32) * 65536 + (lo as u32)
}

/// Appends the two big-endian bytes of a 16-bit value.
pub fn push_u16_be(out: &mut Vec<u8>, x: u16)
    ensures
        final(out)@ == old(out)@ + be16_bytes(x),
{
    out.push((x / 256) as u8);
    out.push((x % 256) as u8);
    assert(out@ =~= old(out)@ + be16_bytes(x));
}

/// Appends the four big-endian bytes of a 32-bit value.
pub fn push_u32_be(out: &mut Vec<u8>, x: u32)
    ensures
        final(out)@ == old(out)@ + be32_bytes(x),
{
    push_u16_be(out, (x / 65536) as u16);
    push_u16_be(out, (x % 65536) as u16);
    assert(out@ =~= old(out)@ + be32_bytes(x));
}

/// The big-endian bytes of a 16-bit value decode back to that value, and
/// decoding two bytes re-encodes to the same bytes.
pub proof fn lemma_be16_round(hi: u8, lo: u8)
    ensures
        be16_bytes(be16(hi, lo)) == seq![hi, lo],
{
    let v = (hi as int) * 256 + (lo as int);
    assert(v / 256 == hi as int && v % 256 == lo as int) by (nonlinear_arith)
        requires
            0 <= hi < 256,
            0 <= lo < 256,
            v == (hi as int) * 256 + (lo as int),
    ;
    assert(be16_bytes(be16(hi, lo)) =~= seq![hi, lo]);
}

/// The big-endian bytes of a 32-bit value decode back to that value.
pub proof fn lemma_be32_round(b0: u8, b1: u8, b2: u8, b3: u8)
    ensures
        be32_bytes(be32(b0, b1, b2, b3)) == seq![b0, b1, b2, b3],
{
    let h = be16(b0, b1) as int;
    let l = be16(b2, b3) as int;
    let v = h * 65536 + l;
    assert(v / 65536 == h && v % 65536 == l) by (nonlinear_arith)
        requires
            0 <= h < 65536,
            0 <= l < 65536,
            v == h * 65536 + l,
    ;
    lemma_be16_round(b0, b1);
    lemma_be16_round(b2, b3);
    assert(be32_bytes(be32(b0, b1, b2, b3)) =~= seq![b0, b1, b2, b3]);
}

// ---------------------------------------------------------------------------
// Message types and their views
// ---------------------------------------------------------------------------

/// The type-specific payload of a resource record. `A` and `AAAA` payloads
/// hold the address octets; anything else is carried through as raw bytes.
#[derive(Debug)]
pub enum RData {
    ARecord { ip: Vec<u8> },
    AAAARecord { ip: Vec<u8> },
    Other { data: Vec<u8> },
}

#[verifier::ext_equal]
pub enum RDataView {
    ARecord { ip: Seq<u8> },
    AAAARecord { ip: Seq<u8> },
    Other { data: Seq<u8> },
}

impl View for RData {
    type V = RDataView;

    open spec fn view(&self) -> RDataView {
        match self {
            RData::ARecord { ip } => RDataView::ARecord { ip: ip@ },
            RData::AAAARecord { ip } => RDataView::AAAARecord { ip: ip@ },
            RData::Other { data } => RDataView::Other { data: data@ },
        }
    }
}

impl DeepView for RData {
    type V = RDataView;

    open spec fn deep_view(&self) -> RDataView {
        self.view()
    }
}

/// A record of the answer, authority or additional section.
#[derive(Debug)]
pub struct DnsAnswerSection {
    pub name: Vec<u8>,
    pub atype: u16,
    pub class: u16,
    pub ttl: u32,
    pub rdlength: u16,
    pub rdata: RData,
}

#[verifier::ext_equal]
pub struct AnswerView {
    pub name: Seq<u8>,
    pub atype: u16,
    pub class: u16,
    pub ttl: u32,
    pub rdlength: u16,
    pub rdata: RDataView,
}

impl View for DnsAnswerSection {
    type V = AnswerView;

    open spec fn view(&self) -> AnswerView {
        AnswerView {
            name: self.name@,
            atype: self.atype,
            class: self.class,
            ttl: self.ttl,
            rdlength: self.rdlength,
            rdata: self.rdata@,
        }
    }
}

impl DeepView for DnsAnswerSection {
    type V = AnswerView;

    open spec fn deep_view(&self) -> AnswerView {
        self.view()
    }
}

/// An entry of the question section.
#[derive(Debug)]
pub struct DnsQuestionSection {
    pub qname: Vec<u8>,
    pub qtype: u16,
    pub qclass: u16,
}

#[verifier::ext_equal]
pub struct QuestionView {
    pub qname: Seq<u8>,
    pub qtype: u16,
    pub qclass: u16,
}

impl View for DnsQuestionSection {
    type V = QuestionView;

    open spec fn view(&self) -> QuestionView {
        QuestionView { qname: self.qname@, qtype: self.qtype, qclass: self.qclass }
    }
}

impl DeepView for DnsQuestionSection {
    type V = QuestionView;

    open spec fn deep_view(&self) -> QuestionView {
        self.view()
    }
}

/// The fixed 12-byte message header.
#[derive(Debug, Clone, Copy, PartialEq, Eq, Structural)]
pub struct DnsHeader {
    pub id: u16,
    pub flags: u16,
    pub qdcount: u16,
    pub ancount: u16,
    pub nscount: u16,
    pub arcount: u16,
}

/// A whole DNS message.
#[derive(Debug)]
pub struct DnsPacket {
    pub header: DnsHeader,
    pub question_section: Vec<DnsQuestionSection>,
    pub answer_section: Vec<DnsAnswerSection>,
    pub authority_section: Vec<DnsAnswerSection>,
    pub additional_section: Vec<DnsAnswerSection>,
}

#[verifier::ext_equal]
pub struct PacketView {
    pub header: DnsHeader,
    pub questions: Seq<QuestionView>,
    pub answers: Seq<AnswerView>,
    pub authorities: Seq<AnswerView>,
    pub additionals: Seq<AnswerView>,
}

impl View for DnsPacket {
    type V = PacketView;

    open spec fn view(&self) -> PacketView {
        PacketView {
            header: self.header,
            questions: self.question_section.deep_view(),
            answers: self.answer_section.deep_view(),
            authorities: self.authority_section.deep_view(),
            additionals: self.additional_section.deep_view(),
        }
    }
}

impl DeepView for DnsPacket {
    type V = PacketView;

    open spec fn deep_view(&self) -> PacketView {
        self.view()
    }
}

// ---------------------------------------------------------------------------
// Specification-level parser
// ---------------------------------------------------------------------------

/// Length of the wire encoding of a domain name at the start of `s`, or
/// `None` if `s` holds no complete name. A name is a run of non-empty
/// length-prefixed labels ended by a zero byte; with `ptr_ok` it may instead
/// end in a two-byte compression pointer, whose first byte has its top two
/// bits set.
pub open spec fn name_end(s: Seq<u8>, ptr_ok: bool) -> Option<int>
    decreases s.len(),
{
    if s.len() == 0 {
        None
    } else if s[0] == 0 {
        Some(1)
    } else if ptr_ok && s[0] >= 192 {
        if s.len() >= 2 {
            Some(2)
        } else {
            None
        }
    } else if 1 + (s[0] as int) <= s.len() {
        match name_end(s.skip(1 + (s[0] as int)), ptr_ok) {
            Some(n) => Some(1 + (s[0] as int) + n),
            None => None,
        }
    } else {
        None
    }
}

/// Decodes a question at the start of `s`, with the number of bytes it
/// occupies.
pub open spec fn spec_parse_question(s: Seq<u8>) -> Option<(QuestionView, int)> {
    match name_end(s, false) {
        Some(n) => if n + 4 <= s.len() {
            Some(
                (
                    QuestionView {
                        qname: s.take(n),
                        qtype: be16(s[n], s[n + 1]),
                        qclass: be16(s[n + 2], s[n + 3]),
                    },
                    n + 4,
                ),
            )
        } else {
            None
        },
        None => None,
    }
}

/// Classifies an RDATA payload: a 4-byte `A` or 16-byte `AAAA` payload is
/// decoded, anything else is carried as raw bytes.
pub open spec fn spec_parse_rdata(data: Seq<u8>, atype: u16) -> RDataView {
    if atype == 1 && data.len() == 4 {
        RDataView::ARecord { ip: data }
    } else if atype == 28 && data.len() == 16 {
        RDataView::AAAARecord { ip: data }
    } else {
        RDataView::Other { data }
    }
}

/// Decodes a resource record at the start of `s`, with the number of bytes
/// it occupies.
pub open spec fn spec_parse_answer(s: Seq<u8>) -> Option<(AnswerView, int)> {
    match name_end(s, true) {
        Some(n) => if n + 10 <= s.len() {
            let atype = be16(s[n], s[n + 1]);
            let rdlength = be16(s[n + 8], s[n + 9]);
            if n + 10 + rdlength <= s.len() {
                Some(
                    (
                        AnswerView {
                            name: s.take(n),
                            atype: atype,
                            class: be16(s[n + 2], s[n + 3]),
                            ttl: be32(s[n + 4], s[n + 5], s[n + 6], s[n + 7]),
                            rdlength: rdlength,
                            rdata: spec_parse_rdata(
                                s.subrange(n + 10, n + 10 + rdlength),
                                atype,
                            ),
                        },
                        n + 10 + rdlength,
                    ),
                )
            } else {
                None
            }
        } else {
            None
        },
        None => None,
    }
}

/// Decodes `count` questions in sequence.
pub open spec fn spec_parse_questions(s: Seq<u8>, count: int) -> Option<(Seq<QuestionView>, int)>
    decreases count,
{
    if count <= 0 {
        Some((Seq::empty(), 0))
    } else {
        match spec_parse_question(s) {
            Some((q, n)) => match spec_parse_questions(s.skip(n), count - 1) {
                Some((qs, m)) => Some((seq![q] + qs, n + m)),
                None => None,
            },
            None => None,
        }
    }
}

/// Decodes `count` resource records in sequence.
pub open spec fn spec_parse_answers(s: Seq<u8>, count: int) -> Option<(Seq<AnswerView>, int)>
    decreases count,
{
    if count <= 0 {
        Some((Seq::empty(), 0))
    } else {
        match spec_parse_answer(s) {
            Some((a, n)) => match spec_parse_answers(s.skip(n), count - 1) {
                Some((ans, m)) => Some((seq![a] + ans, n + m)),
                None => None,
            },
            None => None,
        }
    }
}

/// Decodes the 12-byte header at the start of `s`.
pub open spec fn spec_parse_header(s: Seq<u8>) -> Option<(DnsHeader, int)> {
    if s.len() >= 12 {
        Some(
            (
                DnsHeader {
                    id: be16(s[0], s[1]),
                    flags: be16(s[2], s[3]),
                    qdcount: be16(s[4], s[5]),
                    ancount: be16(s[6], s[7]),
                    nscount: be16(s[8], s[9]),
                    arcount: be16(s[10], s[11]),
                },
                12,
            ),
        )
    } else {
        None
    }
}

/// Decodes a whole message at the start of `s`: the header, then as many
/// questions and records as its four counts announce. Returns the message
/// and the number of bytes consumed; trailing bytes are not looked at.
pub open spec fn spec_parse_packet(s: Seq<u8>) -> Option<(PacketView, int)> {
    match spec_parse_header(s) {
        Some((h, _n0)) => match spec_parse_questions(s.skip(12), h.qdcount as int) {
            Some((qs, n1)) => match spec_parse_answers(s.skip(12 + n1), h.ancount as int) {
                Some((ans, n2)) => match spec_parse_answers(
                    s.skip(12 + n1 + n2),
                    h.nscount as int,
                ) {
                    Some((auth, n3)) => match spec_parse_answers(
                        s.skip(12 + n1 + n2 + n3),
                        h.arcount as int,
                    ) {
                        Some((add, n4)) => Some(
                            (
                                PacketView {
                                    header: h,
                                    questions: qs,
                                    answers: ans,
                                    authorities: auth,
                                    additionals: add,
                                },
                                12 + n1 + n2 + n3 + n4,
                            ),
                        ),
                        None => None,
                    },
                    None => None,
                },
                None => None,
            },
            None => None,
        },
        None => None,
    }
}

// ---------------------------------------------------------------------------
// Specification-level serializer
// ---------------------------------------------------------------------------

/// Bytes of an RDATA payload.
pub open spec fn spec_ser_rdata(r: RDataView) -> Seq<u8> {
    match r {
        RDataView::ARecord { ip } => ip,
        RDataView::AAAARecord { ip } => ip,
        RDataView::Other { data } => data,
    }
}

/// Bytes of one question.
pub open spec fn spec_ser_question(q: QuestionView) -> Seq<u8> {
    q.qname + be16_bytes(q.qtype) + be16_bytes(q.qclass)
}

/// Bytes of one resource record.
pub open spec fn spec_ser_answer(a: AnswerView) -> Seq<u8> {
    a.name + be16_bytes(a.atype) + be16_bytes(a.class) + be32_bytes(a.ttl) + be16_bytes(a.rdlength)
        + spec_ser_rdata(a.rdata)
}

/// Bytes of a question list, in order.
pub open spec fn spec_ser_questions(qs: Seq<QuestionView>) -> Seq<u8>
    decreases qs.len(),
{
    if qs.len() == 0 {
        Seq::empty()
    } else {
        spec_ser_question(qs[0]) + spec_ser_questions(qs.drop_first())
    }
}

/// Bytes of a record list, in order.
pub open spec fn spec_ser_answers(ans: Seq<AnswerView>) -> Seq<u8>
    decreases ans.len(),
{
    if ans.len() == 0 {
        Seq::empty()
    } else {
        spec_ser_answer(ans[0]) + spec_ser_answers(ans.drop_first())
    }
}

/// The 12 header bytes. The four counts are written from the header fields.
pub open spec fn spec_ser_header(h: DnsHeader) -> Seq<u8> {
    be16_bytes(h.id) + be16_bytes(h.flags) + be16_bytes(h.qdcount) + be16_bytes(h.ancount)
        + be16_bytes(h.nscount) + be16_bytes(h.arcount)
}

/// Bytes of a whole message: header, questions, then the three record
/// sections in order.
pub open spec fn spec_ser_packet(p: PacketView) -> Seq<u8> {
    spec_ser_header(p.header) + spec_ser_questions(p.questions) + spec_ser_answers(p.answers)
        + spec_ser_answers(p.authorities) + spec_ser_answers(p.additionals)
}

// ---------------------------------------------------------------------------
// Round trip: serializing a parsed message reproduces the parsed bytes
// ---------------------------------------------------------------------------

/// A complete name occupies between 1 byte and the whole input.
pub proof fn lemma_name_end_bounds(s: Seq<u8>, ptr_ok: bool)
    requires
        name_end(s, ptr_ok) is Some,
    ensures
        1 <= name_end(s, ptr_ok)->Some_0 <= s.len(),
    decreases s.len(),
{
    if s.len() == 0 {
    } else if s[0] == 0 {
    } else if ptr_ok && s[0] >= 192 {
    } else if 1 + (s[0] as int) <= s.len() {
        lemma_name_end_bounds(s.skip(1 + (s[0] as int)), ptr_ok);
    }
}

/// Concatenating two adjacent decoded ranges of `s` gives the combined range.
proof fn lemma_take_skip_concat(s: Seq<u8>, a: int, b: int)
    requires
        0 <= a,
        0 <= b,
        a + b <= s.len(),
    ensures
        s.take(a) + s.skip(a).take(b) == s.take(a + b),
{
    assert(s.take(a) + s.skip(a).take(b) =~= s.take(a + b));
}

/// A decoded question re-encodes to exactly the bytes it was decoded from.
pub proof fn lemma_parse_question_round(s: Seq<u8>)
    requires
        spec_parse_question(s) is Some,
    ensures
        ({
            let (q, n) = spec_parse_question(s)->Some_0;
            &&& 0 < n <= s.len()
            &&& spec_ser_question(q) == s.take(n)
        }),
{
    let k = name_end(s, false)->Some_0;
    lemma_name_end_bounds(s, false);
    let (q, n) = spec_parse_question(s)->Some_0;
    lemma_be16_round(s[k], s[k + 1]);
    lemma_be16_round(s[k + 2], s[k + 3]);
    assert(spec_ser_question(q) =~= s.take(n));
}

/// A decoded resource record re-encodes to exactly the bytes it was decoded
/// from.
pub proof fn lemma_parse_answer_round(s: Seq<u8>)
    requires
        spec_parse_answer(s) is Some,
    ensures
        ({
            let (a, n) = spec_parse_answer(s)->Some_0;
            &&& 0 < n <= s.len()
            &&& spec_ser_answer(a) == s.take(n)
        }),
{
    let k = name_end(s, true)->Some_0;
    lemma_name_end_bounds(s, true);
    let (a, n) = spec_parse_answer(s)->Some_0;
    lemma_be16_round(s[k], s[k + 1]);
    lemma_be16_round(s[k + 2], s[k + 3]);
    lemma_be32_round(s[k + 4], s[k + 5], s[k + 6], s[k + 7]);
    lemma_be16_round(s[k + 8], s[k + 9]);
    assert(spec_ser_rdata(a.rdata) == s.subrange(k + 10, n));
    assert(spec_ser_answer(a) =~= s.take(n));
}

/// A decoded question list re-encodes to exactly the bytes it was decoded
/// from, and holds as many questions as were asked for.
pub proof fn lemma_parse_questions_round(s: Seq<u8>, count: int)
    requires
        spec_parse_questions(s, count) is Some,
    ensures
        ({
            let (qs, m) = spec_parse_questions(s, count)->Some_0;
            &&& 0 <= m <= s.len()
            &&& qs.len() == if count <= 0 { 0int } else { count }
            &&& spec_ser_questions(qs) == s.take(m)
        }),
    decreases count,
{
    if count <= 0 {
        assert(spec_ser_questions(Seq::empty()) =~= s.take(0));
    } else {
        let (q, n) = spec_parse_question(s)->Some_0;
        lemma_parse_question_round(s);
        let rest = s.skip(n);
        lemma_parse_questions_round(rest, count - 1);
        let (qs2, m2) = spec_parse_questions(rest, count - 1)->Some_0;
        let whole = seq![q] + qs2;
        assert(whole[0] == q);
        assert(whole.drop_first() =~= qs2);
        lemma_take_skip_concat(s, n, m2);
        assert(spec_ser_questions(whole) == spec_ser_question(q) + spec_ser_questions(qs2));
        assert(spec_ser_questions(whole) == s.take(n + m2));
    }
}

/// A decoded record list re-encodes to exactly the bytes it was decoded
/// from, and holds as many records as were asked for.
pub proof fn lemma_parse_answers_round(s: Seq<u8>, count: int)
    requires
        spec_parse_answers(s, count) is Some,
    ensures
        ({
            let (ans, m) = spec_parse_answers(s, count)->Some_0;
            &&& 0 <= m <= s.len()
            &&& ans.len() == if count <= 0 { 0int } else { count }
            &&& spec_ser_answers(ans) == s.take(m)
        }),
    decreases count,
{
    if count <= 0 {
        assert(spec_ser_answers(Seq::empty()) =~= s.take(0));
    } else {
        let (a, n) = spec_parse_answer(s)->Some_0;
        lemma_parse_answer_round(s);
        let rest = s.skip(n);
        lemma_parse_answers_round(rest, count - 1);
        let (ans2, m2) = spec_parse_answers(rest, count - 1)->Some_0;
        let whole = seq![a] + ans2;
        assert(whole[0] == a);
        assert(whole.drop_first() =~= ans2);
        lemma_take_skip_concat(s, n, m2);
        assert(spec_ser_answers(whole) == spec_ser_answer(a) + spec_ser_answers(ans2));
        assert(spec_ser_answers(whole) == s.take(n + m2));
    }
}

/// A decoded header re-encodes to exactly its 12 bytes.
pub proof fn lemma_parse_header_round(s: Seq<u8>)
    requires
        spec_parse_header(s) is Some,
    ensures
        spec_ser_header(spec_parse_header(s)->Some_0.0) == s.take(12),
{
    lemma_be16_round(s[0], s[1]);
    lemma_be16_round(s[2], s[3]);
    lemma_be16_round(s[4], s[5]);
    lemma_be16_round(s[6], s[7]);
    lemma_be16_round(s[8], s[9]);
    lemma_be16_round(s[10], s[11]);
    assert(spec_ser_header(spec_parse_header(s)->Some_0.0) =~= s.take(12));
}

/// Serializing a parsed message reproduces exactly the bytes the parser
/// consumed.
pub proof fn lemma_parse_then_serialize(s: Seq<u8>)
    requires
        spec_parse_packet(s) is Some,
    ensures
        ({
            let (p, n) = spec_parse_packet(s)->Some_0;
            &&& 0 <= n <= s.len()
            &&& spec_ser_packet(p) == s.take(n)
        }),
{
    let (p, n) = spec_parse_packet(s)->Some_0;
    let h = spec_parse_header(s)->Some_0.0;
    let (qs, n1) = spec_parse_questions(s.skip(12), h.qdcount as int)->Some_0;
    let (ans, n2) = spec_parse_answers(s.skip(12 + n1), h.ancount as int)->Some_0;
    let (auth, n3) = spec_parse_answers(s.skip(12 + n1 + n2), h.nscount as int)->Some_0;
    let (add, n4) = spec_parse_answers(s.skip(12 + n1 + n2 + n3), h.arcount as int)->Some_0;
    lemma_parse_header_round(s);
    lemma_parse_questions_round(s.skip(12), h.qdcount as int);
    lemma_parse_answers_round(s.skip(12 + n1), h.ancount as int);
    lemma_parse_answers_round(s.skip(12 + n1 + n2), h.nscount as int);
    lemma_parse_answers_round(s.skip(12 + n1 + n2 + n3), h.arcount as int);
    assert(s.skip(12).len() == s.len() - 12);
    lemma_take_skip_concat(s, 12, n1);
    lemma_take_skip_concat(s, 12 + n1, n2);
    lemma_take_skip_concat(s, 12 + n1 + n2, n3);
    lemma_take_skip_concat(s, 12 + n1 + n2 + n3, n4);
    assert(s.skip(12).take(n1) =~= s.take(12 + n1).skip(12));
    assert(spec_ser_packet(p) =~= s.take(n));
}

/// If the parser consumed every byte of `s`, serializing gives back `s`
/// itself.
pub proof fn lemma_round_trip(s: Seq<u8>)
    requires
        spec_parse_packet(s) is Some,
        spec_parse_packet(s)->Some_0.1 == s.len(),
    ensures
        spec_ser_packet(spec_parse_packet(s)->Some_0.0) == s,
{
    lemma_parse_then_serialize(s);
    assert(s.take(s.len() as int) =~= s);
}

/// The four header counts of a message name the lengths of its sections.
pub open spec fn counts_consistent(p: PacketView) -> bool {
    &&& p.header.qdcount == p.questions.len()
    &&& p.header.ancount == p.answers.len()
    &&& p.header.nscount == p.authorities.len()
    &&& p.header.arcount == p.additionals.len()
}

/// A parsed message's header counts match its section lengths: the parser
/// reads exactly as many questions and records as the header announces.
pub proof fn lemma_parsed_counts_consistent(s: Seq<u8>)
    requires
        spec_parse_packet(s) is Some,
    ensures
        counts_consistent(spec_parse_packet(s)->Some_0.0),
{
    let h = spec_parse_header(s)->Some_0.0;
    let (qs, n1) = spec_parse_questions(s.skip(12), h.qdcount as int)->Some_0;
    let (ans, n2) = spec_parse_answers(s.skip(12 + n1), h.ancount as int)->Some_0;
    let (auth, n3) = spec_parse_answers(s.skip(12 + n1 + n2), h.nscount as int)->Some_0;
    lemma_parse_questions_round(s.skip(12), h.qdcount as int);
    lemma_parse_answers_round(s.skip(12 + n1), h.ancount as int);
    lemma_parse_answers_round(s.skip(12 + n1 + n2), h.nscount as int);
    lemma_parse_answers_round(s.skip(12 + n1 + n2 + n3), h.arcount as int);
}

// ---------------------------------------------------------------------------
// Executable parser
// ---------------------------------------------------------------------------

/// Copies a byte vector.
pub(crate) fn clone_bytes(v: &Vec<u8>) -> (r: Vec<u8>)
    ensures
        r@ == v@,
{
    let mut out: Vec<u8> = Vec::new();
    let mut i: usize = 0;
    while i < v.len()
        invariant
            i <= v@.len(),
            out@ == v@.take(i as int),
        decreases v@.len() - i,
    {
        out.push(v[i]);
        assert(out@ =~= v@.take(i as int + 1));
        i = i + 1;
    }
    assert(v@.take(v@.len() as int) =~= v@);
    out
}

/// Copies the bytes of `slice` between `from` and `to`.
fn copy_range(slice: &[u8], from: usize, to: usize) -> (r: Vec<u8>)
    requires
        from <= to <= slice@.len(),
    ensures
        r@ == slice@.subrange(from as int, to as int),
{
    let mut out: Vec<u8> = Vec::new();
    let mut i: usize = from;
    while i < to
        invariant
            from <= i <= to <= slice@.len(),
            out@ == slice@.subrange(from as int, i as int),
        decreases to - i,
    {
        out.push(slice[i]);
        assert(out@ =~= slice@.subrange(from as int, i as int + 1));
        i = i + 1;
    }
    out
}

/// Finds where the domain name at the start of `slice` ends.
fn scan_name(slice: &[u8], ptr_ok: bool) -> (r: Result<usize, OvenrackError>)
    ensures
        match r {
            Ok(n) => name_end(slice@, ptr_ok) == Some(n as int) && 1 <= n <= slice@.len(),
            Err(e) => name_end(slice@, ptr_ok) is None && e.kind
                == crate::error::ErrorKind::MalformedMessage,
        },
{
    let ghost s = slice@;
    proof {
        assert(s.skip(0) =~= s);
    }
    let mut off: usize = 0;
    loop
        invariant
            0 <= off <= s.len(),
            s == slice@,
            (match name_end(s.skip(off as int), ptr_ok) {
                Some(k) => name_end(s, ptr_ok) == Some(off as int + k),
                None => name_end(s, ptr_ok) is None,
            }),
        decreases s.len() - off,
    {
        if off >= slice.len() {
            proof {
                assert(s.skip(off as int).len() == 0);
            }
            return Err(OvenrackError::malformed("truncated domain name".to_string()));
        }
        let b = slice[off];
        proof {
            assert(s.skip(off as int)[0] == s[off as int]);
        }
        if b == 0 {
            return Ok(off + 1);
        }
        if ptr_ok && b >= 192 {
            if off + 1 < slice.len() {
                return Ok(off + 2);
            } else {
                proof {
                    assert(s.skip(off as int).len() < 2);
                }
                return Err(OvenrackError::malformed("truncated compression pointer".to_string()));
            }
        }
        if slice.len() - off > b as usize {
            proof {
                assert(s.skip(off as int).skip(1 + b as int) =~= s.skip(
                    off as int + 1 + b as int,
                ));
            }
            off = off + 1 + b as usize;
        } else {
            return Err(OvenrackError::malformed("label overruns the message".to_string()));
        }
    }
}

impl DnsQuestionSection {
    /// Decodes one question from the start of `slice`, returning it with
    /// the number of bytes it occupied. Fails exactly when the bytes hold
    /// no complete question.
    pub fn from_slice(slice: &[u8]) -> (r: Result<(DnsQuestionSection, usize), OvenrackError>)
        ensures
            match r {
                Ok((q, n)) => spec_parse_question(slice@) == Some((q@, n as int)) && 0 < n
                    <= slice@.len(),
                Err(e) => spec_parse_question(slice@) is None && e.kind
                    == crate::error::ErrorKind::MalformedMessage,
            },
    {
        let k = match scan_name(slice, false) {
            Ok(k) => k,
            Err(e) => return Err(e),
        };
        if slice.len() - k < 4 {
            return Err(OvenrackError::malformed("truncated question".to_string()));
        }
        let qname = copy_range(slice, 0, k);
        let qtype = read_u16_be(slice[k], slice[k + 1]);
        let qclass = read_u16_be(slice[k + 2], slice[k + 3]);
        let q = DnsQuestionSection { qname, qtype, qclass };
        proof {
            assert(q@.qname =~= slice@.take(k as int));
            assert(spec_parse_question(slice@) == Some((q@, k as int + 4)));
        }
        Ok((q, k + 4))
    }
}

impl DnsAnswerSection {
    /// Decodes one resource record from the start of `slice`, returning it
    /// with the number of bytes it occupied. Fails exactly when the bytes
    /// hold no complete record.
    pub fn from_slice(slice: &[u8]) -> (r: Result<(DnsAnswerSection, usize), OvenrackError>)
        ensures
            match r {
                Ok((a, n)) => spec_parse_answer(slice@) == Some((a@, n as int)) && 0 < n
                    <= slice@.len(),
                Err(e) => spec_parse_answer(slice@) is None && e.kind
                    == crate::error::ErrorKind::MalformedMessage,
            },
    {
        let k = match scan_name(slice, true) {
            Ok(k) => k,
            Err(e) => return Err(e),
        };
        if slice.len() - k < 10 {
            return Err(OvenrackError::malformed("truncated resource record".to_string()));
        }
        let atype = read_u16_be(slice[k], slice[k + 1]);
        let class = read_u16_be(slice[k + 2], slice[k + 3]);
        let ttl = read_u32_be(slice[k + 4], slice[k + 5], slice[k + 6], slice[k + 7]);
        let rdlength = read_u16_be(slice[k + 8], slice[k + 9]);
        if slice.len() - (k + 10) < rdlength as usize {
            return Err(OvenrackError::malformed("RDATA overruns the message".to_string()));
        }
        let rd_start = k + 10;
        let rd_end = k + 10 + rdlength as usize;
        let rdata = if atype == 1 && rdlength == 4 {
            RData::ARecord { ip: copy_range(slice, rd_start, rd_end) }
        } else if atype == 28 && rdlength == 16 {
            RData::AAAARecord { ip: copy_range(slice, rd_start, rd_end) }
        } else {
            RData::Other { data: copy_range(slice, rd_start, rd_end) }
        };
        let a = DnsAnswerSection { name: copy_range(slice, 0, k), atype, class, ttl, rdlength, rdata };
        proof {
            let s = slice@;
            assert(a@.name =~= s.take(k as int));
            assert(a@.rdata == spec_parse_rdata(
                s.subrange(k as int + 10, k as int + 10 + rdlength as int),
                atype,
            ));
            assert(spec_parse_answer(s) == Some((a@, k as int + 10 + rdlength as int)));
        }
        Ok((a, rd_end))
    }
}

impl DnsHeader {
    /// Decodes the 12-byte header from the start of `slice`. Fails exactly
    /// when fewer than 12 bytes are there.
    pub fn from_slice(slice: &[u8]) -> (r: Result<(DnsHeader, usize), OvenrackError>)
        ensures
            match r {
                Ok((h, n)) => spec_parse_header(slice@) == Some((h, 12int)) && n == 12,
                Err(e) => spec_parse_header(slice@) is None && e.kind
                    == crate::error::ErrorKind::MalformedMessage,
            },
    {
        if slice.len() < 12 {
            return Err(OvenrackError::malformed("truncated header".to_string()));
        }
        let h = DnsHeader {
            id: read_u16_be(slice[0], slice[1]),
            flags: read_u16_be(slice[2], slice[3]),
            qdcount: read_u16_be(slice[4], slice[5]),
            ancount: read_u16_be(slice[6], slice[7]),
            nscount: read_u16_be(slice[8], slice[9]),
            arcount: read_u16_be(slice[10], slice[11]),
        };
        Ok((h, 12))
    }
}

/// Decodes `count` questions of `slice` starting at `start`.
fn parse_question_list(slice: &[u8], start: usize, count: u16) -> (r: Result<
    (Vec<DnsQuestionSection>, usize),
    OvenrackError,
>)
    requires
        start <= slice@.len(),
    ensures
        match r {
            Ok((v, end)) => {
                &&& start <= end <= slice@.len()
                &&& spec_parse_questions(slice@.skip(start as int), count as int) == Some(
                    (v.deep_view(), end - start),
                )
            },
            Err(e) => {
                &&& spec_parse_questions(slice@.skip(start as int), count as int) is None
                &&& e.kind == crate::error::ErrorKind::MalformedMessage
            },
        },
{
    let ghost s = slice@;
    let ghost c = count as int;
    let mut v: Vec<DnsQuestionSection> = Vec::new();
    let mut off: usize = start;
    let mut i: u16 = 0;
    proof {
        if spec_parse_questions(s.skip(start as int), c) is Some {
            let (qs2, m2) = spec_parse_questions(s.skip(start as int), c)->Some_0;
            assert(v.deep_view() + qs2 =~= qs2);
        }
    }
    while i < count
        invariant
            start <= off <= s.len(),
            i <= count,
            s == slice@,
            c == count as int,
            v.deep_view().len() == i as int,
            (match spec_parse_questions(s.skip(off as int), c - i) {
                Some((qs2, m2)) => spec_parse_questions(s.skip(start as int), c) == Some(
                    (v.deep_view() + qs2, off - start + m2),
                ),
                None => spec_parse_questions(s.skip(start as int), c) is None,
            }),
        decreases count - i,
    {
        let sub = &slice[off..slice.len()];
        proof {
            assert(sub@ =~= s.skip(off as int));
        }
        match DnsQuestionSection::from_slice(sub) {
            Err(e) => {
                return Err(e);
            },
            Ok((q, n)) => {
                proof {
                    assert(s.skip(off as int).skip(n as int) =~= s.skip(off as int + n as int));
                    let tail = spec_parse_questions(s.skip(off as int + n as int), c - i - 1);
                    if tail is Some {
                        let (qs3, m3) = tail->Some_0;
                        assert(v.deep_view().push(q@) =~= v.deep_view() + seq![q@]);
                        assert((v.deep_view() + seq![q@]) + qs3 =~= v.deep_view() + (seq![q@]
                            + qs3));
                    }
                }
                let ghost pre = v.deep_view();
                v.push(q);
                proof {
                    assert(v.deep_view() =~= pre.push(q@));
                }
                off = off + n;
                i = i + 1;
            },
        }
    }
    proof {
        assert(v.deep_view() + Seq::<QuestionView>::empty() =~= v.deep_view());
    }
    Ok((v, off))
}

/// Decodes `count` resource records of `slice` starting at `start`.
fn parse_answer_list(slice: &[u8], start: usize, count: u16) -> (r: Result<
    (Vec<DnsAnswerSection>, usize),
    OvenrackError,
>)
    requires
        start <= slice@.len(),
    ensures
        match r {
            Ok((v, end)) => {
                &&& start <= end <= slice@.len()
                &&& spec_parse_answers(slice@.skip(start as int), count as int) == Some(
                    (v.deep_view(), end - start),
                )
            },
            Err(e) => {
                &&& spec_parse_answers(slice@.skip(start as int), count as int) is None
                &&& e.kind == crate::error::ErrorKind::MalformedMessage
            },
        },
{
    let ghost s = slice@;
    let ghost c = count as int;
    let mut v: Vec<DnsAnswerSection> = Vec::new();
    let mut off: usize = start;
    let mut i: u16 = 0;
    proof {
        if spec_parse_answers(s.skip(start as int), c) is Some {
            let (as2, m2) = spec_parse_answers(s.skip(start as int), c)->Some_0;
            assert(v.deep_view() + as2 =~= as2);
        }
    }
    while i < count
        invariant
            start <= off <= s.len(),
            i <= count,
            s == slice@,
            c == count as int,
            v.deep_view().len() == i as int,
            (match spec_parse_answers(s.skip(off as int), c - i) {
                Some((as2, m2)) => spec_parse_answers(s.skip(start as int), c) == Some(
                    (v.deep_view() + as2, off - start + m2),
                ),
                None => spec_parse_answers(s.skip(start as int), c) is None,
            }),
        decreases count - i,
    {
        let sub = &slice[off..slice.len()];
        proof {
            assert(sub@ =~= s.skip(off as int));
        }
        match DnsAnswerSection::from_slice(sub) {
            Err(e) => {
                return Err(e);
            },
            Ok((a, n)) => {
                proof {
                    assert(s.skip(off as int).skip(n as int) =~= s.skip(off as int + n as int));
                    let tail = spec_parse_answers(s.skip(off as int + n as int), c - i - 1);
                    if tail is Some {
                        let (as3, m3) = tail->Some_0;
                        assert(v.deep_view().push(a@) =~= v.deep_view() + seq![a@]);
                        assert((v.deep_view() + seq![a@]) + as3 =~= v.deep_view() + (seq![a@]
                            + as3));
                    }
                }
                let ghost pre = v.deep_view();
                v.push(a);
                proof {
                    assert(v.deep_view() =~= pre.push(a@));
                }
                off = off + n;
                i = i + 1;
            },
        }
    }
    proof {
        assert(v.deep_view() + Seq::<AnswerView>::empty() =~= v.deep_view());
    }
    Ok((v, off))
}

impl DnsPacket {
    /// Decodes a whole message from the start of `slice`: header, then the
    /// four sections as announced by the header counts. Bytes after the
    /// message are ignored, as they are for a datagram read into a fixed
    /// buffer. Fails exactly when the bytes hold no complete message.
    pub fn from_slice(slice: &[u8]) -> (r: Result<DnsPacket, OvenrackError>)
        ensures
            match r {
                Ok(p) => spec_parse_packet(slice@) is Some && spec_parse_packet(
                    slice@,
                )->Some_0.0 == p@,
                Err(e) => spec_parse_packet(slice@) is None && e.kind
                    == crate::error::ErrorKind::MalformedMessage,
            },
    {
        let header = match DnsHeader::from_slice(slice) {
            Ok((h, _n)) => h,
            Err(e) => return Err(e),
        };
        let (questions, off1) = match parse_question_list(slice, 12, header.qdcount) {
            Ok(x) => x,
            Err(e) => return Err(e),
        };
        let (answers, off2) = match parse_answer_list(slice, off1, header.ancount) {
            Ok(x) => x,
            Err(e) => return Err(e),
        };
        let (authorities, off3) = match parse_answer_list(slice, off2, header.nscount) {
            Ok(x) => x,
            Err(e) => return Err(e),
        };
        let (additionals, off4) = match parse_answer_list(slice, off3, header.arcount) {
            Ok(x) => x,
            Err(e) => return Err(e),
        };
        let p = DnsPacket {
            header,
            question_section: questions,
            answer_section: answers,
            authority_section: authorities,
            additional_section: additionals,
        };
        proof {
            let s = slice@;
            assert(s.skip(12 + (off1 - 12)) == s.skip(off1 as int));
            assert(s.skip(12 + (off1 - 12) + (off2 - off1)) == s.skip(off2 as int));
            assert(s.skip(12 + (off1 - 12) + (off2 - off1) + (off3 - off2)) == s.skip(
                off3 as int,
            ));
            assert(spec_parse_packet(s)->Some_0.0 =~= p@);
        }
        Ok(p)
    }
}

// ---------------------------------------------------------------------------
// Executable serializer and message construction
// ---------------------------------------------------------------------------

/// A non-empty question list serializes as its front part followed by its
/// last question.
proof fn lemma_ser_questions_snoc(qs: Seq<QuestionView>)
    requires
        qs.len() > 0,
    ensures
        spec_ser_questions(qs) == spec_ser_questions(qs.drop_last()) + spec_ser_question(
            qs.last(),
        ),
    decreases qs.len(),
{
    if qs.len() == 1 {
        assert(qs.drop_last() =~= Seq::<QuestionView>::empty());
        assert(qs.drop_first() =~= Seq::<QuestionView>::empty());
        assert(qs[0] == qs.last());
        assert(spec_ser_questions(qs) =~= spec_ser_questions(qs.drop_last())
            + spec_ser_question(qs.last()));
    } else {
        lemma_ser_questions_snoc(qs.drop_first());
        assert(qs.drop_first().drop_last() =~= qs.drop_last().drop_first());
        assert(qs.drop_first().last() == qs.last());
        assert(qs.drop_last()[0] == qs[0]);
        assert(spec_ser_questions(qs) =~= spec_ser_questions(qs.drop_last())
            + spec_ser_question(qs.last()));
    }
}

/// A non-empty record list serializes as its front part followed by its
/// last record.
proof fn lemma_ser_answers_snoc(ans: Seq<AnswerView>)
    requires
        ans.len() > 0,
    ensures
        spec_ser_answers(ans) == spec_ser_answers(ans.drop_last()) + spec_ser_answer(ans.last()),
    decreases ans.len(),
{
    if ans.len() == 1 {
        assert(ans.drop_last() =~= Seq::<AnswerView>::empty());
        assert(ans.drop_first() =~= Seq::<AnswerView>::empty());
        assert(ans[0] == ans.last());
        assert(spec_ser_answers(ans) =~= spec_ser_answers(ans.drop_last()) + spec_ser_answer(
            ans.last(),
        ));
    } else {
        lemma_ser_answers_snoc(ans.drop_first());
        assert(ans.drop_first().drop_last() =~= ans.drop_last().drop_first());
        assert(ans.drop_first().last() == ans.last());
        assert(ans.drop_last()[0] == ans[0]);
        assert(spec_ser_answers(ans) =~= spec_ser_answers(ans.drop_last()) + spec_ser_answer(
            ans.last(),
        ));
    }
}

impl RData {
    /// Classifies raw RDATA bytes by record type, as the parser does for a
    /// record's payload, with the number of bytes consumed (always all of
    /// them).
    pub fn from_slice(slice: &[u8], atype: Option<u16>) -> (r: (RData, usize))
        ensures
            r.1 == slice@.len(),
            (match atype {
                Some(t) => r.0@ == spec_parse_rdata(slice@, t),
                None => r.0@ == (RDataView::Other { data: slice@ }),
            }),
    {
        let n = slice.len();
        let data = copy_range(slice, 0, n);
        proof {
            assert(slice@.subrange(0, n as int) =~= slice@);
        }
        match atype {
            Some(1) => {
                if n == 4 {
                    (RData::ARecord { ip: data }, n)
                } else {
                    (RData::Other { data }, n)
                }
            },
            Some(28) => {
                if n == 16 {
                    (RData::AAAARecord { ip: data }, n)
                } else {
                    (RData::Other { data }, n)
                }
            },
            _ => (RData::Other { data }, n),
        }
    }

    /// The wire bytes of this payload.
    pub fn bytes(&self) -> (r: Vec<u8>)
        ensures
            r@ == spec_ser_rdata(self@),
    {
        match self {
            RData::ARecord { ip } => clone_bytes(ip),
            RData::AAAARecord { ip } => clone_bytes(ip),
            RData::Other { data } => clone_bytes(data),
        }
    }
}

impl Clone for RData {
    /// A clone carries the same payload.
    fn clone(&self) -> (r: Self)
        ensures
            r@ == self@,
    {
        match self {
            RData::ARecord { ip } => RData::ARecord { ip: clone_bytes(ip) },
            RData::AAAARecord { ip } => RData::AAAARecord { ip: clone_bytes(ip) },
            RData::Other { data } => RData::Other { data: clone_bytes(data) },
        }
    }
}

impl DnsQuestionSection {
    /// The wire bytes of this question.
    pub fn bytes(&self) -> (r: Vec<u8>)
        ensures
            r@ == spec_ser_question(self@),
    {
        let mut out = clone_bytes(&self.qname);
        push_u16_be(&mut out, self.qtype);
        push_u16_be(&mut out, self.qclass);
        assert(out@ =~= spec_ser_question(self@));
        out
    }
}

impl Clone for DnsQuestionSection {
    /// A clone names the same question.
    fn clone(&self) -> (r: Self)
        ensures
            r@ == self@,
    {
        DnsQuestionSection {
            qname: clone_bytes(&self.qname),
            qtype: self.qtype,
            qclass: self.qclass,
        }
    }
}

impl DnsAnswerSection {
    /// The wire bytes of this record.
    pub fn bytes(&self) -> (r: Vec<u8>)
        ensures
            r@ == spec_ser_answer(self@),
    {
        let mut out = clone_bytes(&self.name);
        push_u16_be(&mut out, self.atype);
        push_u16_be(&mut out, self.class);
        push_u32_be(&mut out, self.ttl);
        push_u16_be(&mut out, self.rdlength);
        let mut rd = self.rdata.bytes();
        out.append(&mut rd);
        assert(out@ =~= spec_ser_answer(self@));
        out
    }
}

impl Clone for DnsAnswerSection {
    /// A clone holds the same record.
    fn clone(&self) -> (r: Self)
        ensures
            r@ == self@,
    {
        DnsAnswerSection {
            name: clone_bytes(&self.name),
            atype: self.atype,
            class: self.class,
            ttl: self.ttl,
            rdlength: self.rdlength,
            rdata: self.rdata.clone(),
        }
    }
}

impl DnsHeader {
    /// The 12 wire bytes of this header.
    pub fn bytes(&self) -> (r: Vec<u8>)
        ensures
            r@ == spec_ser_header(*self),
    {
        let mut out: Vec<u8> = Vec::new();
        push_u16_be(&mut out, self.id);
        push_u16_be(&mut out, self.flags);
        push_u16_be(&mut out, self.qdcount);
        push_u16_be(&mut out, self.ancount);
        push_u16_be(&mut out, self.nscount);
        push_u16_be(&mut out, self.arcount);
        assert(out@ =~= spec_ser_header(*self));
        out
    }

    /// Whether the query/response bit of the flags says this message is a
    /// request.
    pub open spec fn spec_isrequest(self) -> bool {
        self.flags < 0x8000
    }

    /// Tests the query/response bit: a message with the top flag bit clear
    /// is a request.
    pub fn isrequest(&self) -> (r: bool)
        ensures
            r == self.spec_isrequest(),
    {
        let masked = self.flags & 0x8000;
        proof {
            let f = self.flags;
            assert((f & 0x8000 == 0) == (f < 0x8000)) by (bit_vector);
        }
        masked == 0
    }
}

/// Appends the wire bytes of every record of `list` to `out`.
fn push_answers_bytes(out: &mut Vec<u8>, list: &Vec<DnsAnswerSection>)
    ensures
        final(out)@ == old(out)@ + spec_ser_answers(list.deep_view()),
{
    let ghost base = out@;
    let ghost dv = list.deep_view();
    let mut i: usize = 0;
    proof {
        assert(dv.take(0) =~= Seq::<AnswerView>::empty());
        assert(base + spec_ser_answers(dv.take(0)) =~= base);
    }
    while i < list.len()
        invariant
            i <= dv.len(),
            dv == list.deep_view(),
            out@ == base + spec_ser_answers(dv.take(i as int)),
        decreases dv.len() - i,
    {
        let mut b = list[i].bytes();
        out.append(&mut b);
        proof {
            let t = dv.take(i as int + 1);
            assert(t.drop_last() =~= dv.take(i as int));
            assert(t.last() == dv[i as int]);
            lemma_ser_answers_snoc(t);
            assert(out@ =~= base + spec_ser_answers(t));
        }
        i = i + 1;
    }
    proof {
        assert(dv.take(dv.len() as int) =~= dv);
    }
}

impl DnsPacket {
    /// The wire bytes of this message: header, questions, then the three
    /// record sections. The header counts are written as they stand in the
    /// header.
    pub fn bytes(&self) -> (r: Vec<u8>)
        ensures
            r@ == spec_ser_packet(self@),
    {
        let mut out = self.header.bytes();
        let ghost base = out@;
        let ghost dv = self.question_section.deep_view();
        let mut i: usize = 0;
        proof {
            assert(dv.take(0) =~= Seq::<QuestionView>::empty());
            assert(base + spec_ser_questions(dv.take(0)) =~= base);
        }
        while i < self.question_section.len()
            invariant
                i <= dv.len(),
                dv == self.question_section.deep_view(),
                out@ == base + spec_ser_questions(dv.take(i as int)),
            decreases dv.len() - i,
        {
            let mut b = self.question_section[i].bytes();
            out.append(&mut b);
            proof {
                let t = dv.take(i as int + 1);
                assert(t.drop_last() =~= dv.take(i as int));
                assert(t.last() == dv[i as int]);
                lemma_ser_questions_snoc(t);
                assert(out@ =~= base + spec_ser_questions(t));
            }
            i = i + 1;
        }
        proof {
            assert(dv.take(dv.len() as int) =~= dv);
        }
        push_answers_bytes(&mut out, &self.answer_section);
        push_answers_bytes(&mut out, &self.authority_section);
        push_answers_bytes(&mut out, &self.additional_section);
        assert(out@ =~= spec_ser_packet(self@));
        out
    }
}

/// Copies a question list.
fn clone_questions(v: &Vec<DnsQuestionSection>) -> (r: Vec<DnsQuestionSection>)
    ensures
        r.deep_view() == v.deep_view(),
{
    let mut out: Vec<DnsQuestionSection> = Vec::new();
    let mut i: usize = 0;
    while i < v.len()
        invariant
            i <= v@.len(),
            out.deep_view() == v.deep_view().take(i as int),
        decreases v@.len() - i,
    {
        let ghost pre = out.deep_view();
        out.push(v[i].clone());
        proof {
            assert(out.deep_view() =~= pre.push(v@[i as int]@));
            assert(out.deep_view() =~= v.deep_view().take(i as int + 1));
        }
        i = i + 1;
    }
    proof {
        assert(v.deep_view().take(v@.len() as int) =~= v.deep_view());
    }
    out
}

/// Copies a record list.
pub(crate) fn clone_answers(v: &Vec<DnsAnswerSection>) -> (r: Vec<DnsAnswerSection>)
    ensures
        r.deep_view() == v.deep_view(),
{
    let mut out: Vec<DnsAnswerSection> = Vec::new();
    let mut i: usize = 0;
    while i < v.len()
        invariant
            i <= v@.len(),
            out.deep_view() == v.deep_view().take(i as int),
        decreases v@.len() - i,
    {
        let ghost pre = out.deep_view();
        out.push(v[i].clone());
        proof {
            assert(out.deep_view() =~= pre.push(v@[i as int]@));
            assert(out.deep_view() =~= v.deep_view().take(i as int + 1));
        }
        i = i + 1;
    }
    proof {
        assert(v.deep_view().take(v@.len() as int) =~= v.deep_view());
    }
    out
}

impl Clone for DnsPacket {
    /// A clone carries the same message.
    fn clone(&self) -> (r: Self)
        ensures
            r@ == self@,
    {
        let r = DnsPacket {
            header: self.header,
            question_section: clone_questions(&self.question_section),
            answer_section: clone_answers(&self.answer_section),
            authority_section: clone_answers(&self.authority_section),
            additional_section: clone_answers(&self.additional_section),
        };
        assert(r@ =~= self@);
        r
    }
}

/// Relies on rand::random for a fresh 16-bit transaction id; nothing is
/// assumed of the value drawn.
#[verifier::external_body]
fn random_id() -> u16 {
    rand::random::<u16>()
}

impl DnsPacket {
    /// A fresh query message with the given transaction id: query flags,
    /// the supplied questions, and empty record sections.
    pub fn new_with_questions_and_id(id: u16, questions: Vec<DnsQuestionSection>) -> (r: DnsPacket)
        requires
            questions@.len() <= 0xFFFF,
        ensures
            r.header == (DnsHeader {
                id: id,
                flags: 0,
                qdcount: questions@.len() as u16,
                ancount: 0,
                nscount: 0,
                arcount: 0,
            }),
            r.question_section == questions,
            r.answer_section@.len() == 0,
            r.authority_section@.len() == 0,
            r.additional_section@.len() == 0,
    {
        let qdcount = questions.len() as u16;
        DnsPacket {
            header: DnsHeader { id, flags: 0, qdcount, ancount: 0, nscount: 0, arcount: 0 },
            question_section: questions,
            answer_section: Vec::new(),
            authority_section: Vec::new(),
            additional_section: Vec::new(),
        }
    }

    /// A fresh query message with a randomly drawn transaction id.
    pub fn new_with_questions(questions: Vec<DnsQuestionSection>) -> (r: DnsPacket)
        requires
            questions@.len() <= 0xFFFF,
        ensures
            r.header.flags == 0,
            r.header.qdcount == questions@.len() as u16,
            r.header.ancount == 0,
            r.header.nscount == 0,
            r.header.arcount == 0,
            r.question_section == questions,
            r.answer_section@.len() == 0,
            r.authority_section@.len() == 0,
            r.additional_section@.len() == 0,
    {
        let id = random_id();
        DnsPacket::new_with_questions_and_id(id, questions)
    }

    /// Appends records to the answer section and raises the answer count
    /// accordingly; everything else stays as it was.
    pub fn add_to_answer_section(&mut self, answers: &[DnsAnswerSection])
        requires
            old(self).header.ancount + answers@.len() <= 0xFFFF,
        ensures
            final(self).header == (DnsHeader {
                ancount: (old(self).header.ancount + answers@.len()) as u16,
                ..old(self).header
            }),
            final(self).answer_section.deep_view() == old(self).answer_section.deep_view()
                + answers.deep_view(),
            final(self).question_section == old(self).question_section,
            final(self).authority_section == old(self).authority_section,
            final(self).additional_section == old(self).additional_section,
    {
        let n = answers.len();
        let mut i: usize = 0;
        while i < n
            invariant
                i <= n,
                n == answers@.len(),
                self.answer_section.deep_view() == old(self).answer_section.deep_view()
                    + answers.deep_view().take(i as int),
                self.header == old(self).header,
                self.question_section == old(self).question_section,
                self.authority_section == old(self).authority_section,
                self.additional_section == old(self).additional_section,
            decreases n - i,
        {
            let ghost pre = self.answer_section.deep_view();
            self.answer_section.push(answers[i].clone());
            proof {
                assert(self.answer_section.deep_view() =~= pre.push(answers@[i as int]@));
                assert(self.answer_section.deep_view() =~= old(self).answer_section.deep_view()
                    + answers.deep_view().take(i as int + 1));
            }
            i = i + 1;
        }
        proof {
            assert(answers.deep_view().take(n as int) =~= answers.deep_view());
        }
        self.header.ancount = self.header.ancount + n as u16;
    }
}

} // verus!
