use ovenrack::cache::{
    build_dns_response, CacheExpiry, DnsCache, PREFETCH_SLEEP_TIME, TTL_GRACE_PERIOD,
};
use ovenrack::dns::{DnsAnswerSection, DnsHeader, DnsPacket, DnsQuestionSection, RData};

fn example_question() -> DnsQuestionSection {
    DnsQuestionSection {
        qname: vec![0x07, b'e', b'x', b'a', b'm', b'p', b'l', b'e', 0x03, b'c', b'o', b'm', 0x00],
        qtype: 1, // A
        qclass: 1,
    }
}

fn other_question() -> DnsQuestionSection {
    DnsQuestionSection {
        qname: vec![0x05, b'o', b't', b'h', b'e', b'r', 0x03, b'n', b'e', b't', 0x00],
        qtype: 1,
        qclass: 1,
    }
}

fn a_answer(ttl: u32, ip: [u8; 4]) -> DnsAnswerSection {
    DnsAnswerSection {
        name: vec![0xc0, 0x0c],
        atype: 1,
        class: 1,
        ttl,
        rdlength: 4,
        rdata: RData::ARecord { ip: ip.to_vec() },
    }
}

fn response_for(question: DnsQuestionSection, answers: Vec<DnsAnswerSection>) -> DnsPacket {
    let ancount = answers.len() as u16;
    DnsPacket {
        header: DnsHeader {
            id: 0x1234,
            flags: 0x8180,
            qdcount: 1,
            ancount,
            nscount: 0,
            arcount: 0,
        },
        question_section: vec![question],
        answer_section: answers,
        authority_section: vec![],
        additional_section: vec![],
    }
}

fn request_for(questions: Vec<DnsQuestionSection>) -> DnsPacket {
    let qdcount = questions.len() as u16;
    DnsPacket {
        header: DnsHeader {
            id: 0x1234,
            flags: 0x0100,
            qdcount,
            ancount: 0,
            nscount: 0,
            arcount: 0,
        },
        question_section: questions,
        answer_section: vec![],
        authority_section: vec![],
        additional_section: vec![],
    }
}

#[test]
fn expiry_time_formula() {
    let e = CacheExpiry { insert_time: 100, ttl: 30 };
    assert_eq!(e.expiry_time(), 100 + 30 - TTL_GRACE_PERIOD);
    assert!(!e.is_expired(115));
    assert!(e.is_expired(116));
}

#[test]
fn expiry_clamps_small_ttl() {
    // A TTL below the grace period counts as already run out: the expiry
    // clamps to the insertion instant instead of lying before it.
    let e = CacheExpiry { insert_time: 100, ttl: 10 };
    assert_eq!(e.expiry_time(), 100);
    assert!(!e.is_expired(100));
    assert!(e.is_expired(101));
}

#[test]
fn cached_answer_served_within_window_and_not_after() {
    // TTL 30 with grace 15: served through second 115, a miss from 116 on.
    let mut cache = DnsCache::new();
    cache.update(response_for(example_question(), vec![a_answer(30, [1, 2, 3, 4])]), 100);

    let request = request_for(vec![example_question()]);
    let hit = cache.query(&request, 110);
    assert!(hit.is_some());
    assert_eq!(hit.unwrap().len(), 1);

    assert!(cache.query(&request, 115).is_some());
    assert!(cache.query(&request, 116).is_none());
}

#[test]
fn refresh_after_expiry_serves_again() {
    // After the window closes, a fresh upstream response re-arms the entry.
    let mut cache = DnsCache::new();
    cache.update(response_for(example_question(), vec![a_answer(30, [1, 2, 3, 4])]), 100);

    let request = request_for(vec![example_question()]);
    assert!(cache.query(&request, 116).is_none());

    cache.update(response_for(example_question(), vec![a_answer(30, [5, 6, 7, 8])]), 116);
    let refreshed = cache.query(&request, 120).unwrap();
    assert_eq!(refreshed.len(), 1);
    match &refreshed[0].rdata {
        RData::ARecord { ip } => assert_eq!(ip.as_slice(), &[5, 6, 7, 8]),
        _ => panic!("expected an A record"),
    }
}

#[test]
fn multi_question_hit_needs_every_question() {
    let mut cache = DnsCache::new();
    cache.update(response_for(example_question(), vec![a_answer(60, [1, 1, 1, 1])]), 100);

    // Only one of the two questions is cached: the whole request misses.
    let both = request_for(vec![example_question(), other_question()]);
    assert!(cache.query(&both, 101).is_none());

    // Once both are cached, the answers come back united, in question order.
    cache.update(response_for(other_question(), vec![a_answer(60, [2, 2, 2, 2])]), 100);
    let answers = cache.query(&both, 101).unwrap();
    assert_eq!(answers.len(), 2);
    match (&answers[0].rdata, &answers[1].rdata) {
        (RData::ARecord { ip: first }, RData::ARecord { ip: second }) => {
            assert_eq!(first.as_slice(), &[1, 1, 1, 1]);
            assert_eq!(second.as_slice(), &[2, 2, 2, 2]);
        },
        _ => panic!("expected two A records"),
    }
}

#[test]
fn one_expired_question_is_a_whole_miss() {
    let mut cache = DnsCache::new();
    // TTL 20 expires at 105; TTL 100 expires at 185.
    cache.update(response_for(example_question(), vec![a_answer(20, [1, 1, 1, 1])]), 100);
    cache.update(response_for(other_question(), vec![a_answer(100, [2, 2, 2, 2])]), 100);

    let both = request_for(vec![example_question(), other_question()]);
    assert!(cache.query(&both, 104).is_some());
    assert!(cache.query(&both, 106).is_none());
}

#[test]
fn empty_response_is_not_cached() {
    let mut cache = DnsCache::new();
    cache.update(response_for(example_question(), vec![]), 100);
    let request = request_for(vec![example_question()]);
    assert!(cache.query(&request, 100).is_none());
    // Nothing was indexed either.
    assert_eq!(cache.pop_next_expired(100).unwrap_err(), 100 + PREFETCH_SLEEP_TIME);
}

#[test]
fn pop_next_expired_on_empty_index_returns_idle_wake() {
    let mut cache = DnsCache::new();
    assert_eq!(cache.pop_next_expired(500).unwrap_err(), 500 + PREFETCH_SLEEP_TIME);
}

#[test]
fn pop_next_expired_returns_earliest_due_key() {
    let mut cache = DnsCache::new();
    // example expires at 100 + 20 - 15 = 105; other at 100 + 60 - 15 = 145.
    cache.update(response_for(example_question(), vec![a_answer(20, [1, 1, 1, 1])]), 100);
    cache.update(response_for(other_question(), vec![a_answer(60, [2, 2, 2, 2])]), 100);

    // Nothing due yet: the wake instant is the earliest expiry.
    assert_eq!(cache.pop_next_expired(101).unwrap_err(), 105);

    // Past the earliest expiry: that key pops, and only that one.
    let due = cache.pop_next_expired(106).unwrap();
    assert_eq!(due.qname, example_question().qname);
    assert_eq!(cache.pop_next_expired(106).unwrap_err(), 145);
}

#[test]
fn build_dns_response_appends_answers() {
    let request = request_for(vec![example_question()]);
    let answers = vec![a_answer(30, [9, 9, 9, 9]), a_answer(40, [8, 8, 8, 8])];
    let response = build_dns_response(&request, answers);
    assert_eq!(response.header.ancount, 2);
    assert_eq!(response.header.id, request.header.id);
    assert_eq!(response.header.qdcount, 1);
    assert_eq!(response.answer_section.len(), 2);
    assert_eq!(response.question_section.len(), 1);
}
