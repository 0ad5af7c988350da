use dns_starter_rust::header::{DnsHeader, QueryResponseIndicator, RecursionDesired};
use dns_starter_rust::label::DnsLabel;
use dns_starter_rust::message::DnsMessage;
use dns_starter_rust::question::{DnsQuestion, QuestionClass, QuestionType};
use dns_starter_rust::record::{DnsResourceRecord, DnsResourceRecordData};
use dns_starter_rust::reply::{fixed_answers, forward_query, reply_code, reply_to, single_answer};

fn ask(parts: &[&str]) -> DnsQuestion {
    DnsQuestion {
        label: DnsLabel::new(parts.iter().map(|p| p.as_bytes().to_vec()).collect()),
        kind: QuestionType::A,
        class: QuestionClass::Internet,
    }
}

fn query_of(parts: &[&[&str]], opcode: u8) -> DnsMessage {
    let mut m = DnsMessage::new();
    m.header.id = 0xBEEF;
    m.header.flags.set_opcode(opcode);
    m.header.flags.set_recursion_desired(RecursionDesired::Recursive);
    for p in parts {
        m.questions.push(ask(p));
    }
    m.header.question_count = parts.len() as u16;
    m
}

#[test]
fn reply_code_is_no_error_for_standard_queries_only() {
    assert_eq!(reply_code(0), 0);
    assert_eq!(reply_code(1), 4);
    assert_eq!(reply_code(15), 4);
    assert_eq!(reply_code(255), 4);
}

#[test]
fn fixed_answers_give_each_name_the_same_address() {
    let questions = vec![ask(&["a", "example"]), ask(&["b"])];
    let answers = fixed_answers(&questions);
    assert_eq!(answers.len(), 2);
    for (q, a) in questions.iter().zip(answers.iter()) {
        assert_eq!(a.name, q.label);
        assert_eq!(a.kind, QuestionType::A);
        assert_eq!(a.class, QuestionClass::Internet);
        assert_eq!(a.ttl, 60);
        assert_eq!(a.data, DnsResourceRecordData::A { ip: [8, 8, 8, 8] });
        assert!(a.is_well_formed());
    }
    assert!(fixed_answers(&Vec::new()).is_empty());
}

#[test]
fn reply_echoes_identifier_flags_and_questions() {
    let query = query_of(&[&["example", "org"]], 0);
    let answers = fixed_answers(&query.questions);
    let reply = reply_to(query.clone(), answers.clone());
    assert_eq!(reply.header.id, 0xBEEF);
    assert_eq!(reply.header.flags.qr(), QueryResponseIndicator::Response);
    assert_eq!(reply.header.flags.opcode(), 0);
    assert_eq!(reply.header.flags.recursion_desired(), RecursionDesired::Recursive);
    assert_eq!(reply.header.flags2.response(), 0);
    assert_eq!(reply.header.question_count, 1);
    assert_eq!(reply.header.answer_count, 1);
    assert_eq!(reply.header.nscount, 0);
    assert_eq!(reply.header.arcount, 0);
    assert_eq!(reply.questions, query.questions);
    assert_eq!(reply.answers, answers);
    assert!(reply.authorities.is_empty());
    assert!(reply.additionals.is_empty());
    assert!(reply.is_well_formed());
    assert_eq!(DnsMessage::decode(&reply.encode()), Ok(reply));
}

#[test]
fn reply_to_another_kind_of_query_says_not_implemented() {
    let query = query_of(&[&["x"]], 2);
    let reply = reply_to(query, Vec::new());
    assert_eq!(reply.header.flags.opcode(), 2);
    assert_eq!(reply.header.flags2.response(), 4);
    assert_eq!(reply.header.answer_count, 0);
    let bytes = reply.encode();
    assert_eq!(bytes[2], 0b1001_0001);
    assert_eq!(bytes[3], 0b0000_0100);
}

#[test]
fn reply_drops_the_records_of_the_query() {
    let mut query = query_of(&[&["x"]], 0);
    query.additionals.push(DnsResourceRecord {
        name: DnsLabel::new(Vec::new()),
        kind: QuestionType::Unknown(41),
        class: QuestionClass::Unknown(512),
        ttl: 0,
        data: DnsResourceRecordData::Raw { bytes: Vec::new() },
    });
    query.header.arcount = 1;
    let reply = reply_to(query, Vec::new());
    assert!(reply.additionals.is_empty());
    assert_eq!(reply.header.arcount, 0);
}

#[test]
fn forwarded_query_holds_the_one_question() {
    let query = forward_query(ask(&["example", "com"]));
    let mut header = DnsHeader::new();
    header.question_count = 1;
    assert_eq!(query.header, header);
    assert_eq!(query.questions, vec![ask(&["example", "com"])]);
    assert!(query.answers.is_empty());
    assert!(query.is_well_formed());
    assert_eq!(
        query.encode(),
        vec![
            0, 0, 0, 0, 0, 1, 0, 0, 0, 0, 0, 0, 7, b'e', b'x', b'a', b'm', b'p', b'l', b'e', 3,
            b'c', b'o', b'm', 0, 0, 1, 0, 1,
        ]
    );
}

#[test]
fn single_answer_wants_exactly_one() {
    let query = query_of(&[&["a"]], 0);
    let answers = fixed_answers(&query.questions);
    let reply = reply_to(query, answers.clone());
    assert_eq!(single_answer(reply), Some(answers[0].clone()));

    let none = reply_to(query_of(&[&["a"]], 0), Vec::new());
    assert_eq!(single_answer(none), None);

    let two_questions = query_of(&[&["a"], &["b"]], 0);
    let two = fixed_answers(&two_questions.questions);
    assert_eq!(single_answer(reply_to(two_questions, two)), None);

    let mut lying = DnsMessage::new();
    lying.header.answer_count = 1;
    assert_eq!(single_answer(lying), None);
}
