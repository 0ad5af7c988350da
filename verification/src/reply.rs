//! What a server makes of a query: the reply that echoes its questions, the
//! answers of a server that knows one address only, and the query and the
//! answer of a server that asks another one.

use vstd::prelude::*;
use crate::header::{DnsHeader, DnsHeaderFlags, DnsHeaderFlags2, QueryResponseIndicator};
use crate::label::DnsLabel;
use crate::message::{DnsMessage, MessageModel, MAX_SECTION_LEN};
use crate::question::{
    encodable_question, encodable_questions, questions_of, DnsQuestion, QuestionClass,
    QuestionModel, QuestionType,
};
use crate::record::{
    encodable_records, lemma_valid_records_encodable, records_of, valid_record, valid_records,
    DnsResourceRecord, DnsResourceRecordData, RecordDataModel, RecordModel,
};

verus! {

/// Response code of a reply to a standard query: no error.
pub const RCODE_NO_ERROR: u8 = 0;

/// Response code of a reply to any other kind of query: not implemented.
pub const RCODE_NOT_IMPLEMENTED: u8 = 4;

/// Seconds for which the fixed answer may be kept.
pub const FIXED_TTL: u32 = 60;

/// The response code for a query of kind `opcode`.
pub open spec fn spec_reply_code(opcode: u8) -> u8 {
    if opcode == 0 {
        RCODE_NO_ERROR
    } else {
        RCODE_NOT_IMPLEMENTED
    }
}

/// The header of the reply to a query with header `query`, for a reply of
/// `questions` questions and `answers` answers: identifier and flags of the
/// query, marked as a response, with the response code that the kind of
/// query calls for, and no authority or additional records.
pub open spec fn spec_reply_header(query: DnsHeader, questions: nat, answers: nat) -> DnsHeader {
    DnsHeader {
        id: query.id,
        flags: DnsHeaderFlags { qr: QueryResponseIndicator::Response, ..query.flags },
        flags2: DnsHeaderFlags2 { response: spec_reply_code(query.flags.opcode), ..query.flags2 },
        question_count: questions as u16,
        answer_count: answers as u16,
        nscount: 0,
        arcount: 0,
    }
}

/// The reply to `query` that gives `answers`: the header of
/// `spec_reply_header`, the questions of the query, the answers, and
/// nothing else.
pub open spec fn spec_reply(query: MessageModel, answers: Seq<RecordModel>) -> MessageModel {
    MessageModel {
        header: spec_reply_header(query.header, query.questions.len(), answers.len()),
        questions: query.questions,
        answers,
        authorities: Seq::empty(),
        additionals: Seq::empty(),
    }
}

/// The record that says that `name` has the address 8.8.8.8.
pub open spec fn fixed_answer(name: Seq<Seq<u8>>) -> RecordModel {
    RecordModel {
        name,
        kind: QuestionType::A,
        class: QuestionClass::Internet,
        ttl: FIXED_TTL,
        data: RecordDataModel::A { ip: seq![8u8, 8u8, 8u8, 8u8] },
    }
}

/// The fixed answers to `questions`, one for each, in their order.
pub open spec fn spec_fixed_answers(questions: Seq<QuestionModel>) -> Seq<RecordModel> {
    Seq::new(questions.len(), |i: int| fixed_answer(questions[i].name))
}

/// The query that asks `question` and nothing else: identifier 0, no flag
/// set.
pub open spec fn spec_forward_query(question: QuestionModel) -> MessageModel {
    MessageModel {
        header: spec_single_query_header(),
        questions: seq![question],
        answers: Seq::empty(),
        authorities: Seq::empty(),
        additionals: Seq::empty(),
    }
}

/// The header of a query of one question, with identifier 0 and no flag set.
pub open spec fn spec_single_query_header() -> DnsHeader {
    DnsHeader { question_count: 1, ..DnsHeader::spec_new() }
}

/// The response code for a query of kind `opcode`: no error for a standard
/// query, not implemented for any other.
pub fn reply_code(opcode: u8) -> (code: u8)
    ensures
        code == spec_reply_code(opcode),
        code < 16,
{
    if opcode == 0 {
        RCODE_NO_ERROR
    } else {
        RCODE_NOT_IMPLEMENTED
    }
}

/// The reply to `query` that gives `answers`.
///
/// Where the query and the answers can be written and the answers are no
/// more than a count can announce, the reply can be written. Where the
/// query and the answers are valid as well, so is the reply.
pub fn reply_to(query: DnsMessage, answers: Vec<DnsResourceRecord>) -> (reply: DnsMessage)
    ensures
        reply@ == spec_reply(query@, records_of(answers@)),
        query.encodable() && encodable_records(records_of(answers@)) && answers@.len()
            <= MAX_SECTION_LEN ==> reply.encodable(),
        query.wf() && valid_records(records_of(answers@)) && answers@.len() <= MAX_SECTION_LEN
            ==> reply.wf(),
{
    let mut flags = query.header.flags;
    flags.set_qr(QueryResponseIndicator::Response);
    let mut flags2 = query.header.flags2;
    flags2.set_response(reply_code(query.header.flags.opcode()));
    let header = DnsHeader {
        id: query.header.id,
        flags,
        flags2,
        question_count: query.questions.len() as u16,
        answer_count: answers.len() as u16,
        nscount: 0,
        arcount: 0,
    };
    let reply = DnsMessage {
        header,
        questions: query.questions,
        answers,
        authorities: Vec::new(),
        additionals: Vec::new(),
    };
    proof {
        assert(reply@.authorities =~= Seq::empty());
        assert(reply@.additionals =~= Seq::empty());
        if valid_records(records_of(answers@)) {
            lemma_valid_records_encodable(records_of(answers@));
        }
    }
    reply
}

/// The answers of a server that knows one address only: for each of
/// `questions`, in their order, a record that gives its name the address
/// 8.8.8.8 for sixty seconds.
pub fn fixed_answers(questions: &Vec<DnsQuestion>) -> (answers: Vec<DnsResourceRecord>)
    ensures
        records_of(answers@) == spec_fixed_answers(questions_of(questions@)),
        encodable_questions(questions_of(questions@)) ==> valid_records(records_of(answers@)),
{
    let mut answers: Vec<DnsResourceRecord> = Vec::new();
    let mut i: usize = 0;
    while i < questions.len()
        invariant
            i <= questions@.len(),
            answers@.len() == i,
            forall|j: int|
                0 <= j < i ==> (#[trigger] answers@[j])@ == fixed_answer(questions@[j].label@),
        decreases questions@.len() - i,
    {
        let ip: [u8; 4] = [8, 8, 8, 8];
        proof {
            assert(ip@ =~= seq![8u8, 8u8, 8u8, 8u8]);
        }
        answers.push(
            DnsResourceRecord {
                name: questions[i].label.duplicate(),
                kind: QuestionType::A,
                class: QuestionClass::Internet,
                ttl: FIXED_TTL,
                data: DnsResourceRecordData::A { ip },
            },
        );
        i = i + 1;
    }
    proof {
        assert(records_of(answers@) =~= spec_fixed_answers(questions_of(questions@)));
        if encodable_questions(questions_of(questions@)) {
            assert forall|j: int| 0 <= j < answers@.len() implies valid_record(
                #[trigger] records_of(answers@)[j],
            ) by {
                assert(encodable_question(questions_of(questions@)[j]));
            }
        }
    }
    answers
}

/// The query by which a server asks another one `question`: one question,
/// identifier 0, no flag set.
pub fn forward_query(question: DnsQuestion) -> (query: DnsMessage)
    ensures
        query@ == spec_forward_query(question@),
        question.encodable() ==> query.encodable(),
        question.wf() ==> query.wf(),
{
    let mut header = DnsHeader::new();
    header.question_count = 1;
    let mut questions: Vec<DnsQuestion> = Vec::new();
    questions.push(question);
    let query = DnsMessage {
        header,
        questions,
        answers: Vec::new(),
        authorities: Vec::new(),
        additionals: Vec::new(),
    };
    proof {
        assert(query@.questions =~= seq![question@]);
        assert(query@.answers =~= Seq::empty());
        assert(query@.authorities =~= Seq::empty());
        assert(query@.additionals =~= Seq::empty());
    }
    query
}

/// The one answer of `reply`: its first answer where its header announces
/// exactly one and it holds one, and nothing otherwise.
pub fn single_answer(reply: DnsMessage) -> (answer: Option<DnsResourceRecord>)
    ensures
        reply.header.answer_count == 1 && reply.answers@.len() >= 1 ==> answer == Some(
            reply.answers@[0],
        ),
        !(reply.header.answer_count == 1 && reply.answers@.len() >= 1) ==> answer is None,
{
    if reply.header.answer_count != 1 || reply.answers.len() == 0 {
        return None;
    }
    let mut answers = reply.answers;
    Some(answers.remove(0))
}

} // verus!
