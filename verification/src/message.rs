//! A whole message: the header, the questions, and the answer, authority and
//! additional records, in one run of bytes.

use vstd::prelude::*;
use crate::error::DecodeError;
use crate::header::{DnsHeader, HEADER_LEN};
use crate::question::{
    decode_questions, encodable_questions, encode_questions, lemma_questions_round_trip,
    lemma_valid_questions_encodable, parse_questions, questions_encodable, questions_of,
    questions_well_formed, valid_questions, write_questions, DnsQuestion, QuestionModel,
};
use crate::record::{
    decode_records, encodable_records, encode_records, lemma_records_round_trip,
    lemma_valid_records_encodable, parse_records, records_encodable, records_of,
    records_well_formed, valid_records, write_records, DnsResourceRecord, RecordModel,
};
use crate::wire::{holds_at, lemma_holds_at_split};

verus! {

/// The most entries that a section count of sixteen bits can announce.
pub const MAX_SECTION_LEN: usize = 65535;

/// A message.
#[derive(Clone, Debug, PartialEq, Eq)]
pub struct DnsMessage {
    pub header: DnsHeader,
    pub questions: Vec<DnsQuestion>,
    /// The records of the answer section.
    pub answers: Vec<DnsResourceRecord>,
    /// The records of the authority section.
    pub authorities: Vec<DnsResourceRecord>,
    /// The records of the additional section.
    pub additionals: Vec<DnsResourceRecord>,
}

/// What a message holds.
pub struct MessageModel {
    pub header: DnsHeader,
    pub questions: Seq<QuestionModel>,
    pub answers: Seq<RecordModel>,
    pub authorities: Seq<RecordModel>,
    pub additionals: Seq<RecordModel>,
}

impl MessageModel {
    /// Every question and record can be written, and no section has more
    /// entries than its count can announce: the message can be written.
    pub open spec fn encodable(self) -> bool {
        &&& encodable_questions(self.questions)
        &&& encodable_records(self.answers)
        &&& encodable_records(self.authorities)
        &&& encodable_records(self.additionals)
        &&& self.questions.len() <= MAX_SECTION_LEN
        &&& self.answers.len() <= MAX_SECTION_LEN
        &&& self.authorities.len() <= MAX_SECTION_LEN
        &&& self.additionals.len() <= MAX_SECTION_LEN
    }

    /// The four counts of the header are the lengths of the four sections.
    pub open spec fn counts_agree(self) -> bool {
        &&& self.header.question_count == self.questions.len()
        &&& self.header.answer_count == self.answers.len()
        &&& self.header.nscount == self.authorities.len()
        &&& self.header.arcount == self.additionals.len()
    }

    /// Every question and record is valid.
    pub open spec fn parts_valid(self) -> bool {
        &&& valid_questions(self.questions)
        &&& valid_records(self.answers)
        &&& valid_records(self.authorities)
        &&& valid_records(self.additionals)
    }

    /// The message can be written, its questions and records are valid, the
    /// flags of its header fit in their bits, and the counts of the header
    /// agree with the sections.
    pub open spec fn valid(self) -> bool {
        self.encodable() && self.parts_valid() && self.header.wf() && self.counts_agree()
    }

    /// The header that is written: that of the message, with the four counts
    /// taken from the sections.
    pub open spec fn counted_header(self) -> DnsHeader {
        DnsHeader {
            id: self.header.id,
            flags: self.header.flags,
            flags2: self.header.flags2,
            question_count: self.questions.len() as u16,
            answer_count: self.answers.len() as u16,
            nscount: self.authorities.len() as u16,
            arcount: self.additionals.len() as u16,
        }
    }
}

/// The bytes of a message: the header with its counts taken from the
/// sections, the questions, then the answer, authority and additional
/// records.
pub open spec fn encode_message(m: MessageModel) -> Seq<u8> {
    m.counted_header().spec_encode() + encode_questions(m.questions) + encode_records(m.answers)
        + encode_records(m.authorities) + encode_records(m.additionals)
}

/// The message that `buf` holds. Every section is read in the length that
/// the header announces, each behind the one before, and names may point
/// anywhere before themselves in `buf`. What follows the last record is not
/// read.
pub open spec fn parse_message(buf: Seq<u8>) -> Result<MessageModel, DecodeError> {
    if buf.len() < HEADER_LEN {
        Err(DecodeError::TruncatedHeader)
    } else {
        let header = DnsHeader::spec_decode(buf);
        match parse_questions(buf, HEADER_LEN as int, header.question_count as nat) {
            Err(e) => Err(e),
            Ok((questions, p1)) => match parse_records(buf, p1, header.answer_count as nat) {
                Err(e) => Err(e),
                Ok((answers, p2)) => match parse_records(buf, p2, header.nscount as nat) {
                    Err(e) => Err(e),
                    Ok((authorities, p3)) => match parse_records(
                        buf,
                        p3,
                        header.arcount as nat,
                    ) {
                        Err(e) => Err(e),
                        Ok((additionals, _)) => Ok(
                            MessageModel { header, questions, answers, authorities, additionals },
                        ),
                    },
                },
            },
        }
    }
}

/// A valid message is read back from its bytes as it was written, whatever
/// follows them in the buffer.
pub proof fn lemma_message_round_trip_in(buf: Seq<u8>, m: MessageModel)
    requires
        m.valid(),
        holds_at(buf, 0, encode_message(m)),
    ensures
        parse_message(buf) == Ok::<MessageModel, DecodeError>(m),
{
    let h = m.counted_header().spec_encode();
    let q = encode_questions(m.questions);
    let a = encode_records(m.answers);
    let n = encode_records(m.authorities);
    let x = encode_records(m.additionals);
    assert(m.counted_header() == m.header);
    assert(h.len() == 12);
    lemma_holds_at_split(buf, 0, h + q + a + n, x);
    lemma_holds_at_split(buf, 0, h + q + a, n);
    lemma_holds_at_split(buf, 0, h + q, a);
    lemma_holds_at_split(buf, 0, h, q);
    m.header.lemma_round_trip(buf);
    lemma_questions_round_trip(buf, 12, m.questions);
    lemma_records_round_trip(buf, 12int + q.len(), m.answers);
    lemma_records_round_trip(buf, 12int + q.len() + a.len(), m.authorities);
    lemma_records_round_trip(buf, 12int + q.len() + a.len() + n.len(), m.additionals);
}

/// Decoding what was encoded gives back the message: for every valid
/// message `m`, the bytes of `m` are read as `m`.
pub proof fn lemma_message_round_trip(m: MessageModel)
    requires
        m.valid(),
    ensures
        parse_message(encode_message(m)) == Ok::<MessageModel, DecodeError>(m),
{
    let bytes = encode_message(m);
    assert(bytes.subrange(0, bytes.len() as int) =~= bytes);
    lemma_message_round_trip_in(bytes, m);
}

/// A buffer of fewer than twelve bytes holds no message: reading it fails
/// for want of a header.
pub proof fn lemma_short_buffer_rejected(buf: Seq<u8>)
    requires
        buf.len() < 12,
    ensures
        parse_message(buf) == Err::<MessageModel, DecodeError>(DecodeError::TruncatedHeader),
{
}

impl View for DnsMessage {
    type V = MessageModel;

    open spec fn view(&self) -> MessageModel {
        MessageModel {
            header: self.header,
            questions: questions_of(self.questions@),
            answers: records_of(self.answers@),
            authorities: records_of(self.authorities@),
            additionals: records_of(self.additionals@),
        }
    }
}

impl DnsMessage {
    /// The message can be written: see `MessageModel::encodable`.
    pub open spec fn encodable(&self) -> bool {
        self@.encodable()
    }

    /// The message is valid: see `MessageModel::valid`.
    pub open spec fn wf(&self) -> bool {
        self@.valid()
    }

    /// A query without questions or records, with the header of
    /// `DnsHeader::new`.
    pub fn new() -> (m: DnsMessage)
        ensures
            m.header == DnsHeader::spec_new(),
            m.questions@.len() == 0,
            m.answers@.len() == 0,
            m.authorities@.len() == 0,
            m.additionals@.len() == 0,
            m.wf(),
    {
        DnsMessage {
            header: DnsHeader::new(),
            questions: Vec::new(),
            answers: Vec::new(),
            authorities: Vec::new(),
            additionals: Vec::new(),
        }
    }

    /// Whether the message can be written.
    pub fn is_encodable(&self) -> (b: bool)
        ensures
            b == self.encodable(),
    {
        questions_encodable(&self.questions) && records_encodable(&self.answers)
            && records_encodable(&self.authorities) && records_encodable(&self.additionals)
            && self.questions.len() <= MAX_SECTION_LEN && self.answers.len() <= MAX_SECTION_LEN
            && self.authorities.len() <= MAX_SECTION_LEN && self.additionals.len()
            <= MAX_SECTION_LEN
    }

    /// Whether the message is valid.
    pub fn is_well_formed(&self) -> (b: bool)
        ensures
            b == self.wf(),
    {
        self.is_encodable() && questions_well_formed(&self.questions) && records_well_formed(
            &self.answers,
        ) && records_well_formed(&self.authorities) && records_well_formed(&self.additionals)
            && self.header.flags.opcode < 16 && self.header.flags2.response < 16
            && self.header.question_count as usize == self.questions.len()
            && self.header.answer_count as usize == self.answers.len() && self.header.nscount as usize
            == self.authorities.len() && self.header.arcount as usize == self.additionals.len()
    }

    /// Reads a message from `bytes`.
    ///
    /// Succeeds exactly when `bytes` holds a header and behind it as many
    /// questions and records as the header announces; what it returns is
    /// then valid. Otherwise the error is that of the first part that could
    /// not be read.
    pub fn decode(bytes: &[u8]) -> (r: Result<DnsMessage, DecodeError>)
        ensures
            match parse_message(bytes@) {
                Ok(m) => r is Ok && r->Ok_0@ == m && r->Ok_0.wf(),
                Err(e) => r is Err && r->Err_0 == e,
            },
            bytes@.len() < 12 ==> r is Err && r->Err_0 == DecodeError::TruncatedHeader,
    {
        let header = match DnsHeader::decode(bytes) {
            Ok(h) => h,
            Err(e) => {
                return Err(e);
            },
        };
        let (questions, p1) = match decode_questions(bytes, HEADER_LEN, header.question_count) {
            Ok(v) => v,
            Err(e) => {
                return Err(e);
            },
        };
        let (answers, p2) = match decode_records(bytes, p1, header.answer_count) {
            Ok(v) => v,
            Err(e) => {
                return Err(e);
            },
        };
        let (authorities, p3) = match decode_records(bytes, p2, header.nscount) {
            Ok(v) => v,
            Err(e) => {
                return Err(e);
            },
        };
        let (additionals, _) = match decode_records(bytes, p3, header.arcount) {
            Ok(v) => v,
            Err(e) => {
                return Err(e);
            },
        };
        proof {
            lemma_valid_questions_encodable(questions_of(questions@));
            lemma_valid_records_encodable(records_of(answers@));
            lemma_valid_records_encodable(records_of(authorities@));
            lemma_valid_records_encodable(records_of(additionals@));
        }
        Ok(DnsMessage { header, questions, answers, authorities, additionals })
    }

    /// The bytes of the message. The counts that are written are the
    /// lengths of the sections, whatever the header of the message holds.
    pub fn encode(&self) -> (bytes: Vec<u8>)
        requires
            self.encodable(),
        ensures
            bytes@ == encode_message(self@),
    {
        let header = DnsHeader {
            id: self.header.id,
            flags: self.header.flags,
            flags2: self.header.flags2,
            question_count: self.questions.len() as u16,
            answer_count: self.answers.len() as u16,
            nscount: self.authorities.len() as u16,
            arcount: self.additionals.len() as u16,
        };
        let mut out: Vec<u8> = Vec::new();
        header.write_to(&mut out);
        write_questions(&self.questions, &mut out);
        write_records(&self.answers, &mut out);
        write_records(&self.authorities, &mut out);
        write_records(&self.additionals, &mut out);
        proof {
            assert(out@ =~= encode_message(self@));
        }
        out
    }
}

impl Default for DnsMessage {
    fn default() -> (m: DnsMessage)
        ensures
            m.header == DnsHeader::spec_new(),
            m.questions@.len() == 0,
            m.answers@.len() == 0,
            m.authorities@.len() == 0,
            m.additionals@.len() == 0,
            m.wf(),
    {
        DnsMessage::new()
    }
}

} // verus!
