//! Questions: a name, a record type and a class.

use vstd::prelude::*;
use crate::error::DecodeError;
use crate::label::{encode_name, lemma_name_round_trip, parse_name, valid_name, DnsLabel};
use crate::wire::{
    holds_at, lemma_holds_at_split, lemma_u16_round_trip, push_u16, read_u16, u16_at, u16_bytes,
};

verus! {

/// The type of record that a question asks for or that a record holds.
#[derive(Clone, Copy, Debug, PartialEq, Eq, Structural)]
pub enum QuestionType {
    /// A host address, code 1.
    A,
    /// An authoritative name server, code 2.
    NS,
    /// The canonical name of an alias, code 5.
    CNAME,
    /// Any other code.
    Unknown(u16),
}

/// The class of a question or of a record.
#[derive(Clone, Copy, Debug, PartialEq, Eq, Structural)]
pub enum QuestionClass {
    /// The Internet, code 1.
    Internet,
    /// Any other code.
    Unknown(u16),
}

/// A question.
#[derive(Clone, Debug, PartialEq, Eq)]
pub struct DnsQuestion {
    pub label: DnsLabel,
    pub kind: QuestionType,
    pub class: QuestionClass,
}

/// What a question holds.
pub struct QuestionModel {
    pub name: Seq<Seq<u8>>,
    pub kind: QuestionType,
    pub class: QuestionClass,
}

/// What reading a question gives: the question and the position behind it,
/// or the reason of the failure.
pub type QuestionResult = Result<(QuestionModel, int), DecodeError>;

/// What reading a run of questions gives.
pub type QuestionsResult = Result<(Seq<QuestionModel>, int), DecodeError>;

impl QuestionType {
    /// `Unknown` holds no code that has a variant of its own.
    pub open spec fn wf(self) -> bool {
        self matches QuestionType::Unknown(c) ==> c != 1 && c != 2 && c != 5
    }

    /// The code on the wire.
    pub open spec fn spec_code(self) -> u16 {
        match self {
            QuestionType::A => 1,
            QuestionType::NS => 2,
            QuestionType::CNAME => 5,
            QuestionType::Unknown(c) => c,
        }
    }

    /// The type that the code `c` stands for.
    pub open spec fn spec_from_code(c: u16) -> QuestionType {
        if c == 1 {
            QuestionType::A
        } else if c == 2 {
            QuestionType::NS
        } else if c == 5 {
            QuestionType::CNAME
        } else {
            QuestionType::Unknown(c)
        }
    }

    /// The code on the wire.
    pub fn code(&self) -> (c: u16)
        ensures
            c == self.spec_code(),
    {
        match self {
            QuestionType::A => 1,
            QuestionType::NS => 2,
            QuestionType::CNAME => 5,
            QuestionType::Unknown(c) => *c,
        }
    }

    /// The type that the code `c` stands for. No code is refused.
    pub fn from_code(c: u16) -> (t: QuestionType)
        ensures
            t == QuestionType::spec_from_code(c),
            t.wf(),
            t.spec_code() == c,
    {
        if c == 1 {
            QuestionType::A
        } else if c == 2 {
            QuestionType::NS
        } else if c == 5 {
            QuestionType::CNAME
        } else {
            QuestionType::Unknown(c)
        }
    }

    /// Whether `Unknown` holds no code that has a variant of its own.
    pub fn is_well_formed(&self) -> (b: bool)
        ensures
            b == self.wf(),
    {
        match self {
            QuestionType::Unknown(c) => *c != 1 && *c != 2 && *c != 5,
            _ => true,
        }
    }
}

impl QuestionClass {
    /// `Unknown` does not hold the code of the Internet.
    pub open spec fn wf(self) -> bool {
        self matches QuestionClass::Unknown(c) ==> c != 1
    }

    /// The code on the wire.
    pub open spec fn spec_code(self) -> u16 {
        match self {
            QuestionClass::Internet => 1,
            QuestionClass::Unknown(c) => c,
        }
    }

    /// The class that the code `c` stands for.
    pub open spec fn spec_from_code(c: u16) -> QuestionClass {
        if c == 1 {
            QuestionClass::Internet
        } else {
            QuestionClass::Unknown(c)
        }
    }

    /// The code on the wire.
    pub fn code(&self) -> (c: u16)
        ensures
            c == self.spec_code(),
    {
        match self {
            QuestionClass::Internet => 1,
            QuestionClass::Unknown(c) => *c,
        }
    }

    /// The class that the code `c` stands for. No code is refused.
    pub fn from_code(c: u16) -> (t: QuestionClass)
        ensures
            t == QuestionClass::spec_from_code(c),
            t.wf(),
            t.spec_code() == c,
    {
        if c == 1 {
            QuestionClass::Internet
        } else {
            QuestionClass::Unknown(c)
        }
    }

    /// Whether `Unknown` does not hold the code of the Internet.
    pub fn is_well_formed(&self) -> (b: bool)
        ensures
            b == self.wf(),
    {
        match self {
            QuestionClass::Unknown(c) => *c != 1,
            _ => true,
        }
    }
}

/// The name is valid, and type and class are written in their one way.
pub open spec fn valid_question(q: QuestionModel) -> bool {
    valid_name(q.name) && q.kind.wf() && q.class.wf()
}

/// The name is valid: the question can be written.
pub open spec fn encodable_question(q: QuestionModel) -> bool {
    valid_name(q.name)
}

/// The bytes of a question: the name without compression, then type and
/// class.
pub open spec fn encode_question(q: QuestionModel) -> Seq<u8> {
    encode_name(q.name) + u16_bytes(q.kind.spec_code()) + u16_bytes(q.class.spec_code())
}

/// The question that stands at `pos` in `buf`.
pub open spec fn parse_question(buf: Seq<u8>, pos: int) -> QuestionResult {
    match parse_name(buf, pos, 0) {
        Err(e) => Err(e),
        Ok((name, p)) => if p + 4 > buf.len() {
            Err(DecodeError::TruncatedMessage)
        } else {
            Ok(
                (
                    QuestionModel {
                        name,
                        kind: QuestionType::spec_from_code(u16_at(buf, p)),
                        class: QuestionClass::spec_from_code(u16_at(buf, p + 2)),
                    },
                    p + 4,
                ),
            )
        },
    }
}

/// Every question of `qs` is valid.
pub open spec fn valid_questions(qs: Seq<QuestionModel>) -> bool {
    forall|i: int| 0 <= i < qs.len() ==> valid_question(#[trigger] qs[i])
}

/// Every question of `qs` can be written.
pub open spec fn encodable_questions(qs: Seq<QuestionModel>) -> bool {
    forall|i: int| 0 <= i < qs.len() ==> encodable_question(#[trigger] qs[i])
}

/// Valid questions can be written.
pub proof fn lemma_valid_questions_encodable(qs: Seq<QuestionModel>)
    requires
        valid_questions(qs),
    ensures
        encodable_questions(qs),
{
    assert forall|i: int| 0 <= i < qs.len() implies encodable_question(#[trigger] qs[i]) by {
        assert(valid_question(qs[i]));
    }
}

/// The bytes of the questions of `qs`, one behind the other.
pub open spec fn encode_questions(qs: Seq<QuestionModel>) -> Seq<u8>
    decreases qs.len(),
{
    if qs.len() == 0 {
        Seq::empty()
    } else {
        encode_questions(qs.drop_last()) + encode_question(qs.last())
    }
}

/// The `n` questions that stand one behind the other from `pos` on. The
/// first that cannot be read gives the failure.
pub open spec fn parse_questions(buf: Seq<u8>, pos: int, n: nat) -> QuestionsResult
    decreases n,
{
    if n == 0 {
        Ok((Seq::empty(), pos))
    } else {
        match parse_questions(buf, pos, (n - 1) as nat) {
            Err(e) => Err(e),
            Ok((qs, p)) => match parse_question(buf, p) {
                Err(e) => Err(e),
                Ok((q, end)) => Ok((qs.push(q), end)),
            },
        }
    }
}

/// A valid question is read back as it was written, and takes exactly the
/// bytes that were written.
pub proof fn lemma_question_round_trip(buf: Seq<u8>, pos: int, q: QuestionModel)
    requires
        valid_question(q),
        holds_at(buf, pos, encode_question(q)),
    ensures
        parse_question(buf, pos) == Ok::<(QuestionModel, int), DecodeError>(
            (q, pos + encode_question(q).len()),
        ),
{
    let name = encode_name(q.name);
    let kind = u16_bytes(q.kind.spec_code());
    let class = u16_bytes(q.class.spec_code());
    lemma_holds_at_split(buf, pos, name + kind, class);
    lemma_holds_at_split(buf, pos, name, kind);
    lemma_name_round_trip(buf, pos, q.name, 0);
    lemma_u16_round_trip(buf, pos + name.len(), q.kind.spec_code());
    lemma_u16_round_trip(buf, pos + name.len() + 2, q.class.spec_code());
}

/// Valid questions are read back as they were written, in their order, and
/// take exactly the bytes that were written.
pub proof fn lemma_questions_round_trip(buf: Seq<u8>, pos: int, qs: Seq<QuestionModel>)
    requires
        valid_questions(qs),
        holds_at(buf, pos, encode_questions(qs)),
    ensures
        parse_questions(buf, pos, qs.len()) == Ok::<(Seq<QuestionModel>, int), DecodeError>(
            (qs, pos + encode_questions(qs).len()),
        ),
    decreases qs.len(),
{
    if qs.len() == 0 {
        assert(qs =~= Seq::empty());
    } else {
        let init = qs.drop_last();
        assert forall|i: int| 0 <= i < init.len() implies valid_question(#[trigger] init[i]) by {
            assert(init[i] == qs[i]);
        }
        lemma_holds_at_split(buf, pos, encode_questions(init), encode_question(qs.last()));
        lemma_questions_round_trip(buf, pos, init);
        lemma_question_round_trip(buf, pos + encode_questions(init).len(), qs.last());
        assert(init.push(qs.last()) =~= qs);
    }
}

/// Reading no question gives no question and takes no byte.
pub proof fn lemma_no_question(buf: Seq<u8>, pos: int)
    ensures
        parse_questions(buf, pos, 0) == Ok::<(Seq<QuestionModel>, int), DecodeError>(
            (Seq::empty(), pos),
        ),
{
}

impl View for DnsQuestion {
    type V = QuestionModel;

    open spec fn view(&self) -> QuestionModel {
        QuestionModel { name: self.label@, kind: self.kind, class: self.class }
    }
}

impl DnsQuestion {
    /// The name is valid, and type and class are written in their one way.
    pub open spec fn wf(&self) -> bool {
        valid_question(self@)
    }

    /// The question can be written: its name is valid.
    pub open spec fn encodable(&self) -> bool {
        encodable_question(self@)
    }

    /// Whether the question is well formed.
    pub fn is_well_formed(&self) -> (b: bool)
        ensures
            b == self.wf(),
    {
        self.label.is_well_formed() && self.kind.is_well_formed() && self.class.is_well_formed()
    }

    /// Whether the question can be written.
    pub fn is_encodable(&self) -> (b: bool)
        ensures
            b == self.encodable(),
    {
        self.label.is_well_formed()
    }

    /// Reads the question that stands at `pos` in the message `buf`, and
    /// returns it with the position behind it.
    pub fn decode(buf: &[u8], pos: usize) -> (r: Result<(DnsQuestion, usize), DecodeError>)
        ensures
            match parse_question(buf@, pos as int) {
                Ok((q, end)) => r is Ok && r->Ok_0.0@ == q && r->Ok_0.1 == end && r->Ok_0.0.wf()
                    && pos < end <= buf@.len(),
                Err(e) => r is Err && r->Err_0 == e,
            },
    {
        match DnsLabel::decode(buf, pos) {
            Err(e) => Err(e),
            Ok((label, p)) => {
                if buf.len() - p < 4 {
                    return Err(DecodeError::TruncatedMessage);
                }
                let kind = QuestionType::from_code(read_u16(buf, p));
                let class = QuestionClass::from_code(read_u16(buf, p + 2));
                Ok((DnsQuestion { label, kind, class }, p + 4))
            },
        }
    }

    /// Appends the question to `out`.
    pub fn write_to(&self, out: &mut Vec<u8>)
        requires
            self.encodable(),
        ensures
            final(out)@ == old(out)@ + encode_question(self@),
    {
        self.label.write_to(out);
        push_u16(out, self.kind.code());
        push_u16(out, self.class.code());
        proof {
            assert(out@ =~= old(out)@ + encode_question(self@));
        }
    }

    /// The bytes of the question.
    pub fn encode(&self) -> (bytes: Vec<u8>)
        requires
            self.encodable(),
        ensures
            bytes@ == encode_question(self@),
    {
        let mut out: Vec<u8> = Vec::new();
        self.write_to(&mut out);
        proof {
            assert(out@ =~= encode_question(self@));
        }
        out
    }
}

/// What the questions of `v` hold, in their order.
pub open spec fn questions_of(v: Seq<DnsQuestion>) -> Seq<QuestionModel> {
    Seq::new(v.len(), |i: int| v[i]@)
}

/// Once a question cannot be read, no longer run of questions can be read,
/// and the failure stays the same.
pub proof fn lemma_questions_failure_stays(buf: Seq<u8>, pos: int, k: nat, n: nat)
    requires
        k <= n,
        parse_questions(buf, pos, k) is Err,
    ensures
        parse_questions(buf, pos, n) == parse_questions(buf, pos, k),
    decreases n,
{
    if k < n {
        lemma_questions_failure_stays(buf, pos, k, (n - 1) as nat);
    }
}

/// Reads the `n` questions that stand one behind the other from `pos` on,
/// and returns them with the position behind the last.
pub fn decode_questions(buf: &[u8], pos: usize, n: u16) -> (r: Result<
    (Vec<DnsQuestion>, usize),
    DecodeError,
>)
    ensures
        match parse_questions(buf@, pos as int, n as nat) {
            Ok((qs, end)) => r is Ok && questions_of(r->Ok_0.0@) == qs && r->Ok_0.1 == end
                && r->Ok_0.0@.len() == n
                && valid_questions(qs),
            Err(e) => r is Err && r->Err_0 == e,
        },
{
    let mut list: Vec<DnsQuestion> = Vec::new();
    let mut cur: usize = pos;
    let mut i: u16 = 0;
    proof {
        assert(questions_of(list@) =~= Seq::empty());
    }
    while i < n
        invariant
            i <= n,
            list@.len() == i,
            parse_questions(buf@, pos as int, i as nat) == Ok::<
                (Seq<QuestionModel>, int),
                DecodeError,
            >((questions_of(list@), cur as int)),
            valid_questions(questions_of(list@)),
        decreases n - i,
    {
        match DnsQuestion::decode(buf, cur) {
            Err(e) => {
                proof {
                    assert(parse_questions(buf@, pos as int, (i + 1) as nat) is Err);
                    lemma_questions_failure_stays(buf@, pos as int, (i + 1) as nat, n as nat);
                }
                return Err(e);
            },
            Ok((q, end)) => {
                proof {
                    assert(questions_of(list@.push(q)) =~= questions_of(list@).push(q@));
                }
                list.push(q);
                cur = end;
                i = i + 1;
            },
        }
    }
    Ok((list, cur))
}

/// Whether every question of `list` is well formed.
pub fn questions_well_formed(list: &Vec<DnsQuestion>) -> (b: bool)
    ensures
        b == valid_questions(questions_of(list@)),
{
    let mut i: usize = 0;
    while i < list.len()
        invariant
            i <= list@.len(),
            forall|j: int| 0 <= j < i ==> valid_question(#[trigger] questions_of(list@)[j]),
        decreases list@.len() - i,
    {
        if !list[i].is_well_formed() {
            proof {
                assert(questions_of(list@)[i as int] == list@[i as int]@);
            }
            return false;
        }
        proof {
            assert(questions_of(list@)[i as int] == list@[i as int]@);
        }
        i = i + 1;
    }
    true
}

/// Whether every question of `list` can be written.
pub fn questions_encodable(list: &Vec<DnsQuestion>) -> (b: bool)
    ensures
        b == encodable_questions(questions_of(list@)),
{
    let mut i: usize = 0;
    while i < list.len()
        invariant
            i <= list@.len(),
            forall|j: int| 0 <= j < i ==> encodable_question(#[trigger] questions_of(list@)[j]),
        decreases list@.len() - i,
    {
        proof {
            assert(questions_of(list@)[i as int] == list@[i as int]@);
        }
        if !list[i].is_encodable() {
            return false;
        }
        i = i + 1;
    }
    true
}

/// Appends the questions of `list` to `out`, one behind the other.
pub fn write_questions(list: &Vec<DnsQuestion>, out: &mut Vec<u8>)
    requires
        encodable_questions(questions_of(list@)),
    ensures
        final(out)@ == old(out)@ + encode_questions(questions_of(list@)),
{
    let ghost all = questions_of(list@);
    let mut i: usize = 0;
    proof {
        assert(out@ =~= old(out)@ + encode_questions(all.take(0)));
    }
    while i < list.len()
        invariant
            i <= list@.len(),
            all == questions_of(list@),
            encodable_questions(all),
            out@ == old(out)@ + encode_questions(all.take(i as int)),
        decreases list@.len() - i,
    {
        proof {
            assert(all[i as int] == list@[i as int]@);
            assert(encodable_question(all[i as int]));
            assert(all.take(i + 1).drop_last() =~= all.take(i as int));
            assert(all.take(i + 1).last() == all[i as int]);
        }
        list[i].write_to(out);
        proof {
            assert(out@ =~= old(out)@ + encode_questions(all.take(i + 1)));
        }
        i = i + 1;
    }
    proof {
        assert(all.take(i as int) =~= all);
    }
}

} // verus!
