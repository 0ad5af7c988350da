//! Resource records: a name, type, class, time to live, and data whose
//! length stands before it on the wire.

use vstd::prelude::*;
use crate::error::DecodeError;
use crate::label::{encode_name, lemma_name_round_trip, parse_name, valid_name, DnsLabel};
use crate::question::{QuestionClass, QuestionType};
use crate::wire::{
    copy_range, holds_at, lemma_holds_at_split, lemma_u16_round_trip, lemma_u32_round_trip,
    push_bytes, push_u16, push_u32, read_u16, read_u32, u16_at, u16_bytes, u32_at, u32_bytes,
};

verus! {

/// The longest data that the 16-bit length field can announce.
pub const MAX_DATA_LEN: usize = 65535;

/// Bytes between the name of a record and its data: type, class, time to
/// live and the length of the data.
pub const RECORD_FIXED_LEN: usize = 10;

/// The data of a record.
#[derive(Clone, Debug, PartialEq, Eq)]
pub enum DnsResourceRecordData {
    /// The address of a host, for records of type `A`.
    A { ip: [u8; 4] },
    /// The data of a record of any other type, as it stands on the wire.
    Raw { bytes: Vec<u8> },
}

/// A resource record.
#[derive(Clone, Debug, PartialEq, Eq)]
pub struct DnsResourceRecord {
    pub name: DnsLabel,
    pub kind: QuestionType,
    pub class: QuestionClass,
    /// Seconds for which the record may be kept.
    pub ttl: u32,
    pub data: DnsResourceRecordData,
}

/// What the data of a record holds.
pub enum RecordDataModel {
    A { ip: Seq<u8> },
    Raw { bytes: Seq<u8> },
}

/// What a record holds.
pub struct RecordModel {
    pub name: Seq<Seq<u8>>,
    pub kind: QuestionType,
    pub class: QuestionClass,
    pub ttl: u32,
    pub data: RecordDataModel,
}

/// What reading a record gives: the record and the position behind it, or
/// the reason of the failure.
pub type RecordResult = Result<(RecordModel, int), DecodeError>;

/// What reading a run of records gives.
pub type RecordsResult = Result<(Seq<RecordModel>, int), DecodeError>;

impl RecordDataModel {
    /// The bytes of the data on the wire.
    pub open spec fn payload(self) -> Seq<u8> {
        match self {
            RecordDataModel::A { ip } => ip,
            RecordDataModel::Raw { bytes } => bytes,
        }
    }
}

/// The name is valid, type and class are written in their one way, the data
/// is an address exactly for type `A`, an address has four bytes, and the
/// length of the data fits in sixteen bits.
pub open spec fn valid_record(r: RecordModel) -> bool {
    &&& valid_name(r.name)
    &&& r.kind.wf()
    &&& r.class.wf()
    &&& (r.kind is A <==> r.data is A)
    &&& (r.data is A ==> r.data.payload().len() == 4)
    &&& r.data.payload().len() <= MAX_DATA_LEN
}

/// The name is valid and the length of the data fits in sixteen bits: the
/// record can be written.
pub open spec fn encodable_record(r: RecordModel) -> bool {
    valid_name(r.name) && r.data.payload().len() <= MAX_DATA_LEN
}

/// The bytes of a record: the name without compression, type, class, time
/// to live, the length of the data and the data.
pub open spec fn encode_record(r: RecordModel) -> Seq<u8> {
    encode_name(r.name) + u16_bytes(r.kind.spec_code()) + u16_bytes(r.class.spec_code())
        + u32_bytes(r.ttl) + u16_bytes(r.data.payload().len() as u16) + r.data.payload()
}

/// The record that stands at `pos` in `buf`.
///
/// For type `A` the data must have four bytes; for any other type it is
/// taken as it stands, in the length that is announced.
pub open spec fn parse_record(buf: Seq<u8>, pos: int) -> RecordResult {
    match parse_name(buf, pos, 0) {
        Err(e) => Err(e),
        Ok((name, p)) => if p + RECORD_FIXED_LEN > buf.len() {
            Err(DecodeError::TruncatedMessage)
        } else {
            let kind = QuestionType::spec_from_code(u16_at(buf, p));
            let class = QuestionClass::spec_from_code(u16_at(buf, p + 2));
            let ttl = u32_at(buf, p + 4);
            let len = u16_at(buf, p + 8);
            let from = p + RECORD_FIXED_LEN;
            if kind is A && len != 4 {
                Err(DecodeError::MalformedRecordData)
            } else if from + len > buf.len() {
                Err(DecodeError::TruncatedMessage)
            } else {
                let bytes = buf.subrange(from, from + len);
                let data = if kind is A {
                    RecordDataModel::A { ip: bytes }
                } else {
                    RecordDataModel::Raw { bytes }
                };
                Ok((RecordModel { name, kind, class, ttl, data }, from + len))
            }
        },
    }
}

/// Every record of `rs` is valid.
pub open spec fn valid_records(rs: Seq<RecordModel>) -> bool {
    forall|i: int| 0 <= i < rs.len() ==> valid_record(#[trigger] rs[i])
}

/// Every record of `rs` can be written.
pub open spec fn encodable_records(rs: Seq<RecordModel>) -> bool {
    forall|i: int| 0 <= i < rs.len() ==> encodable_record(#[trigger] rs[i])
}

/// Valid records can be written.
pub proof fn lemma_valid_records_encodable(rs: Seq<RecordModel>)
    requires
        valid_records(rs),
    ensures
        encodable_records(rs),
{
    assert forall|i: int| 0 <= i < rs.len() implies encodable_record(#[trigger] rs[i]) by {
        assert(valid_record(rs[i]));
    }
}

/// The bytes of the records of `rs`, one behind the other.
pub open spec fn encode_records(rs: Seq<RecordModel>) -> Seq<u8>
    decreases rs.len(),
{
    if rs.len() == 0 {
        Seq::empty()
    } else {
        encode_records(rs.drop_last()) + encode_record(rs.last())
    }
}

/// The `n` records that stand one behind the other from `pos` on. The first
/// that cannot be read gives the failure.
pub open spec fn parse_records(buf: Seq<u8>, pos: int, n: nat) -> RecordsResult
    decreases n,
{
    if n == 0 {
        Ok((Seq::empty(), pos))
    } else {
        match parse_records(buf, pos, (n - 1) as nat) {
            Err(e) => Err(e),
            Ok((rs, p)) => match parse_record(buf, p) {
                Err(e) => Err(e),
                Ok((r, end)) => Ok((rs.push(r), end)),
            },
        }
    }
}

/// A valid record is read back as it was written, and takes exactly the
/// bytes that were written.
pub proof fn lemma_record_round_trip(buf: Seq<u8>, pos: int, r: RecordModel)
    requires
        valid_record(r),
        holds_at(buf, pos, encode_record(r)),
    ensures
        parse_record(buf, pos) == Ok::<(RecordModel, int), DecodeError>(
            (r, pos + encode_record(r).len()),
        ),
{
    let name = encode_name(r.name);
    let kind = u16_bytes(r.kind.spec_code());
    let class = u16_bytes(r.class.spec_code());
    let ttl = u32_bytes(r.ttl);
    let payload = r.data.payload();
    let len = u16_bytes(payload.len() as u16);
    lemma_holds_at_split(buf, pos, name + kind + class + ttl + len, payload);
    lemma_holds_at_split(buf, pos, name + kind + class + ttl, len);
    lemma_holds_at_split(buf, pos, name + kind + class, ttl);
    lemma_holds_at_split(buf, pos, name + kind, class);
    lemma_holds_at_split(buf, pos, name, kind);
    lemma_name_round_trip(buf, pos, r.name, 0);
    let p = pos + name.len();
    lemma_u16_round_trip(buf, p, r.kind.spec_code());
    lemma_u16_round_trip(buf, p + 2, r.class.spec_code());
    lemma_u32_round_trip(buf, p + 4, r.ttl);
    lemma_u16_round_trip(buf, p + 8, payload.len() as u16);
}

/// Valid records are read back as they were written, in their order, and
/// take exactly the bytes that were written.
pub proof fn lemma_records_round_trip(buf: Seq<u8>, pos: int, rs: Seq<RecordModel>)
    requires
        valid_records(rs),
        holds_at(buf, pos, encode_records(rs)),
    ensures
        parse_records(buf, pos, rs.len()) == Ok::<(Seq<RecordModel>, int), DecodeError>(
            (rs, pos + encode_records(rs).len()),
        ),
    decreases rs.len(),
{
    if rs.len() == 0 {
        assert(rs =~= Seq::empty());
    } else {
        let init = rs.drop_last();
        assert forall|i: int| 0 <= i < init.len() implies valid_record(#[trigger] init[i]) by {
            assert(init[i] == rs[i]);
        }
        lemma_holds_at_split(buf, pos, encode_records(init), encode_record(rs.last()));
        lemma_records_round_trip(buf, pos, init);
        lemma_record_round_trip(buf, pos + encode_records(init).len(), rs.last());
        assert(init.push(rs.last()) =~= rs);
    }
}

impl View for DnsResourceRecordData {
    type V = RecordDataModel;

    open spec fn view(&self) -> RecordDataModel {
        match self {
            DnsResourceRecordData::A { ip } => RecordDataModel::A { ip: ip@ },
            DnsResourceRecordData::Raw { bytes } => RecordDataModel::Raw { bytes: bytes@ },
        }
    }
}

impl View for DnsResourceRecord {
    type V = RecordModel;

    open spec fn view(&self) -> RecordModel {
        RecordModel {
            name: self.name@,
            kind: self.kind,
            class: self.class,
            ttl: self.ttl,
            data: self.data@,
        }
    }
}

impl DnsResourceRecordData {
    /// The address that the data holds. Data that is no address is refused
    /// as `UnsupportedType`.
    pub fn address(&self) -> (r: Result<[u8; 4], DecodeError>)
        ensures
            match *self {
                DnsResourceRecordData::A { ip } => r == Ok::<[u8; 4], DecodeError>(ip),
                DnsResourceRecordData::Raw { .. } => r == Err::<[u8; 4], DecodeError>(
                    DecodeError::UnsupportedType,
                ),
            },
    {
        match self {
            DnsResourceRecordData::A { ip } => Ok(*ip),
            DnsResourceRecordData::Raw { .. } => Err(DecodeError::UnsupportedType),
        }
    }

    /// How many bytes the data takes on the wire.
    pub fn payload_len(&self) -> (n: usize)
        ensures
            n == self@.payload().len(),
    {
        match self {
            DnsResourceRecordData::A { .. } => 4,
            DnsResourceRecordData::Raw { bytes } => bytes.len(),
        }
    }
}

impl DnsResourceRecord {
    /// The record is valid: see `valid_record`.
    pub open spec fn wf(&self) -> bool {
        valid_record(self@)
    }

    /// The record can be written: see `encodable_record`.
    pub open spec fn encodable(&self) -> bool {
        encodable_record(self@)
    }

    /// Whether the record can be written.
    pub fn is_encodable(&self) -> (b: bool)
        ensures
            b == self.encodable(),
    {
        self.name.is_well_formed() && self.data.payload_len() <= MAX_DATA_LEN
    }

    /// Whether the record is well formed.
    pub fn is_well_formed(&self) -> (b: bool)
        ensures
            b == self.wf(),
    {
        let kind_is_a = match self.kind {
            QuestionType::A => true,
            _ => false,
        };
        let data_is_a = match self.data {
            DnsResourceRecordData::A { .. } => true,
            _ => false,
        };
        self.name.is_well_formed() && self.kind.is_well_formed() && self.class.is_well_formed()
            && kind_is_a == data_is_a && self.data.payload_len() <= MAX_DATA_LEN
    }

    /// Reads the record that stands at `pos` in the message `buf`, and
    /// returns it with the position behind it.
    pub fn decode(buf: &[u8], pos: usize) -> (r: Result<(DnsResourceRecord, usize), DecodeError>)
        ensures
            match parse_record(buf@, pos as int) {
                Ok((rec, end)) => r is Ok && r->Ok_0.0@ == rec && r->Ok_0.1 == end
                    && r->Ok_0.0.wf() && pos < end <= buf@.len(),
                Err(e) => r is Err && r->Err_0 == e,
            },
    {
        match DnsLabel::decode(buf, pos) {
            Err(e) => Err(e),
            Ok((name, p)) => {
                if buf.len() - p < RECORD_FIXED_LEN {
                    return Err(DecodeError::TruncatedMessage);
                }
                let kind = QuestionType::from_code(read_u16(buf, p));
                let class = QuestionClass::from_code(read_u16(buf, p + 2));
                let ttl: u32 = read_u32(buf, p + 4);
                let len: usize = read_u16(buf, p + 8) as usize;
                let from: usize = p + RECORD_FIXED_LEN;
                let is_a = match kind {
                    QuestionType::A => true,
                    _ => false,
                };
                if is_a && len != 4 {
                    return Err(DecodeError::MalformedRecordData);
                }
                if buf.len() - from < len {
                    return Err(DecodeError::TruncatedMessage);
                }
                let data = if is_a {
                    let ip: [u8; 4] = [buf[from], buf[from + 1], buf[from + 2], buf[from + 3]];
                    proof {
                        assert(ip@ =~= buf@.subrange(from as int, from + 4));
                    }
                    DnsResourceRecordData::A { ip }
                } else {
                    DnsResourceRecordData::Raw { bytes: copy_range(buf, from, from + len) }
                };
                Ok((DnsResourceRecord { name, kind, class, ttl, data }, from + len))
            },
        }
    }

    /// Appends the record to `out`. The length that is written is that of
    /// the data.
    pub fn write_to(&self, out: &mut Vec<u8>)
        requires
            self.encodable(),
        ensures
            final(out)@ == old(out)@ + encode_record(self@),
    {
        self.name.write_to(out);
        push_u16(out, self.kind.code());
        push_u16(out, self.class.code());
        push_u32(out, self.ttl);
        push_u16(out, self.data.payload_len() as u16);
        match &self.data {
            DnsResourceRecordData::A { ip } => {
                push_bytes(out, ip.as_slice());
            },
            DnsResourceRecordData::Raw { bytes } => {
                push_bytes(out, bytes.as_slice());
            },
        }
        proof {
            assert(out@ =~= old(out)@ + encode_record(self@));
        }
    }

    /// The bytes of the record.
    pub fn encode(&self) -> (bytes: Vec<u8>)
        requires
            self.encodable(),
        ensures
            bytes@ == encode_record(self@),
    {
        let mut out: Vec<u8> = Vec::new();
        self.write_to(&mut out);
        proof {
            assert(out@ =~= encode_record(self@));
        }
        out
    }
}

/// What the records of `v` hold, in their order.
pub open spec fn records_of(v: Seq<DnsResourceRecord>) -> Seq<RecordModel> {
    Seq::new(v.len(), |i: int| v[i]@)
}

/// Once a record cannot be read, no longer run of records can be read,
/// and the failure stays the same.
pub proof fn lemma_records_failure_stays(buf: Seq<u8>, pos: int, k: nat, n: nat)
    requires
        k <= n,
        parse_records(buf, pos, k) is Err,
    ensures
        parse_records(buf, pos, n) == parse_records(buf, pos, k),
    decreases n,
{
    if k < n {
        lemma_records_failure_stays(buf, pos, k, (n - 1) as nat);
    }
}

/// Reads the `n` records that stand one behind the other from `pos` on,
/// and returns them with the position behind the last.
pub fn decode_records(buf: &[u8], pos: usize, n: u16) -> (r: Result<
    (Vec<DnsResourceRecord>, usize),
    DecodeError,
>)
    ensures
        match parse_records(buf@, pos as int, n as nat) {
            Ok((rs, end)) => r is Ok && records_of(r->Ok_0.0@) == rs && r->Ok_0.1 == end
                && r->Ok_0.0@.len() == n
                && valid_records(rs),
            Err(e) => r is Err && r->Err_0 == e,
        },
{
    let mut list: Vec<DnsResourceRecord> = Vec::new();
    let mut cur: usize = pos;
    let mut i: u16 = 0;
    proof {
        assert(records_of(list@) =~= Seq::empty());
    }
    while i < n
        invariant
            i <= n,
            list@.len() == i,
            parse_records(buf@, pos as int, i as nat) == Ok::<
                (Seq<RecordModel>, int),
                DecodeError,
            >((records_of(list@), cur as int)),
            valid_records(records_of(list@)),
        decreases n - i,
    {
        match DnsResourceRecord::decode(buf, cur) {
            Err(e) => {
                proof {
                    assert(parse_records(buf@, pos as int, (i + 1) as nat) is Err);
                    lemma_records_failure_stays(buf@, pos as int, (i + 1) as nat, n as nat);
                }
                return Err(e);
            },
            Ok((rec, end)) => {
                proof {
                    assert(records_of(list@.push(rec)) =~= records_of(list@).push(rec@));
                }
                list.push(rec);
                cur = end;
                i = i + 1;
            },
        }
    }
    Ok((list, cur))
}

/// Whether every record of `list` is well formed.
pub fn records_well_formed(list: &Vec<DnsResourceRecord>) -> (b: bool)
    ensures
        b == valid_records(records_of(list@)),
{
    let mut i: usize = 0;
    while i < list.len()
        invariant
            i <= list@.len(),
            forall|j: int| 0 <= j < i ==> valid_record(#[trigger] records_of(list@)[j]),
        decreases list@.len() - i,
    {
        if !list[i].is_well_formed() {
            proof {
                assert(records_of(list@)[i as int] == list@[i as int]@);
            }
            return false;
        }
        proof {
            assert(records_of(list@)[i as int] == list@[i as int]@);
        }
        i = i + 1;
    }
    true
}

/// Whether every record of `list` can be written.
pub fn records_encodable(list: &Vec<DnsResourceRecord>) -> (b: bool)
    ensures
        b == encodable_records(records_of(list@)),
{
    let mut i: usize = 0;
    while i < list.len()
        invariant
            i <= list@.len(),
            forall|j: int| 0 <= j < i ==> encodable_record(#[trigger] records_of(list@)[j]),
        decreases list@.len() - i,
    {
        proof {
            assert(records_of(list@)[i as int] == list@[i as int]@);
        }
        if !list[i].is_encodable() {
            return false;
        }
        i = i + 1;
    }
    true
}

/// Appends the records of `list` to `out`, one behind the other.
pub fn write_records(list: &Vec<DnsResourceRecord>, out: &mut Vec<u8>)
    requires
        encodable_records(records_of(list@)),
    ensures
        final(out)@ == old(out)@ + encode_records(records_of(list@)),
{
    let ghost all = records_of(list@);
    let mut i: usize = 0;
    proof {
        assert(out@ =~= old(out)@ + encode_records(all.take(0)));
    }
    while i < list.len()
        invariant
            i <= list@.len(),
            all == records_of(list@),
            encodable_records(all),
            out@ == old(out)@ + encode_records(all.take(i as int)),
        decreases list@.len() - i,
    {
        proof {
            assert(all[i as int] == list@[i as int]@);
            assert(encodable_record(all[i as int]));
            assert(all.take(i + 1).drop_last() =~= all.take(i as int));
            assert(all.take(i + 1).last() == all[i as int]);
        }
        list[i].write_to(out);
        proof {
            assert(out@ =~= old(out)@ + encode_records(all.take(i + 1)));
        }
        i = i + 1;
    }
    proof {
        assert(all.take(i as int) =~= all);
    }
}

} // verus!
