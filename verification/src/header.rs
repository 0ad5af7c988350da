//! The fixed header of twelve bytes: identifier, two bytes of flags and the
//! four section counts.

use vstd::prelude::*;
use crate::error::DecodeError;
use crate::wire::{holds_at, push_u16, read_u16, u16_at, u16_bytes};

verus! {

/// Whether a message asks or answers.
#[derive(Clone, Copy, Debug, PartialEq, Eq, Structural)]
pub enum QueryResponseIndicator {
    Query,
    Response,
}

/// Whether the answering server owns the domain asked for.
#[derive(Clone, Copy, Debug, PartialEq, Eq, Structural)]
pub enum AuthoritativeAnswer {
    Other,
    Owns,
}

/// Whether the message was cut because it is longer than 512 bytes.
#[derive(Clone, Copy, Debug, PartialEq, Eq, Structural)]
pub enum Truncation {
    No,
    LargerThan512,
}

/// Whether the sender wants the server to resolve the name recursively.
#[derive(Clone, Copy, Debug, PartialEq, Eq, Structural)]
pub enum RecursionDesired {
    NonRecursive,
    Recursive,
}

/// Whether the server offers recursion.
#[derive(Clone, Copy, Debug, PartialEq, Eq, Structural)]
pub enum RecursionAvailable {
    NotAvailable,
    Available,
}

/// The first byte of flags. From the most significant bit down: `qr`, four
/// bits of `opcode`, `authoritative`, `truncation`, `recursion_desired`.
#[derive(Clone, Copy, Debug, PartialEq, Eq, Structural)]
pub struct DnsHeaderFlags {
    pub recursion_desired: RecursionDesired,
    pub truncation: Truncation,
    pub authoritative: AuthoritativeAnswer,
    pub opcode: u8,
    pub qr: QueryResponseIndicator,
}

/// The second byte of flags. From the most significant bit down:
/// `recursion_available`, three reserved bits, four bits of `response`.
/// The reserved bits are not kept: they are ignored when read and written as 0.
#[derive(Clone, Copy, Debug, PartialEq, Eq, Structural)]
pub struct DnsHeaderFlags2 {
    pub response: u8,
    pub recursion_available: RecursionAvailable,
}

/// The header of a message.
#[derive(Clone, Copy, Debug, PartialEq, Eq, Structural)]
pub struct DnsHeader {
    /// Identifier that a reply repeats from its query.
    pub id: u16,
    pub flags: DnsHeaderFlags,
    pub flags2: DnsHeaderFlags2,
    /// Number of questions.
    pub question_count: u16,
    /// Number of records in the answer section.
    pub answer_count: u16,
    /// Number of records in the authority section.
    pub nscount: u16,
    /// Number of records in the additional section.
    pub arcount: u16,
}

/// Length of the header on the wire.
pub const HEADER_LEN: usize = 12;

impl DnsHeaderFlags {
    /// The opcode fits in its four bits.
    pub open spec fn wf(self) -> bool {
        self.opcode < 16
    }

    /// The byte on the wire. Of `opcode` only the low four bits are written.
    pub open spec fn spec_byte(self) -> u8 {
        ((if self.qr is Response { 128int } else { 0 }) + (self.opcode % 16) * 8
            + (if self.authoritative is Owns { 4int } else { 0 })
            + (if self.truncation is LargerThan512 { 2int } else { 0 })
            + (if self.recursion_desired is Recursive { 1int } else { 0 })) as u8
    }

    /// The flags that the byte `b` stands for.
    pub open spec fn spec_from_byte(b: u8) -> DnsHeaderFlags {
        DnsHeaderFlags {
            recursion_desired: if b % 2 == 1 {
                RecursionDesired::Recursive
            } else {
                RecursionDesired::NonRecursive
            },
            truncation: if (b / 2) % 2 == 1 {
                Truncation::LargerThan512
            } else {
                Truncation::No
            },
            authoritative: if (b / 4) % 2 == 1 {
                AuthoritativeAnswer::Owns
            } else {
                AuthoritativeAnswer::Other
            },
            opcode: ((b / 8) % 16) as u8,
            qr: if b >= 128 {
                QueryResponseIndicator::Response
            } else {
                QueryResponseIndicator::Query
            },
        }
    }

    /// The flags of a standard query that asks for nothing: every bit 0.
    pub open spec fn spec_new() -> DnsHeaderFlags {
        DnsHeaderFlags {
            recursion_desired: RecursionDesired::NonRecursive,
            truncation: Truncation::No,
            authoritative: AuthoritativeAnswer::Other,
            opcode: 0,
            qr: QueryResponseIndicator::Query,
        }
    }

    /// Flags with every bit 0.
    pub fn new() -> (f: DnsHeaderFlags)
        ensures
            f == DnsHeaderFlags::spec_new(),
            f.spec_byte() == 0,
    {
        DnsHeaderFlags {
            recursion_desired: RecursionDesired::NonRecursive,
            truncation: Truncation::No,
            authoritative: AuthoritativeAnswer::Other,
            opcode: 0,
            qr: QueryResponseIndicator::Query,
        }
    }

    /// Reads the flags from their byte.
    pub fn from_bytes(bytes: [u8; 1]) -> (f: DnsHeaderFlags)
        ensures
            f == DnsHeaderFlags::spec_from_byte(bytes[0]),
            f.wf(),
    {
        let b: u8 = bytes[0];
        DnsHeaderFlags {
            recursion_desired: if b % 2 == 1 {
                RecursionDesired::Recursive
            } else {
                RecursionDesired::NonRecursive
            },
            truncation: if (b / 2) % 2 == 1 {
                Truncation::LargerThan512
            } else {
                Truncation::No
            },
            authoritative: if (b / 4) % 2 == 1 {
                AuthoritativeAnswer::Owns
            } else {
                AuthoritativeAnswer::Other
            },
            opcode: (b / 8) % 16,
            qr: if b >= 128 {
                QueryResponseIndicator::Response
            } else {
                QueryResponseIndicator::Query
            },
        }
    }

    /// Packs the flags into their byte.
    pub fn into_bytes(self) -> (bytes: [u8; 1])
        ensures
            bytes[0] == self.spec_byte(),
    {
        let mut b: u8 = (self.opcode % 16) * 8;
        match self.qr {
            QueryResponseIndicator::Response => {
                b = b + 128;
            },
            QueryResponseIndicator::Query => {},
        }
        match self.authoritative {
            AuthoritativeAnswer::Owns => {
                b = b + 4;
            },
            AuthoritativeAnswer::Other => {},
        }
        match self.truncation {
            Truncation::LargerThan512 => {
                b = b + 2;
            },
            Truncation::No => {},
        }
        match self.recursion_desired {
            RecursionDesired::Recursive => {
                b = b + 1;
            },
            RecursionDesired::NonRecursive => {},
        }
        [b]
    }

    /// Whether the message asks or answers.
    pub fn qr(&self) -> (v: QueryResponseIndicator)
        ensures
            v == self.qr,
    {
        self.qr
    }

    /// Sets `qr` and leaves the other fields as they are.
    pub fn set_qr(&mut self, v: QueryResponseIndicator)
        ensures
            *final(self) == (DnsHeaderFlags { qr: v, ..*old(self) }),
    {
        self.qr = v;
    }

    /// The kind of query, in four bits.
    pub fn opcode(&self) -> (v: u8)
        ensures
            v == self.opcode,
    {
        self.opcode
    }

    /// Sets `opcode` and leaves the other fields as they are.
    pub fn set_opcode(&mut self, v: u8)
        requires
            v < 16,
        ensures
            *final(self) == (DnsHeaderFlags { opcode: v, ..*old(self) }),
    {
        self.opcode = v;
    }

    /// Whether the answering server owns the domain.
    pub fn authoritative(&self) -> (v: AuthoritativeAnswer)
        ensures
            v == self.authoritative,
    {
        self.authoritative
    }

    /// Sets `authoritative` and leaves the other fields as they are.
    pub fn set_authoritative(&mut self, v: AuthoritativeAnswer)
        ensures
            *final(self) == (DnsHeaderFlags { authoritative: v, ..*old(self) }),
    {
        self.authoritative = v;
    }

    /// Whether the message was cut.
    pub fn truncation(&self) -> (v: Truncation)
        ensures
            v == self.truncation,
    {
        self.truncation
    }

    /// Sets `truncation` and leaves the other fields as they are.
    pub fn set_truncation(&mut self, v: Truncation)
        ensures
            *final(self) == (DnsHeaderFlags { truncation: v, ..*old(self) }),
    {
        self.truncation = v;
    }

    /// Whether recursion is asked for.
    pub fn recursion_desired(&self) -> (v: RecursionDesired)
        ensures
            v == self.recursion_desired,
    {
        self.recursion_desired
    }

    /// Sets `recursion_desired` and leaves the other fields as they are.
    pub fn set_recursion_desired(&mut self, v: RecursionDesired)
        ensures
            *final(self) == (DnsHeaderFlags { recursion_desired: v, ..*old(self) }),
    {
        self.recursion_desired = v;
    }

    /// Reading a written byte gives back flags whose opcode fits.
    pub proof fn lemma_round_trip(self)
        requires
            self.wf(),
        ensures
            DnsHeaderFlags::spec_from_byte(self.spec_byte()) == self,
    {
    }

    /// Writing the flags read from a byte gives back the byte.
    pub proof fn lemma_byte_round_trip(b: u8)
        ensures
            DnsHeaderFlags::spec_from_byte(b).spec_byte() == b,
            DnsHeaderFlags::spec_from_byte(b).wf(),
    {
    }
}

impl DnsHeaderFlags2 {
    /// The response code fits in its four bits.
    pub open spec fn wf(self) -> bool {
        self.response < 16
    }

    /// The byte on the wire. Of `response` only the low four bits are
    /// written, and the reserved bits are 0.
    pub open spec fn spec_byte(self) -> u8 {
        ((if self.recursion_available is Available { 128int } else { 0 }) + (self.response % 16)) as u8
    }

    /// The flags that the byte `b` stands for, whatever its reserved bits.
    pub open spec fn spec_from_byte(b: u8) -> DnsHeaderFlags2 {
        DnsHeaderFlags2 {
            response: (b % 16) as u8,
            recursion_available: if b >= 128 {
                RecursionAvailable::Available
            } else {
                RecursionAvailable::NotAvailable
            },
        }
    }

    /// No recursion on offer and response code 0: every bit 0.
    pub open spec fn spec_new() -> DnsHeaderFlags2 {
        DnsHeaderFlags2 { response: 0, recursion_available: RecursionAvailable::NotAvailable }
    }

    /// Flags with every bit 0.
    pub fn new() -> (f: DnsHeaderFlags2)
        ensures
            f == DnsHeaderFlags2::spec_new(),
            f.spec_byte() == 0,
    {
        DnsHeaderFlags2 { response: 0, recursion_available: RecursionAvailable::NotAvailable }
    }

    /// Reads the flags from their byte.
    pub fn from_bytes(bytes: [u8; 1]) -> (f: DnsHeaderFlags2)
        ensures
            f == DnsHeaderFlags2::spec_from_byte(bytes[0]),
            f.wf(),
    {
        let b: u8 = bytes[0];
        DnsHeaderFlags2 {
            response: b % 16,
            recursion_available: if b >= 128 {
                RecursionAvailable::Available
            } else {
                RecursionAvailable::NotAvailable
            },
        }
    }

    /// Packs the flags into their byte.
    pub fn into_bytes(self) -> (bytes: [u8; 1])
        ensures
            bytes[0] == self.spec_byte(),
            bytes[0] % 128 < 16,
    {
        let mut b: u8 = self.response % 16;
        match self.recursion_available {
            RecursionAvailable::Available => {
                b = b + 128;
            },
            RecursionAvailable::NotAvailable => {},
        }
        [b]
    }

    /// The response code, in four bits.
    pub fn response(&self) -> (v: u8)
        ensures
            v == self.response,
    {
        self.response
    }

    /// Sets `response` and leaves the other fields as they are.
    pub fn set_response(&mut self, v: u8)
        requires
            v < 16,
        ensures
            *final(self) == (DnsHeaderFlags2 { response: v, ..*old(self) }),
    {
        self.response = v;
    }

    /// Whether recursion is offered.
    pub fn recursion_available(&self) -> (v: RecursionAvailable)
        ensures
            v == self.recursion_available,
    {
        self.recursion_available
    }

    /// Sets `recursion_available` and leaves the other fields as they are.
    pub fn set_recursion_available(&mut self, v: RecursionAvailable)
        ensures
            *final(self) == (DnsHeaderFlags2 { recursion_available: v, ..*old(self) }),
    {
        self.recursion_available = v;
    }

    /// Reading a written byte gives back flags whose response code fits.
    pub proof fn lemma_round_trip(self)
        requires
            self.wf(),
        ensures
            DnsHeaderFlags2::spec_from_byte(self.spec_byte()) == self,
    {
    }
}

impl DnsHeader {
    /// Both bytes of flags are well formed.
    pub open spec fn wf(self) -> bool {
        self.flags.wf() && self.flags2.wf()
    }

    /// The twelve bytes of the header on the wire.
    pub open spec fn spec_encode(self) -> Seq<u8> {
        u16_bytes(self.id) + seq![self.flags.spec_byte(), self.flags2.spec_byte()] + u16_bytes(
            self.question_count,
        ) + u16_bytes(self.answer_count) + u16_bytes(self.nscount) + u16_bytes(self.arcount)
    }

    /// The header that the first twelve bytes of `buf` stand for.
    pub open spec fn spec_decode(buf: Seq<u8>) -> DnsHeader {
        DnsHeader {
            id: u16_at(buf, 0),
            flags: DnsHeaderFlags::spec_from_byte(buf[2]),
            flags2: DnsHeaderFlags2::spec_from_byte(buf[3]),
            question_count: u16_at(buf, 4),
            answer_count: u16_at(buf, 6),
            nscount: u16_at(buf, 8),
            arcount: u16_at(buf, 10),
        }
    }

    /// The header of a query with identifier 0, no flag set and every
    /// count 0.
    pub open spec fn spec_new() -> DnsHeader {
        DnsHeader {
            id: 0,
            flags: DnsHeaderFlags::spec_new(),
            flags2: DnsHeaderFlags2::spec_new(),
            question_count: 0,
            answer_count: 0,
            nscount: 0,
            arcount: 0,
        }
    }

    /// A query header with identifier 0, no flag set and every count 0.
    pub fn new() -> (h: DnsHeader)
        ensures
            h == DnsHeader::spec_new(),
            h.wf(),
    {
        DnsHeader {
            id: 0,
            flags: DnsHeaderFlags::new(),
            flags2: DnsHeaderFlags2::new(),
            question_count: 0,
            answer_count: 0,
            nscount: 0,
            arcount: 0,
        }
    }

    /// Reads a header from the first twelve bytes of `bytes`. Fails exactly
    /// when there are fewer than twelve.
    pub fn decode(bytes: &[u8]) -> (r: Result<DnsHeader, DecodeError>)
        ensures
            bytes@.len() < 12 ==> r == Err::<DnsHeader, DecodeError>(DecodeError::TruncatedHeader),
            bytes@.len() >= 12 ==> r == Ok::<DnsHeader, DecodeError>(
                DnsHeader::spec_decode(bytes@),
            ),
            r is Ok ==> r->Ok_0.wf(),
    {
        if bytes.len() < HEADER_LEN {
            return Err(DecodeError::TruncatedHeader);
        }
        Ok(
            DnsHeader {
                id: read_u16(bytes, 0),
                flags: DnsHeaderFlags::from_bytes([bytes[2]]),
                flags2: DnsHeaderFlags2::from_bytes([bytes[3]]),
                question_count: read_u16(bytes, 4),
                answer_count: read_u16(bytes, 6),
                nscount: read_u16(bytes, 8),
                arcount: read_u16(bytes, 10),
            },
        )
    }

    /// Appends the twelve bytes of the header to `out`.
    pub fn write_to(&self, out: &mut Vec<u8>)
        ensures
            final(out)@ == old(out)@ + self.spec_encode(),
    {
        push_u16(out, self.id);
        out.push(self.flags.into_bytes()[0]);
        out.push(self.flags2.into_bytes()[0]);
        push_u16(out, self.question_count);
        push_u16(out, self.answer_count);
        push_u16(out, self.nscount);
        push_u16(out, self.arcount);
        proof {
            assert(out@ =~= old(out)@ + self.spec_encode());
        }
    }

    /// The twelve bytes of the header.
    pub fn encode(&self) -> (bytes: Vec<u8>)
        ensures
            bytes@ == self.spec_encode(),
            bytes@.len() == 12,
    {
        let mut out: Vec<u8> = Vec::new();
        self.write_to(&mut out);
        proof {
            assert(out@ =~= self.spec_encode());
        }
        out
    }

    /// A well-formed header is read back from its twelve bytes as it was
    /// written, whatever follows them.
    pub proof fn lemma_round_trip(self, buf: Seq<u8>)
        requires
            self.wf(),
            holds_at(buf, 0, self.spec_encode()),
        ensures
            DnsHeader::spec_decode(buf) == self,
    {
        let e = self.spec_encode();
        let w = buf.subrange(0, 12);
        assert(e.len() == 12);
        assert forall|i: int| 0 <= i < 12 implies buf[i] == e[i] by {
            assert(buf[i] == w[i]);
        }
        self.flags.lemma_round_trip();
        self.flags2.lemma_round_trip();
    }
}

impl Default for DnsHeaderFlags {
    fn default() -> (f: DnsHeaderFlags)
        ensures
            f == DnsHeaderFlags::spec_new(),
    {
        DnsHeaderFlags::new()
    }
}

impl Default for DnsHeaderFlags2 {
    fn default() -> (f: DnsHeaderFlags2)
        ensures
            f == DnsHeaderFlags2::spec_new(),
    {
        DnsHeaderFlags2::new()
    }
}

impl Default for DnsHeader {
    fn default() -> (h: DnsHeader)
        ensures
            h == DnsHeader::spec_new(),
    {
        DnsHeader::new()
    }
}

} // verus!
