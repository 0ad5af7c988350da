use vstd::prelude::*;

verus! {

/// Why a buffer could not be decoded, or a value could not be read as asked.
#[derive(Clone, Copy, Debug, PartialEq, Eq, Structural)]
pub enum DecodeError {
    /// Fewer than twelve bytes were there for the header.
    TruncatedHeader,
    /// The buffer ended inside a domain name.
    TruncatedLabel,
    /// A compression pointer aims at its own position or behind it.
    InvalidPointer,
    /// More compression pointers in a row than a name may follow.
    CompressionLoopExceeded,
    /// The length of a record's data does not fit the record's type.
    MalformedRecordData,
    /// A record's data was asked for in a form that its type does not have.
    UnsupportedType,
    /// The buffer ended inside the fixed-width fields of a question or of a
    /// record, or inside a record's data.
    TruncatedMessage,
}

} // verus!
