//! Wire format of a simplified DNS message: the fixed header, questions and
//! resource records, with the compression of domain names by back-reference.
//!
//! Every decoder is held to a specification function that reads a sequence of
//! bytes, every encoder to one that produces such a sequence, and the two are
//! proved to be inverse to each other on well-formed values.

pub mod error;
pub mod wire;
pub mod header;
pub mod label;
pub mod question;
pub mod record;
pub mod message;
pub mod reply;
