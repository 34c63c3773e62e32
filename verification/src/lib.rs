//! A wire-format codec for DNS messages over a fixed 512-byte buffer.
//!
//! The buffer keeps a read cursor and a write cursor. On top of it stand a
//! big-endian integer codec, a domain-name codec that follows compression
//! pointers under a step limit, and decoders for the header, the questions
//! and the resource records of a message.

pub mod buffer;
pub mod decoded;
pub mod error;
pub mod header;
pub mod name;
pub mod packet;
pub mod query_type;
pub mod question;
pub mod record;
pub mod name_laws;
pub mod uint;
