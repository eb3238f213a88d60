//! An IMAP4rev1 (RFC 3501) syntax layer: validated model types for the
//! protocol's core productions, together with parsers and encoders that are
//! proved to round-trip.
//!
//! The library is purely computational: it neither opens sockets nor keeps
//! session state.  Callers hand it byte buffers and receive model values, or
//! hand it model values and receive wire bytes.

pub mod astring;
pub mod atoms;
pub mod chars;
pub mod command;
pub mod compress;
pub mod encode;
pub mod parse;
pub mod quoted;
pub mod list;
pub mod literal;
pub mod sort;
pub mod strings;
