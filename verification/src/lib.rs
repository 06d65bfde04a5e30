//! `arsc` reads and writes Android compiled resource tables.
//!
//! A table is parsed from bytes into a tree of packages, types, configurations
//! and string pools, and written back to bytes. Every chunk's size is planned
//! before any byte is emitted, so that the offsets written ahead of their
//! targets agree with what follows.
//!
//! - [`components`] holds the model and the mathematical view of each node.
//! - [`layout`] says what bytes each node is written as, and [`writer`] writes
//!   them.
//! - [`grammar`] says what table a sequence of bytes stands for, and
//!   [`parser`] reads it.
//! - [`laws`] proves that the two agree: what is written is read back, sizes
//!   are as planned, and offsets lead to what they announce.
use crate::grammar::parse_table;
use vstd::prelude::*;

pub mod components;
pub mod encoding;
pub mod grammar;
pub mod laws;
pub mod layout;
pub mod parser;
pub mod text;
pub mod writer;

pub use crate::components::{
    Arsc, Config, Header, Package, ResourceEntry, ResourceType, ResourceValue, Spec, Specs,
    StringPool, Style, StyleSpan, Type, Value,
};
pub use crate::grammar::ParseError;
pub use crate::writer::WriteError;

verus! {

/// Reads `input` as a table: the table that the grammar gives for these
/// bytes, or the error that it gives.
pub fn parse_from(input: &[u8]) -> (result: Result<Arsc, ParseError>)
    ensures
        match (result, parse_table(input@)) {
            (Ok(table), Ok(view)) => table@ == view,
            (Err(found), Err(error)) => found == error,
            _ => false,
        },
{
    parser::parse(input)
}

/// Appends the wire form of `arsc` to `output` and returns the number of
/// bytes appended, which is the planned size of the table. A table that does
/// not fit the format is refused and `output` is left as it was.
pub fn write_to(arsc: &Arsc, output: &mut Vec<u8>) -> (result: Result<usize, WriteError>)
    ensures
        match result {
            Ok(written) => {
                &&& arsc@.representable()
                &&& final(output)@ == old(output)@ + arsc@.wire()
                &&& written == arsc@.size()
            },
            Err(error) => {
                &&& !arsc@.representable()
                &&& error == WriteError::NotRepresentable
                &&& final(output)@ == old(output)@
            },
        },
{
    writer::write(arsc, output)
}

} // verus!
