//! The parser: from bytes to the tree of a table.
use crate::components::Arsc;
use crate::grammar::{parse_table, ParseError};
use vstd::prelude::*;

pub mod components_read;
pub mod parsing;
pub mod read_util;

verus! {

/// Reads `input` as a table: the table that the grammar gives for these
/// bytes, or the error that it gives.
pub fn parse(input: &[u8]) -> (result: Result<Arsc, ParseError>)
    ensures
        match (result, parse_table(input@)) {
            (Ok(table), Ok(view)) => table@ == view,
            (Err(found), Err(error)) => found == error,
            _ => false,
        },
{
    Arsc::parse(input)
}

} // verus!
