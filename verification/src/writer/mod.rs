//! The writer: sizes are planned first, bytes are emitted second.
use crate::components::Arsc;
use crate::laws::lemma_table_wire_len;
use vstd::prelude::*;

pub mod components_sizing;
pub mod components_writing;
pub mod with_header;
pub mod write_util;
pub mod writing;

verus! {

/// Why a table was not written.
#[derive(Debug, Clone, Copy, PartialEq, Eq, Structural)]
pub enum WriteError {
    /// A count, an index, a length or a size of the table does not fit the
    /// field that the format has for it.
    NotRepresentable,
}

/// Appends the wire form of `arsc` to `output` and returns the number of
/// bytes appended, which is the planned size of the table. A table that does
/// not fit the format is refused and `output` is left as it was.
pub fn write(arsc: &Arsc, output: &mut Vec<u8>) -> (result: Result<usize, WriteError>)
    ensures
        match result {
            Ok(written) => {
                &&& arsc@.representable()
                &&& final(output)@ == old(output)@ + arsc@.wire()
                &&& written == arsc@.size()
            },
            Err(error) => {
                &&& !arsc@.representable()
                &&& error == WriteError::NotRepresentable
                &&& final(output)@ == old(output)@
            },
        },
{
    match arsc.size() {
        None => Err(WriteError::NotRepresentable),
        Some(_) => {
            proof {
                lemma_table_wire_len(arsc@);
            }
            Ok(arsc.write(output))
        },
    }
}

} // verus!
