//! A writer that keeps count of what it has written.
use crate::components::Arsc;
use crate::laws::lemma_table_wire_len;
use crate::writer::WriteError;
use vstd::prelude::*;

verus! {

/// A byte buffer and the number of bytes written to it through the writer.
pub struct Writer {
    writer: Vec<u8>,
    position: usize,
}

impl Writer {
    /// The count is never more than what the buffer holds.
    #[verifier::type_invariant]
    spec fn counted(&self) -> bool {
        self.position <= self.writer@.len()
    }

    /// What the buffer holds.
    pub closed spec fn bytes(&self) -> Seq<u8> {
        self.writer@
    }

    /// The number of bytes written through the writer.
    pub closed spec fn spec_position(&self) -> int {
        self.position as int
    }

    /// A writer that appends to `writer` and has written nothing yet.
    pub fn new(writer: Vec<u8>) -> (made: Writer)
        ensures
            made.bytes() == writer@,
            made.spec_position() == 0,
    {
        Writer { writer, position: 0 }
    }

    /// The number of bytes written through the writer.
    pub fn position(&self) -> (position: usize)
        ensures
            position == self.spec_position(),
    {
        self.position
    }

    /// Appends the table and returns the number of bytes written through the
    /// writer so far. A table that does not fit the format is refused and
    /// nothing is written.
    pub fn write(&mut self, arsc: &Arsc) -> (result: Result<usize, WriteError>)
        ensures
            match result {
                Ok(position) => {
                    &&& arsc@.representable()
                    &&& final(self).bytes() == old(self).bytes() + arsc@.wire()
                    &&& position == old(self).spec_position() + arsc@.size()
                    &&& final(self).spec_position() == position
                },
                Err(error) => {
                    &&& !arsc@.representable()
                    &&& error == WriteError::NotRepresentable
                    &&& final(self).bytes() == old(self).bytes()
                    &&& final(self).spec_position() == old(self).spec_position()
                },
            },
    {
        proof {
            use_type_invariant(&*self);
        }
        match arsc.size() {
            None => Err(WriteError::NotRepresentable),
            Some(_) => {
                proof {
                    lemma_table_wire_len(arsc@);
                }
                // The buffer is taken out while the table is appended to it, and the
                // count is brought up once it is back.
                let counted = self.position;
                let mut buffer: Vec<u8> = Vec::new();
                self.position = 0;
                core::mem::swap(&mut buffer, &mut self.writer);
                let written = arsc.write(&mut buffer);
                assert(buffer.len() <= usize::MAX);
                core::mem::swap(&mut buffer, &mut self.writer);
                self.position = counted + written;
                Ok(self.position)
            },
        }
    }

    /// The buffer, with all that was written.
    pub fn into_inner(self) -> (writer: Vec<u8>)
        ensures
            writer@ == self.bytes(),
    {
        self.writer
    }
}

} // verus!
