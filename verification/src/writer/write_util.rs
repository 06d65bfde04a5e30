//! Appending integers, bytes and code units to a byte buffer.
use crate::encoding::{concat, half_le, lemma_concat_step, lemma_concat_uniform, word_le, zeros};
use crate::layout::units_wire;
use crate::text::{encode_utf16, utf16_units};
use vstd::prelude::*;

verus! {

/// Appends one byte.
pub fn write_u8(output: &mut Vec<u8>, data: u8) -> (written: usize)
    ensures
        final(output)@ == old(output)@ + seq![data],
        written == 1,
{
    output.push(data);
    assert(output@ =~= old(output)@ + seq![data]);
    1
}

/// Appends a 16-bit value, low byte first.
pub fn write_u16(output: &mut Vec<u8>, data: u16) -> (written: usize)
    ensures
        final(output)@ == old(output)@ + half_le(data as int),
        written == 2,
{
    output.push((data % 256) as u8);
    output.push((data / 256) as u8);
    proof {
        reveal(half_le);
        assert(output@ =~= old(output)@ + half_le(data as int));
    }
    2
}

/// Appends a 32-bit value, low byte first.
pub fn write_u32(output: &mut Vec<u8>, data: u32) -> (written: usize)
    ensures
        final(output)@ == old(output)@ + word_le(data as int),
        written == 4,
{
    output.push((data % 256) as u8);
    output.push(((data / 256) % 256) as u8);
    output.push(((data / 65536) % 256) as u8);
    output.push((data / 16777216) as u8);
    proof {
        reveal(word_le);
        assert(output@ =~= old(output)@ + word_le(data as int));
    }
    4
}

/// Appends `bytes` as they are.
pub fn write_bytes(output: &mut Vec<u8>, bytes: &[u8]) -> (written: usize)
    ensures
        final(output)@ == old(output)@ + bytes@,
        written == bytes@.len(),
{
    let mut i: usize = 0;
    while i < bytes.len()
        invariant
            i <= bytes@.len(),
            output@ == old(output)@ + bytes@.take(i as int),
        decreases bytes@.len() - i,
    {
        output.push(bytes[i]);
        assert(bytes@.take(i + 1) =~= bytes@.take(i as int).push(bytes@[i as int]));
        i += 1;
    }
    assert(bytes@.take(i as int) =~= bytes@);
    i
}

/// Appends `count` zero bytes.
pub fn write_zeros(output: &mut Vec<u8>, count: usize) -> (written: usize)
    ensures
        final(output)@ == old(output)@ + zeros(count as int),
        written == count,
{
    let mut i: usize = 0;
    while i < count
        invariant
            i <= count,
            output@ == old(output)@ + zeros(i as int),
        decreases count - i,
    {
        output.push(0u8);
        assert(zeros(i + 1) =~= zeros(i as int).push(0u8));
        i += 1;
    }
    i
}

/// Appends code units, each low byte first.
pub fn write_units(output: &mut Vec<u8>, units: &Vec<u16>) -> (written: usize)
    ensures
        final(output)@ == old(output)@ + units_wire(units@),
        written == 2 * units@.len(),
{
    let ghost parts = Seq::new(units@.len(), |i: int| half_le(units@[i] as int));
    let mut i: usize = 0;
    let mut written: usize = 0;
    while i < units.len()
        invariant
            i <= units@.len(),
            written == 2 * i,
            parts == Seq::new(units@.len(), |i: int| half_le(units@[i] as int)),
            output@ == old(output)@ + concat(parts.take(i as int)),
        decreases units@.len() - i,
    {
        write_u16(output, units[i]);
        proof {
            broadcast use crate::encoding::lemma_half_len;

            lemma_concat_step(parts, i as int);
            lemma_concat_uniform(parts.take(i + 1), 2);
            assert(output@ =~= old(output)@ + concat(parts.take(i + 1)));
            assert(output.len() <= usize::MAX);
        }
        written += 2;
        i += 1;
    }
    assert(parts.take(i as int) =~= parts);
    written
}

/// Appends `string` as UTF-16 code units, each low byte first, without any
/// padding or closing unit. Returns the number of bytes appended.
pub fn write_string_utf16(output: &mut Vec<u8>, string: &str) -> (written: usize)
    ensures
        final(output)@ == old(output)@ + units_wire(encode_utf16(string@)),
        written == 2 * encode_utf16(string@).len(),
{
    let units = utf16_units(string);
    write_units(output, &units)
}

} // verus!
