//! Reading integers and fixed fields from a byte slice.
use crate::encoding::{half_at, signed_word_at, word_at};
use crate::grammar::{body_start, can_read, units_at, until_zero_unit, ParseError};
use crate::text::{decode_utf16, lemma_encode_utf16_injective, string_from_utf16, valid_utf16};
use vstd::prelude::*;

verus! {

/// Whether `count` bytes can be read at `at`.
pub fn available(input: &[u8], at: usize, count: u64) -> (enough: bool)
    ensures
        enough == can_read(input@, at as int, count as int),
        input@.len() <= usize::MAX,
{
    at <= input.len() && count <= (input.len() - at) as u64
}

/// The byte at `at`.
pub fn peek_u8(input: &[u8], at: usize) -> (value: u8)
    requires
        can_read(input@, at as int, 1),
    ensures
        value == input@[at as int],
{
    input[at]
}

/// The unsigned 16-bit value at `at`, low byte first.
pub fn peek_u16(input: &[u8], at: usize) -> (value: u16)
    requires
        can_read(input@, at as int, 2),
    ensures
        value == half_at(input@, at as int),
{
    input[at] as u16 + 256 * (input[at + 1] as u16)
}

/// The unsigned 32-bit value at `at`, low byte first.
pub fn peek_u32(input: &[u8], at: usize) -> (value: u32)
    requires
        can_read(input@, at as int, 4),
    ensures
        value == word_at(input@, at as int),
{
    input[at] as u32 + 256 * (input[at + 1] as u32) + 65536 * (input[at + 2] as u32) + 16777216
        * (input[at + 3] as u32)
}

/// The signed 32-bit value at `at`, low byte first, in two's complement.
pub fn peek_i32(input: &[u8], at: usize) -> (value: i32)
    requires
        can_read(input@, at as int, 4),
    ensures
        value == signed_word_at(input@, at as int),
{
    let word = peek_u32(input, at);
    if word >= 0x8000_0000 {
        (word as i64 - 0x1_0000_0000) as i32
    } else {
        word as i32
    }
}

/// Reads one byte at `position` and moves `position` behind it.
pub fn read_u8(input: &[u8], position: &mut usize) -> (result: Result<u8, ParseError>)
    ensures
        match result {
            Ok(value) => {
                &&& can_read(input@, *old(position) as int, 1)
                &&& value == input@[*old(position) as int]
                &&& *final(position) == *old(position) + 1
            },
            Err(error) => {
                &&& !can_read(input@, *old(position) as int, 1)
                &&& error == ParseError::UnexpectedEof
                &&& *final(position) == *old(position)
            },
        },
{
    if !available(input, *position, 1) {
        return Err(ParseError::UnexpectedEof);
    }
    let value = peek_u8(input, *position);
    *position = *position + 1;
    Ok(value)
}

/// Reads an unsigned 16-bit value at `position` and moves `position` behind it.
pub fn read_u16(input: &[u8], position: &mut usize) -> (result: Result<u16, ParseError>)
    ensures
        match result {
            Ok(value) => {
                &&& can_read(input@, *old(position) as int, 2)
                &&& value == half_at(input@, *old(position) as int)
                &&& *final(position) == *old(position) + 2
            },
            Err(error) => {
                &&& !can_read(input@, *old(position) as int, 2)
                &&& error == ParseError::UnexpectedEof
                &&& *final(position) == *old(position)
            },
        },
{
    if !available(input, *position, 2) {
        return Err(ParseError::UnexpectedEof);
    }
    let value = peek_u16(input, *position);
    *position = *position + 2;
    Ok(value)
}

/// Reads an unsigned 32-bit value at `position` and moves `position` behind it.
pub fn read_u32(input: &[u8], position: &mut usize) -> (result: Result<u32, ParseError>)
    ensures
        match result {
            Ok(value) => {
                &&& can_read(input@, *old(position) as int, 4)
                &&& value == word_at(input@, *old(position) as int)
                &&& *final(position) == *old(position) + 4
            },
            Err(error) => {
                &&& !can_read(input@, *old(position) as int, 4)
                &&& error == ParseError::UnexpectedEof
                &&& *final(position) == *old(position)
            },
        },
{
    if !available(input, *position, 4) {
        return Err(ParseError::UnexpectedEof);
    }
    let value = peek_u32(input, *position);
    *position = *position + 4;
    Ok(value)
}

/// Reads a signed 32-bit value at `position` and moves `position` behind it.
pub fn read_i32(input: &[u8], position: &mut usize) -> (result: Result<i32, ParseError>)
    ensures
        match result {
            Ok(value) => {
                &&& can_read(input@, *old(position) as int, 4)
                &&& value == signed_word_at(input@, *old(position) as int)
                &&& *final(position) == *old(position) + 4
            },
            Err(error) => {
                &&& !can_read(input@, *old(position) as int, 4)
                &&& error == ParseError::UnexpectedEof
                &&& *final(position) == *old(position)
            },
        },
{
    if !available(input, *position, 4) {
        return Err(ParseError::UnexpectedEof);
    }
    let value = peek_i32(input, *position);
    *position = *position + 4;
    Ok(value)
}

/// Where the body of a chunk starts: behind the known fields, or where the
/// chunk's `header_size` says if that lies further on. `None` if that lies
/// beyond the input.
pub fn skip_header(input: &[u8], known_end: usize, base: usize, header_size: u16) -> (start: Option<
    usize,
>)
    ensures
        match start {
            Some(start) => start == body_start(known_end as int, base as int, header_size as int)
                && start <= input@.len(),
            None => body_start(known_end as int, base as int, header_size as int) > input@.len(),
        },
{
    if known_end > input.len() {
        None
    } else if base <= known_end && header_size as usize <= known_end - base {
        Some(known_end)
    } else if !available(input, base, header_size as u64) {
        None
    } else {
        Some(base + header_size as usize)
    }
}

/// What `until_zero_unit` gives for units of which the first `i` are not zero.
pub proof fn lemma_until_zero_unit_split(units: Seq<u16>, i: int)
    requires
        0 <= i <= units.len(),
        forall|j: int| 0 <= j < i ==> units[j] != 0,
    ensures
        until_zero_unit(units) == units.take(i) + until_zero_unit(units.skip(i)),
    decreases i,
{
    if i == 0 {
        assert(units.skip(0) =~= units);
        assert(units.take(0) + until_zero_unit(units) =~= until_zero_unit(units));
    } else {
        let rest = units.drop_first();
        assert forall|j: int| 0 <= j < i - 1 implies rest[j] != 0 by {
            assert(rest[j] == units[j + 1]);
        }
        lemma_until_zero_unit_split(rest, i - 1);
        assert(rest.skip(i - 1) =~= units.skip(i));
        assert(seq![units[0]] + rest.take(i - 1) =~= units.take(i));
        assert(seq![units[0]] + (rest.take(i - 1) + until_zero_unit(rest.skip(i - 1)))
            =~= units.take(i) + until_zero_unit(units.skip(i)));
    }
}

/// Reads a string from a field of `SIZE` UTF-16 code units at `position`: the
/// units before the first zero unit, or all of them if none is zero. Moves
/// `position` behind the field, whatever the length of the string.
pub fn read_string_utf16<const SIZE: usize>(input: &[u8], position: &mut usize) -> (result: Result<
    String,
    ParseError,
>)
    requires
        2 * SIZE <= u32::MAX,
    ensures
        input@.len() <= usize::MAX,
        match result {
            Ok(text) => {
                &&& can_read(input@, *old(position) as int, 2 * SIZE)
                &&& valid_utf16(until_zero_unit(units_at(input@, *old(position) as int, SIZE as int)))
                &&& text@ == decode_utf16(
                    until_zero_unit(units_at(input@, *old(position) as int, SIZE as int)),
                )
                &&& *final(position) == *old(position) + 2 * SIZE
            },
            Err(error) => {
                &&& *final(position) == *old(position)
                &&& if !can_read(input@, *old(position) as int, 2 * SIZE) {
                    error == ParseError::UnexpectedEof
                } else {
                    &&& !valid_utf16(
                        until_zero_unit(units_at(input@, *old(position) as int, SIZE as int)),
                    )
                    &&& error == ParseError::InvalidString
                }
            },
        },
{
    let at = *position;
    if !available(input, at, 2 * SIZE as u64) {
        return Err(ParseError::UnexpectedEof);
    }
    let ghost field = units_at(input@, at as int, SIZE as int);
    let mut units: Vec<u16> = Vec::new();
    let mut i: usize = 0;
    let mut ended = false;
    while i < SIZE && !ended
        invariant
            i <= SIZE,
            2 * SIZE <= u32::MAX,
            can_read(input@, at as int, 2 * SIZE),
            input@.len() <= usize::MAX,
            field == units_at(input@, at as int, SIZE as int),
            units@ == field.take(i as int),
            forall|j: int| 0 <= j < i ==> field[j] != 0,
            ended ==> i < SIZE && field[i as int] == 0,
        decreases SIZE - i + (if ended { 0int } else { 1int }),
    {
        let unit = peek_u16(input, at + 2 * i);
        if unit == 0 {
            ended = true;
        } else {
            units.push(unit);
            assert(units@ =~= field.take(i + 1));
            i += 1;
        }
    }
    proof {
        lemma_until_zero_unit_split(field, i as int);
        if i < SIZE {
            assert(field.skip(i as int)[0] == 0);
        } else {
            assert(field.skip(i as int).len() == 0);
        }
        assert(units@ =~= until_zero_unit(field));
    }
    match string_from_utf16(&units) {
        None => Err(ParseError::InvalidString),
        Some(text) => {
            proof {
                lemma_encode_utf16_injective(text@, decode_utf16(units@));
            }
            *position = at + 2 * SIZE;
            Ok(text)
        },
    }
}

} // verus!
