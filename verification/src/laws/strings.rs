//! Strings and their length preambles are read back as they were written.
use crate::encoding::{
    concat, half_le, holds_at, lemma_concat_len, lemma_concat_uniform, lemma_half_len,
    lemma_holds_half, lemma_holds_part, lemma_holds_split, lemma_total_step, total,
};
use crate::grammar::{
    parse_string, parse_strings, parse_utf16_length, parse_utf8_length, units_at, until_zero,
};
use crate::laws::{lemma_string_wire_len, lemma_units_wire_len};
use crate::layout::{
    string_representable, string_size, string_sizes, string_wire, string_wires, units_wire,
    utf16_length_size, utf16_length_wire, utf8_length_size, utf8_length_wire,
};
use crate::parser::components_read::lemma_until_zero_split;
use crate::text::{encode_utf16, lemma_decode_utf16};
use vstd::prelude::*;
use vstd::utf8::{encode_utf8, encode_utf8_decode_utf8, encode_utf8_valid_utf8};

verus! {

/// The length before a UTF-8 string takes one byte up to 0x7F and two from
/// 0x80 on; the length before a UTF-16 string takes two bytes up to 0x7FFF
/// and four from 0x8000 on.
pub proof fn lemma_length_preamble_boundary(n: int)
    requires
        0 <= n,
    ensures
        utf8_length_wire(n).len() == (if n <= 0x7F {
            1int
        } else {
            2int
        }),
        utf16_length_wire(n).len() == (if n <= 0x7FFF {
            2int
        } else {
            4int
        }),
        utf8_length_wire(n).len() == utf8_length_size(n),
        utf16_length_wire(n).len() == utf16_length_size(n),
{
    broadcast use lemma_half_len;

}

/// A length written before a UTF-8 string is read back, in its short form
/// and in its long form.
pub proof fn lemma_utf8_length_round_trip(bytes: Seq<u8>, at: int, n: int)
    requires
        0 <= n < 0x8000,
        holds_at(bytes, at, utf8_length_wire(n)),
    ensures
        parse_utf8_length(bytes, at) == Ok::<(int, int), crate::grammar::ParseError>(
            (n, at + utf8_length_size(n)),
        ),
{
    let wire = utf8_length_wire(n);
    let held = bytes.subrange(at, at + wire.len());
    assert(held[0] == bytes[at]);
    if n > 0x7F {
        assert(held[1] == bytes[at + 1]);
    }
}

/// A length written before a UTF-16 string is read back, in its short form
/// and in its long form.
pub proof fn lemma_utf16_length_round_trip(bytes: Seq<u8>, at: int, n: int)
    requires
        0 <= n < 0x8000_0000,
        holds_at(bytes, at, utf16_length_wire(n)),
    ensures
        parse_utf16_length(bytes, at) == Ok::<(int, int), crate::grammar::ParseError>(
            (n, at + utf16_length_size(n)),
        ),
{
    broadcast use lemma_half_len;

    if n <= 0x7FFF {
        lemma_holds_half(bytes, at, n);
    } else {
        lemma_holds_split(bytes, at, half_le(0x8000 + n % 0x8000), half_le(n / 0x8000));
        lemma_holds_half(bytes, at, 0x8000 + n % 0x8000);
        lemma_holds_half(bytes, at + 2, n / 0x8000);
    }
}

/// Code units that the bytes hold are the units read there.
pub proof fn lemma_units_round_trip(bytes: Seq<u8>, at: int, units: Seq<u16>)
    requires
        holds_at(bytes, at, units_wire(units)),
    ensures
        units_at(bytes, at, units.len() as int) == units,
{
    broadcast use lemma_half_len;

    let parts = Seq::new(units.len(), |i: int| half_le(units[i] as int));
    assert forall|i: int| 0 <= i < units.len() implies units_at(bytes, at, units.len() as int)[i]
        == units[i] by {
        lemma_holds_part(bytes, at, parts, i);
        lemma_concat_uniform(parts.take(i), 2);
        lemma_holds_half(bytes, at + 2 * i, units[i] as int);
    }
    assert(units_at(bytes, at, units.len() as int) =~= units);
}

/// Bytes without a zero byte are their own part before the first zero byte.
pub proof fn lemma_until_zero_all(bytes: Seq<u8>)
    requires
        forall|i: int| 0 <= i < bytes.len() ==> bytes[i] != 0,
    ensures
        until_zero(bytes) == bytes,
{
    lemma_until_zero_split(bytes, bytes.len() as int);
    assert(bytes.take(bytes.len() as int) =~= bytes);
    assert(bytes.skip(bytes.len() as int) =~= Seq::<u8>::empty());
    assert(bytes + Seq::<u8>::empty() =~= bytes);
}

/// Whether a string of a pool is read back as it was written: its lengths
/// fit their preambles and, in UTF-8, none of its bytes is zero.
pub open spec fn string_readable(chars: Seq<char>, utf8: bool) -> bool {
    &&& string_representable(chars, utf8)
    &&& utf8 ==> forall|i: int| 0 <= i < encode_utf8(chars).len() ==> encode_utf8(chars)[i] != 0
}

/// A string of a pool is read back as it was written.
pub proof fn lemma_string_round_trip(bytes: Seq<u8>, at: int, chars: Seq<char>, utf8: bool)
    requires
        string_readable(chars, utf8),
        holds_at(bytes, at, string_wire(chars, utf8)),
    ensures
        parse_string(bytes, at, utf8) == Ok::<(Seq<char>, int), crate::grammar::ParseError>(
            (chars, at + string_size(chars, utf8)),
        ),
{
    broadcast use lemma_half_len;

    lemma_string_wire_len(chars, utf8);
    if utf8 {
        let encoded = encode_utf8(chars);
        let count = utf8_length_wire(chars.len() as int);
        let length = utf8_length_wire(encoded.len() as int);
        lemma_length_preamble_boundary(chars.len() as int);
        lemma_length_preamble_boundary(encoded.len() as int);
        lemma_holds_split(bytes, at, count + length + encoded, seq![0u8]);
        lemma_holds_split(bytes, at, count + length, encoded);
        lemma_holds_split(bytes, at, count, length);
        lemma_utf8_length_round_trip(bytes, at, chars.len() as int);
        lemma_utf8_length_round_trip(bytes, at + count.len(), encoded.len() as int);
        let start = at + count.len() + length.len();
        assert(bytes.subrange(start, start + encoded.len()) == encoded);
        lemma_until_zero_all(encoded);
        encode_utf8_valid_utf8(chars);
        encode_utf8_decode_utf8(chars);
    } else {
        let units = encode_utf16(chars);
        let length = utf16_length_wire(units.len() as int);
        lemma_length_preamble_boundary(units.len() as int);
        lemma_units_wire_len(units);
        lemma_holds_split(bytes, at, length + units_wire(units), half_le(0));
        lemma_holds_split(bytes, at, length, units_wire(units));
        lemma_utf16_length_round_trip(bytes, at, units.len() as int);
        lemma_units_round_trip(bytes, at + length.len(), units);
        lemma_decode_utf16(chars);
    }
}

/// The first `n` strings of a pool are read back as they were written.
pub proof fn lemma_strings_round_trip(
    bytes: Seq<u8>,
    at: int,
    strings: Seq<Seq<char>>,
    utf8: bool,
    n: int,
)
    requires
        0 <= n <= strings.len(),
        forall|i: int| 0 <= i < strings.len() ==> string_readable(#[trigger] strings[i], utf8),
        holds_at(bytes, at, concat(string_wires(strings, utf8))),
    ensures
        parse_strings(bytes, at, n, utf8) == Ok::<(Seq<Seq<char>>, int), crate::grammar::ParseError>(
            (strings.take(n), at + total(string_sizes(strings, utf8).take(n))),
        ),
    decreases n,
{
    if n == 0 {
        assert(strings.take(0) =~= Seq::<Seq<char>>::empty());
        assert(string_sizes(strings, utf8).take(0) =~= Seq::<int>::empty());
    } else {
        let wires = string_wires(strings, utf8);
        let sizes = string_sizes(strings, utf8);
        lemma_strings_round_trip(bytes, at, strings, utf8, n - 1);
        lemma_holds_part(bytes, at, wires, n - 1);
        assert forall|k: int| 0 <= k < n - 1 implies (#[trigger] wires.take(n - 1)[k]).len()
            == sizes.take(n - 1)[k] by {
            lemma_string_wire_len(strings[k], utf8);
        }
        lemma_concat_len(wires.take(n - 1), sizes.take(n - 1));
        lemma_string_round_trip(bytes, at + total(sizes.take(n - 1)), strings[n - 1], utf8);
        lemma_total_step(sizes, n - 1);
        assert(strings.take(n) =~= strings.take(n - 1).push(strings[n - 1]));
    }
}

} // verus!
