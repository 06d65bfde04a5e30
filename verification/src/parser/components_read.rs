//! Reading each node of a table from its place in the input.
use crate::components::{
    Arsc, Config, ConfigView, Header, Package, ResourceEntry, ResourceEntryView, ResourceType,
    ResourceValue, Spec, Specs, SpecsView, StringPool, Style, StyleSpan, Type, TypeView, Value,
    RES_STRING_POOL_SPAN_END, UTF8_FLAG,
};
use crate::encoding::word_at;
use crate::grammar::{
    attach_config, attach_specs, bag_at, can_read, empty_types, entries_below, named_by,
    named_specs, named_type, named_types, parse_chunks, parse_config, parse_entries, parse_entry,
    parse_header, parse_package, parse_packages, parse_specs, parse_string_pool, parse_strings,
    parse_style, parse_styles, parse_table, parse_utf16_length, parse_utf16_string,
    parse_utf8_length, parse_utf8_string, span_at, specs_at, units_at, until_zero, until_zero_unit,
    value_at, ParseError,
};
use crate::parser::read_util::{
    available, peek_i32, peek_u16, peek_u32, peek_u8, read_string_utf16, skip_header,
};
use crate::text::{
    decode_utf16, lemma_encode_utf16_injective, string_from_utf16, string_from_utf8, valid_utf16,
};
use crate::writer::components_sizing::{
    keys_below, lemma_keys_below_all, lemma_keys_below_step, padding,
};
use std::collections::BTreeMap;
use vstd::prelude::*;

verus! {

broadcast use {
    vstd::std_specs::btree::group_btree_axioms,
    vstd::laws_cmp::group_laws_cmp,
    vstd::set::group_set_axioms,
};

/// Whether `result` is what the grammar gives: the value with this view and
/// the same end, or the same error.
pub open spec fn parsed_as<T: View>(
    result: Result<(T, usize), ParseError>,
    expected: Result<(T::V, int), ParseError>,
) -> bool {
    match (result, expected) {
        (Ok((value, next)), Ok((view, end))) => value@ == view && next == end,
        (Err(found), Err(error)) => found == error,
        _ => false,
    }
}

/// Whether `result` is the length and the end that the grammar gives, or the
/// same error.
pub open spec fn measured_as(
    result: Result<(usize, usize), ParseError>,
    expected: Result<(int, int), ParseError>,
) -> bool {
    match (result, expected) {
        (Ok((length, next)), Ok((value, end))) => length == value && next == end,
        (Err(found), Err(error)) => found == error,
        _ => false,
    }
}

impl Header {
    /// Reads the tag of a chunk at `at`.
    pub fn parse(input: &[u8], at: usize) -> (result: Result<Header, ParseError>)
        ensures
            result == parse_header(input@, at as int),
            result is Ok ==> can_read(input@, at as int, 8),
    {
        if !available(input, at, 2) {
            return Err(ParseError::UnexpectedEof);
        }
        let type_bits = peek_u16(input, at);
        match ResourceType::from_code(type_bits) {
            None => Err(ParseError::UnknownChunkType),
            Some(resource_type) => {
                if !available(input, at, 8) {
                    return Err(ParseError::UnexpectedEof);
                }
                let header_size = peek_u16(input, at + 2);
                let size = peek_u32(input, at + 4) as u64;
                Ok(Header { resource_type, header_size, size })
            },
        }
    }
}

/// What `until_zero` gives for bytes of which the first `i` are not zero.
pub proof fn lemma_until_zero_split(bytes: Seq<u8>, i: int)
    requires
        0 <= i <= bytes.len(),
        forall|j: int| 0 <= j < i ==> bytes[j] != 0,
    ensures
        until_zero(bytes) == bytes.take(i) + until_zero(bytes.skip(i)),
    decreases i,
{
    if i == 0 {
        assert(bytes.skip(0) =~= bytes);
        assert(bytes.take(0) + until_zero(bytes) =~= until_zero(bytes));
    } else {
        let rest = bytes.drop_first();
        assert forall|j: int| 0 <= j < i - 1 implies rest[j] != 0 by {
            assert(rest[j] == bytes[j + 1]);
        }
        lemma_until_zero_split(rest, i - 1);
        assert(rest.skip(i - 1) =~= bytes.skip(i));
        assert(seq![bytes[0]] + rest.take(i - 1) =~= bytes.take(i));
        assert(seq![bytes[0]] + (rest.take(i - 1) + until_zero(rest.skip(i - 1))) =~= bytes.take(i)
            + until_zero(bytes.skip(i)));
    }
}

impl StringPool {
    /// Reads a length before a UTF-8 string: one byte, or two if the first
    /// has its high bit set.
    pub fn utf8_length(input: &[u8], at: usize) -> (result: Result<(usize, usize), ParseError>)
        ensures
            measured_as(result, parse_utf8_length(input@, at as int)),
            result matches Ok((length, next)) ==> length < 0x8000 && at < next <= input@.len(),
    {
        if !available(input, at, 1) {
            return Err(ParseError::UnexpectedEof);
        }
        let first = peek_u8(input, at) as usize;
        if first < 0x80 {
            return Ok((first, at + 1));
        }
        if !available(input, at, 2) {
            return Err(ParseError::UnexpectedEof);
        }
        let second = peek_u8(input, at + 1) as usize;
        Ok(((first - 0x80) * 256 + second, at + 2))
    }

    /// Reads a length before a UTF-16 string: one 16-bit word, or two if the
    /// first has its high bit set.
    pub fn utf16_length(input: &[u8], at: usize) -> (result: Result<(usize, usize), ParseError>)
        ensures
            measured_as(result, parse_utf16_length(input@, at as int)),
            result matches Ok((length, next)) ==> length < 0x8000_0000 && at < next
                <= input@.len(),
    {
        if !available(input, at, 2) {
            return Err(ParseError::UnexpectedEof);
        }
        let first = peek_u16(input, at) as usize;
        if first < 0x8000 {
            return Ok((first, at + 2));
        }
        if !available(input, at, 4) {
            return Err(ParseError::UnexpectedEof);
        }
        let second = peek_u16(input, at + 2) as usize;
        Ok(((first - 0x8000) + second * 0x8000, at + 4))
    }

    /// Reads one string stored as UTF-8.
    pub fn read_utf8_string_item(input: &[u8], at: usize) -> (result: Result<
        (String, usize),
        ParseError,
    >)
        ensures
            parsed_as(result, parse_utf8_string(input@, at as int)),
            result matches Ok((_, next)) ==> at < next <= input@.len(),
    {
        let (_char_count, after_chars) = match StringPool::utf8_length(input, at) {
            Err(error) => {
                return Err(error);
            },
            Ok(measured) => measured,
        };
        let (byte_count, start) = match StringPool::utf8_length(input, after_chars) {
            Err(error) => {
                return Err(error);
            },
            Ok(measured) => measured,
        };
        if !available(input, start, byte_count as u64 + 1) {
            return Err(ParseError::UnexpectedEof);
        }
        let ghost payload = input@.subrange(start as int, start + byte_count);
        let mut string_bytes: Vec<u8> = Vec::new();
        let mut i: usize = 0;
        let mut ended = false;
        while i < byte_count && !ended
            invariant
                i <= byte_count,
                can_read(input@, start as int, byte_count + 1),
                input@.len() <= usize::MAX,
                payload == input@.subrange(start as int, start + byte_count),
                string_bytes@ == payload.take(i as int),
                forall|j: int| 0 <= j < i ==> payload[j] != 0,
                ended ==> i < byte_count && payload[i as int] == 0,
            decreases byte_count - i + (if ended { 0int } else { 1int }),
        {
            let byte = peek_u8(input, start + i);
            if byte == 0 {
                ended = true;
            } else {
                string_bytes.push(byte);
                assert(string_bytes@ =~= payload.take(i + 1));
                i += 1;
            }
        }
        proof {
            lemma_until_zero_split(payload, i as int);
            if i < byte_count {
                assert(payload.skip(i as int)[0] == 0);
            } else {
                assert(payload.skip(i as int).len() == 0);
            }
            assert(string_bytes@ =~= until_zero(payload));
        }
        match string_from_utf8(string_bytes) {
            None => Err(ParseError::InvalidString),
            Some(text) => Ok((text, start + byte_count + 1)),
        }
    }

    /// Reads one string stored as UTF-16.
    pub fn read_utf16_string_item(input: &[u8], at: usize) -> (result: Result<
        (String, usize),
        ParseError,
    >)
        ensures
            parsed_as(result, parse_utf16_string(input@, at as int)),
            result matches Ok((_, next)) ==> at < next <= input@.len(),
    {
        let (unit_count, start) = match StringPool::utf16_length(input, at) {
            Err(error) => {
                return Err(error);
            },
            Ok(measured) => measured,
        };
        if !available(input, start, 2 * (unit_count as u64) + 2) {
            return Err(ParseError::UnexpectedEof);
        }
        let ghost field = units_at(input@, start as int, unit_count as int);
        let mut units: Vec<u16> = Vec::new();
        let mut i: usize = 0;
        while i < unit_count
            invariant
                i <= unit_count,
                can_read(input@, start as int, 2 * unit_count + 2),
                input@.len() <= usize::MAX,
                field == units_at(input@, start as int, unit_count as int),
                units@ == field.take(i as int),
            decreases unit_count - i,
        {
            units.push(peek_u16(input, start + 2 * i));
            assert(units@ =~= field.take(i + 1));
            i += 1;
        }
        assert(units@ =~= field);
        match string_from_utf16(&units) {
            None => Err(ParseError::InvalidString),
            Some(text) => {
                proof {
                    lemma_encode_utf16_injective(text@, decode_utf16(units@));
                }
                Ok((text, start + 2 * unit_count + 2))
            },
        }
    }
}

impl Style {
    /// Reads one style: spans up to the word that ends them.
    pub fn parse(input: &[u8], at: usize) -> (result: Result<(Style, usize), ParseError>)
        ensures
            parsed_as(result, parse_style(input@, at as int)),
            result matches Ok((_, next)) ==> at < next <= input@.len(),
    {
        let mut spans: Vec<StyleSpan> = Vec::new();
        let mut cursor = at;
        loop
            invariant
                at <= cursor,
                match parse_style(input@, cursor as int) {
                    Ok((rest, next)) => parse_style(input@, at as int) == Ok::<
                        (Seq<StyleSpan>, int),
                        ParseError,
                    >((spans@ + rest, next)),
                    Err(error) => parse_style(input@, at as int) == Err::<
                        (Seq<StyleSpan>, int),
                        ParseError,
                    >(error),
                },
            decreases input@.len() - cursor,
        {
            if !available(input, cursor, 4) {
                return Err(ParseError::UnexpectedEof);
            }
            let name = peek_u32(input, cursor);
            if name == RES_STRING_POOL_SPAN_END {
                assert(spans@ + Seq::<StyleSpan>::empty() =~= spans@);
                return Ok((Style { spans }, cursor + 4));
            }
            if !available(input, cursor, 12) {
                return Err(ParseError::UnexpectedEof);
            }
            let start = peek_u32(input, cursor + 4);
            let end = peek_u32(input, cursor + 8);
            proof {
                let span = span_at(input@, cursor as int);
                if let Ok((rest, next)) = parse_style(input@, cursor + 12) {
                    assert(spans@ + (seq![span] + rest) =~= spans@.push(span) + rest);
                }
            }
            spans.push(StyleSpan { name, start, end });
            cursor = cursor + 12;
        }
    }
}

/// Once reading strings has failed, reading more of them fails in the same way.
pub proof fn lemma_parse_strings_error(bytes: Seq<u8>, at: int, i: int, n: int, utf8: bool)
    requires
        0 <= i <= n,
        parse_strings(bytes, at, i, utf8) is Err,
    ensures
        parse_strings(bytes, at, n, utf8) == parse_strings(bytes, at, i, utf8),
    decreases n - i,
{
    if i < n {
        lemma_parse_strings_error(bytes, at, i, n - 1, utf8);
    }
}

/// Once reading styles has failed, reading more of them fails in the same way.
pub proof fn lemma_parse_styles_error(bytes: Seq<u8>, at: int, i: int, n: int)
    requires
        0 <= i <= n,
        parse_styles(bytes, at, i) is Err,
    ensures
        parse_styles(bytes, at, n) == parse_styles(bytes, at, i),
    decreases n - i,
{
    if i < n {
        lemma_parse_styles_error(bytes, at, i, n - 1);
    }
}

/// The views of the strings.
pub open spec fn views_of_strings(strings: Seq<String>) -> Seq<Seq<char>> {
    Seq::new(strings.len(), |i: int| strings[i]@)
}

/// The views of the styles.
pub open spec fn views_of_styles(styles: Seq<Style>) -> Seq<Seq<StyleSpan>> {
    Seq::new(styles.len(), |i: int| styles[i]@)
}

impl StringPool {
    /// Reads `count` strings, one after the other, from `at` on.
    pub fn parse_strings(input: &[u8], at: usize, count: usize, utf8: bool) -> (result: Result<
        (Vec<String>, usize),
        ParseError,
    >)
        ensures
            match (result, parse_strings(input@, at as int, count as int, utf8)) {
                (Ok((strings, next)), Ok((views, end))) => views_of_strings(strings@) == views
                    && next == end && at <= next,
                (Err(found), Err(error)) => found == error,
                _ => false,
            },
    {
        let mut strings: Vec<String> = Vec::new();
        let mut cursor = at;
        let mut i: usize = 0;
        assert(views_of_strings(strings@) =~= Seq::<Seq<char>>::empty());
        while i < count
            invariant
                i <= count,
                at <= cursor,
                parse_strings(input@, at as int, i as int, utf8) == Ok::<
                    (Seq<Seq<char>>, int),
                    ParseError,
                >((views_of_strings(strings@), cursor as int)),
            decreases count - i,
        {
            let item = if utf8 {
                StringPool::read_utf8_string_item(input, cursor)
            } else {
                StringPool::read_utf16_string_item(input, cursor)
            };
            match item {
                Err(error) => {
                    proof {
                        lemma_parse_strings_error(input@, at as int, i + 1, count as int, utf8);
                    }
                    return Err(error);
                },
                Ok((string, next)) => {
                    let ghost before = views_of_strings(strings@);
                    strings.push(string);
                    assert(views_of_strings(strings@) =~= before.push(string@));
                    cursor = next;
                },
            }
            i += 1;
        }
        Ok((strings, cursor))
    }

    /// Reads `count` styles, one after the other, from `at` on.
    pub fn parse_styles(input: &[u8], at: usize, count: usize) -> (result: Result<
        (Vec<Style>, usize),
        ParseError,
    >)
        ensures
            match (result, parse_styles(input@, at as int, count as int)) {
                (Ok((styles, next)), Ok((views, end))) => views_of_styles(styles@) == views
                    && next == end && at <= next,
                (Err(found), Err(error)) => found == error,
                _ => false,
            },
    {
        let mut styles: Vec<Style> = Vec::new();
        let mut cursor = at;
        let mut i: usize = 0;
        assert(views_of_styles(styles@) =~= Seq::<Seq<StyleSpan>>::empty());
        while i < count
            invariant
                i <= count,
                at <= cursor,
                parse_styles(input@, at as int, i as int) == Ok::<
                    (Seq<Seq<StyleSpan>>, int),
                    ParseError,
                >((views_of_styles(styles@), cursor as int)),
            decreases count - i,
        {
            match Style::parse(input, cursor) {
                Err(error) => {
                    proof {
                        lemma_parse_styles_error(input@, at as int, i + 1, count as int);
                    }
                    return Err(error);
                },
                Ok((style, next)) => {
                    let ghost before = views_of_styles(styles@);
                    styles.push(style);
                    assert(views_of_styles(styles@) =~= before.push(style@));
                    cursor = next;
                },
            }
            i += 1;
        }
        Ok((styles, cursor))
    }

    /// Reads the string pool whose chunk starts at `base`: the tag, which
    /// must be that of a pool, the counts, the flags and the two starts, the
    /// strings behind the two offset arrays, and the styles from where the
    /// pool says its style data starts. The result ends where the chunk says
    /// it ends.
    pub fn parse(input: &[u8], base: usize) -> (result: Result<(StringPool, usize), ParseError>)
        ensures
            parsed_as(result, parse_string_pool(input@, base as int)),
            result matches Ok((_, next)) ==> base <= next <= input@.len(),
    {
        reveal(parse_string_pool);
        let header = match Header::parse(input, base) {
            Err(error) => {
                return Err(error);
            },
            Ok(header) => header,
        };
        match header.resource_type {
            ResourceType::StringPool => {},
            _ => {
                return Err(ParseError::UnexpectedChunk);
            },
        }
        if !available(input, base, 28) {
            return Err(ParseError::UnexpectedEof);
        }
        let string_count = peek_u32(input, base + 8);
        let style_count = peek_u32(input, base + 12);
        let flags = peek_u32(input, base + 16);
        let _string_offset = peek_u32(input, base + 20);
        let style_offset = peek_u32(input, base + 24);
        let offsets = match skip_header(input, base + 28, base, header.header_size) {
            None => {
                return Err(ParseError::UnexpectedEof);
            },
            Some(offsets) => offsets,
        };
        let table_size: u64 = 4 * (string_count as u64) + 4 * (style_count as u64);
        if !available(input, offsets, table_size) {
            return Err(ParseError::UnexpectedEof);
        }
        let utf8 = flags & UTF8_FLAG != 0;
        let strings = match StringPool::parse_strings(
            input,
            offsets + table_size as usize,
            string_count as usize,
            utf8,
        ) {
            Err(error) => {
                return Err(error);
            },
            Ok((strings, _)) => strings,
        };
        if !available(input, base, style_offset as u64) {
            return Err(ParseError::UnexpectedEof);
        }
        let styles = match StringPool::parse_styles(
            input,
            base + style_offset as usize,
            style_count as usize,
        ) {
            Err(error) => {
                return Err(error);
            },
            Ok((styles, _)) => styles,
        };
        if !available(input, base, header.size) {
            return Err(ParseError::UnexpectedEof);
        }
        let pool = StringPool { flags, strings, styles };
        proof {
            assert(pool@.strings =~= views_of_strings(strings@));
            assert(pool@.styles =~= views_of_styles(styles@));
        }
        Ok((pool, base + header.size as usize))
    }
}

impl Value {
    /// Reads the eight bytes of a value at `at`.
    pub fn parse(input: &[u8], at: usize) -> (result: Result<(Value, usize), ParseError>)
        ensures
            match result {
                Ok((value, next)) => can_read(input@, at as int, 8) && value == value_at(
                    input@,
                    at as int,
                ) && next == at + 8,
                Err(error) => !can_read(input@, at as int, 8) && error
                    == ParseError::UnexpectedEof,
            },
    {
        if !available(input, at, 8) {
            return Err(ParseError::UnexpectedEof);
        }
        let size = peek_u16(input, at);
        let zero = peek_u8(input, at + 2);
        let data_type = peek_u8(input, at + 3);
        let data_index = peek_u32(input, at + 4) as usize;
        Ok((Value { size, zero, data_type, data_index }, at + 8))
    }
}

impl ResourceEntry {
    /// Reads the entry at `at`, which stands at spec index `spec_id`: the
    /// size of its header, which is not used, its flags, its name, and a bag
    /// if the flags say so, else a plain value.
    pub fn parse(input: &[u8], at: usize, spec_id: usize) -> (result: Result<
        (ResourceEntry, usize),
        ParseError,
    >)
        ensures
            parsed_as(result, parse_entry(input@, at as int, spec_id)),
            result matches Ok((_, next)) ==> at < next <= input@.len(),
    {
        reveal(parse_entry);
        if !available(input, at, 8) {
            return Err(ParseError::UnexpectedEof);
        }
        let _size = peek_u16(input, at);
        let flags = peek_u16(input, at + 2);
        let name_index = peek_u32(input, at + 4) as usize;
        if !available(input, at, 16) {
            return Err(ParseError::UnexpectedEof);
        }
        if flags & 0x0001 != 0 {
            let parent = peek_u32(input, at + 8);
            let count = peek_u32(input, at + 12) as usize;
            if !available(input, at + 16, 12 * (count as u64)) {
                return Err(ParseError::UnexpectedEof);
            }
            let ghost pairs = bag_at(input@, at + 16, count as int);
            let mut values: Vec<(u32, Value)> = Vec::new();
            let mut i: usize = 0;
            while i < count
                invariant
                    i <= count,
                    can_read(input@, at + 16, 12 * count),
                    input@.len() <= usize::MAX,
                    pairs == bag_at(input@, at + 16, count as int),
                    values@ == pairs.take(i as int),
                decreases count - i,
            {
                let index = peek_u32(input, at + 16 + 12 * i);
                let value = match Value::parse(input, at + 16 + 12 * i + 4) {
                    Err(error) => {
                        return Err(error);
                    },
                    Ok((value, _)) => value,
                };
                values.push((index, value));
                assert(values@ =~= pairs.take(i + 1));
                i += 1;
            }
            assert(values@ =~= pairs);
            Ok(
                (
                    ResourceEntry {
                        flags,
                        spec_id,
                        name_index,
                        value: ResourceValue::Bag { parent, values },
                    },
                    at + 16 + 12 * count,
                ),
            )
        } else {
            let value = match Value::parse(input, at + 8) {
                Err(error) => {
                    return Err(error);
                },
                Ok((value, _)) => value,
            };
            Ok(
                (
                    ResourceEntry { flags, spec_id, name_index, value: ResourceValue::Plain(value) },
                    at + 16,
                ),
            )
        }
    }
}

/// The views of the entries.
pub open spec fn views_of_entries(resources: Map<usize, ResourceEntry>) -> Map<
    usize,
    ResourceEntryView,
> {
    Map::new(|k: usize| resources.contains_key(k), |k: usize| resources[k]@)
}

/// Once reading entries has failed, reading more of them fails in the same way.
pub proof fn lemma_parse_entries_error(bytes: Seq<u8>, table: int, data: int, i: int, n: int)
    requires
        0 <= i <= n,
        parse_entries(bytes, table, data, i) is Err,
    ensures
        parse_entries(bytes, table, data, n) == parse_entries(bytes, table, data, i),
    decreases n - i,
{
    if i < n {
        lemma_parse_entries_error(bytes, table, data, i, n - 1);
    }
}

impl Config {
    /// Reads the qualifier blob at `at`: its first word says how long it is,
    /// that word included.
    pub fn parse_config_id(input: &[u8], at: usize) -> (result: Result<
        (Vec<u8>, usize),
        ParseError,
    >)
        ensures
            match result {
                Ok((id, next)) => {
                    &&& can_read(input@, at as int, 4)
                    &&& can_read(input@, at as int, word_at(input@, at as int))
                    &&& id@ == input@.subrange(at as int, at + word_at(input@, at as int))
                    &&& next == at + word_at(input@, at as int)
                },
                Err(error) => {
                    &&& error == ParseError::UnexpectedEof
                    &&& !can_read(input@, at as int, 4) || !can_read(
                        input@,
                        at as int,
                        word_at(input@, at as int),
                    )
                },
            },
    {
        if !available(input, at, 4) {
            return Err(ParseError::UnexpectedEof);
        }
        let size = peek_u32(input, at) as usize;
        if !available(input, at, size as u64) {
            return Err(ParseError::UnexpectedEof);
        }
        let mut config_id: Vec<u8> = Vec::new();
        let mut i: usize = 0;
        while i < size
            invariant
                i <= size,
                can_read(input@, at as int, size as int),
                input@.len() <= usize::MAX,
                config_id@ == input@.subrange(at as int, at + i),
            decreases size - i,
        {
            config_id.push(peek_u8(input, at + i));
            assert(config_id@ =~= input@.subrange(at as int, at + i + 1));
            i += 1;
        }
        Ok((config_id, at + size))
    }

    /// Reads the entries of a configuration. The offset table of
    /// `entry_count` words starts at `table`; a word of -1 there means that
    /// the spec index has no entry. The entries are read one after the other
    /// from behind the table on.
    pub fn parse_config_resources(input: &[u8], table: usize, entry_count: usize) -> (result: Result<
        (BTreeMap<usize, ResourceEntry>, usize),
        ParseError,
    >)
        ensures
            match result {
                Ok((resources, next)) => {
                    &&& can_read(input@, table as int, 4 * entry_count)
                    &&& parse_entries(
                        input@,
                        table as int,
                        table + 4 * entry_count,
                        entry_count as int,
                    ) == Ok::<(Map<usize, ResourceEntryView>, int), ParseError>(
                        (views_of_entries(resources@), next as int),
                    )
                    &&& table + 4 * entry_count <= next <= input@.len()
                    &&& forall|k: usize| resources@.contains_key(k) ==> k < entry_count
                },
                Err(error) => if !can_read(input@, table as int, 4 * entry_count) {
                    error == ParseError::UnexpectedEof
                } else {
                    parse_entries(
                        input@,
                        table as int,
                        table + 4 * entry_count,
                        entry_count as int,
                    ) == Err::<(Map<usize, ResourceEntryView>, int), ParseError>(error)
                },
            },
    {
        if entry_count > input.len() / 4 {
            return Err(ParseError::UnexpectedEof);
        }
        if !available(input, table, 4 * (entry_count as u64)) {
            return Err(ParseError::UnexpectedEof);
        }
        let data = table + 4 * entry_count;
        let mut resources: BTreeMap<usize, ResourceEntry> = BTreeMap::new();
        let mut cursor = data;
        let mut spec_index: usize = 0;
        assert(views_of_entries(resources@) =~= Map::<usize, ResourceEntryView>::empty());
        while spec_index < entry_count
            invariant
                spec_index <= entry_count,
                can_read(input@, table as int, 4 * entry_count),
                input@.len() <= usize::MAX,
                data == table + 4 * entry_count,
                data <= cursor <= input@.len(),
                parse_entries(input@, table as int, data as int, spec_index as int) == Ok::<
                    (Map<usize, ResourceEntryView>, int),
                    ParseError,
                >((views_of_entries(resources@), cursor as int)),
                forall|k: usize| resources@.contains_key(k) ==> k < spec_index,
            decreases entry_count - spec_index,
        {
            let entry = peek_i32(input, table + 4 * spec_index);
            if entry != -1 {
                match ResourceEntry::parse(input, cursor, spec_index) {
                    Err(error) => {
                        proof {
                            lemma_parse_entries_error(
                                input@,
                                table as int,
                                data as int,
                                spec_index + 1,
                                entry_count as int,
                            );
                        }
                        return Err(error);
                    },
                    Ok((resource, next)) => {
                        let ghost before = views_of_entries(resources@);
                        resources.insert(spec_index, resource);
                        assert(views_of_entries(resources@) =~= before.insert(
                            spec_index,
                            resource@,
                        ));
                        cursor = next;
                    },
                }
            }
            spec_index += 1;
        }
        Ok((resources, cursor))
    }

    /// Reads the configuration whose chunk starts at `base` with the tag
    /// `header`: the type it belongs to, the two reserved fields, the number
    /// of slots, where its entries start, which is not used, the qualifier
    /// blob with its padding, the offset table and the entries.
    pub fn parse(input: &[u8], base: usize, header: Header) -> (result: Result<
        (Config, usize),
        ParseError,
    >)
        ensures
            parsed_as(result, parse_config(input@, base as int, header)),
            result matches Ok((config, next)) ==> {
                &&& base + 20 <= next <= input@.len()
                &&& forall|k: usize| config.resources@.contains_key(k) ==> k < config.entry_count
            },
    {
        reveal(parse_config);
        if !available(input, base, 24) {
            return Err(ParseError::UnexpectedEof);
        }
        let type_id = peek_u8(input, base + 8) as usize;
        let res0 = peek_u8(input, base + 9);
        let res1 = peek_u16(input, base + 10);
        let entry_count = peek_u32(input, base + 12) as usize;
        let _entry_start = peek_u32(input, base + 16);
        let (id, after_id) = match Config::parse_config_id(input, base + 20) {
            Err(error) => {
                return Err(error);
            },
            Ok(read) => read,
        };
        let id_padding = padding(id.len());
        if !available(input, after_id, id_padding as u64) {
            return Err(ParseError::UnexpectedEof);
        }
        let table = match skip_header(input, after_id + id_padding, base, header.header_size) {
            None => {
                return Err(ParseError::UnexpectedEof);
            },
            Some(table) => table,
        };
        let (resources, next) = match Config::parse_config_resources(input, table, entry_count) {
            Err(error) => {
                return Err(error);
            },
            Ok(read) => read,
        };
        let config = Config { type_id, res0, res1, entry_count, id, resources };
        proof {
            assert(config@.resources =~= views_of_entries(resources@));
        }
        Ok((config, next))
    }
}

impl Specs {
    /// Reads the spec chunk that starts at `base` with the tag `header`: the
    /// type it belongs to, the two reserved fields, the number of specs, and
    /// the flags of each. The specs are numbered from zero and not named.
    pub fn parse(input: &[u8], base: usize, header: Header) -> (result: Result<
        (Specs, usize),
        ParseError,
    >)
        ensures
            parsed_as(result, parse_specs(input@, base as int, header)),
            result matches Ok((_, next)) ==> base + 16 <= next <= input@.len(),
    {
        reveal(parse_specs);
        if !available(input, base, 16) {
            return Err(ParseError::UnexpectedEof);
        }
        let type_id = peek_u8(input, base + 8) as usize;
        let res0 = peek_u8(input, base + 9);
        let res1 = peek_u16(input, base + 10);
        let entry_count = peek_u32(input, base + 12) as usize;
        let flags_at = match skip_header(input, base + 16, base, header.header_size) {
            None => {
                return Err(ParseError::UnexpectedEof);
            },
            Some(flags_at) => flags_at,
        };
        if !available(input, flags_at, 4 * (entry_count as u64)) {
            return Err(ParseError::UnexpectedEof);
        }
        if entry_count == 0 {
            return Err(ParseError::EmptySpecs);
        }
        let ghost listed = specs_at(input@, flags_at as int, entry_count as int);
        let mut specs: Vec<Spec> = Vec::new();
        let mut id: usize = 0;
        while id < entry_count
            invariant
                id <= entry_count,
                can_read(input@, flags_at as int, 4 * entry_count),
                input@.len() <= usize::MAX,
                listed == specs_at(input@, flags_at as int, entry_count as int),
                specs@ == listed.take(id as int),
            decreases entry_count - id,
        {
            specs.push(Spec::new(peek_u32(input, flags_at + 4 * id), id));
            assert(specs@ =~= listed.take(id + 1));
            id += 1;
        }
        assert(specs@ =~= listed);
        Ok((Specs { type_id, res0, res1, specs }, flags_at + 4 * entry_count))
    }
}

/// The views of the types.
pub open spec fn views_of_types(types: Seq<Type>) -> Seq<TypeView> {
    Seq::new(types.len(), |i: int| types[i]@)
}

impl Type {
    /// Gives the spec chunk to the type that it names. The chunk is refused
    /// if the package has no such type, or if the type has its specs already.
    pub fn attach_specs(types: &mut Vec<Type>, specs: Specs) -> (result: Result<(), ParseError>)
        ensures
            match attach_specs(views_of_types(old(types)@), specs@) {
                Ok(attached) => result is Ok && views_of_types(final(types)@) == attached,
                Err(error) => result == Err::<(), ParseError>(error),
            },
    {
        let type_id = specs.type_id;
        if type_id < 1 || type_id > types.len() {
            return Err(ParseError::TypeIdOutOfRange);
        }
        if types[type_id - 1].specs.is_some() {
            return Err(ParseError::DuplicateSpecs);
        }
        let ghost before = types@;
        let target = &mut types[type_id - 1];
        target.specs = Some(specs);
        proof {
            assert(views_of_types(types@) =~= views_of_types(before).update(
                type_id - 1,
                TypeView { specs: Some(specs@), ..before[type_id - 1]@ },
            ));
        }
        Ok(())
    }

    /// Adds the configuration behind the others of the type that it names.
    /// The chunk is refused if the package has no such type.
    pub fn attach_config(types: &mut Vec<Type>, config: Config) -> (result: Result<
        (),
        ParseError,
    >)
        ensures
            match attach_config(views_of_types(old(types)@), config@) {
                Ok(attached) => result is Ok && views_of_types(final(types)@) == attached,
                Err(error) => result == Err::<(), ParseError>(error),
            },
    {
        let type_id = config.type_id;
        if type_id < 1 || type_id > types.len() {
            return Err(ParseError::TypeIdOutOfRange);
        }
        let ghost before = types@;
        let target = &mut types[type_id - 1];
        target.configs.push(config);
        proof {
            let expected = TypeView {
                configs: before[type_id - 1]@.configs.push(config@),
                ..before[type_id - 1]@
            };
            assert(types@[type_id - 1]@.configs =~= expected.configs);
            assert(views_of_types(types@) =~= views_of_types(before).update(
                type_id - 1,
                expected,
            ));
        }
        Ok(())
    }
}

/// Naming the specs from one more configuration is naming them from the
/// others first and from that one last.
pub proof fn lemma_named_specs_push(specs: SpecsView, configs: Seq<ConfigView>, config: ConfigView)
    ensures
        named_specs(specs, configs.push(config)) == named_by(named_specs(specs, configs), config),
{
    let longer = configs.push(config);
    assert(longer.drop_last() =~= configs);
    assert(named_specs(specs, longer).specs =~= named_by(
        named_specs(specs, configs),
        config,
    ).specs);
}

impl Specs {
    /// Names each spec at whose index `config` has an entry as that entry is
    /// named. An entry at an index that the specs do not reach is an error.
    pub fn take_names(&mut self, config: &Config) -> (result: Result<(), ParseError>)
        ensures
            match result {
                Ok(_) => {
                    &&& forall|k: usize|
                        config@.resources.contains_key(k) ==> k < old(self).specs@.len()
                    &&& final(self)@ == named_by(old(self)@, config@)
                },
                Err(error) => {
                    &&& error == ParseError::SpecIndexOutOfRange
                    &&& exists|k: usize|
                        config@.resources.contains_key(k) && k >= old(self).specs@.len()
                },
            },
    {
        let ghost before = self@;
        let ghost entries = config@.resources;
        let count = self.specs.len();
        let mut found: usize = 0;
        let mut spec_index: usize = 0;
        proof {
            assert(entries.dom() =~= config.resources@.dom());
            assert(keys_below(entries, 0) =~= Set::empty());
        }
        while spec_index < count
            invariant
                spec_index <= count,
                entries == config@.resources,
                entries.dom() == config.resources@.dom(),
                before == old(self)@,
                count == before.specs.len(),
                self@.type_id == before.type_id,
                self@.res0 == before.res0,
                self@.res1 == before.res1,
                self@.specs.len() == before.specs.len(),
                found == keys_below(entries, spec_index as int).len(),
                found <= spec_index,
                forall|k: int|
                    0 <= k < before.specs.len() ==> (#[trigger] self@.specs[k]) == (if k
                        < spec_index && entries.contains_key(k as usize) {
                        Spec { name_index: entries[k as usize].name_index, ..before.specs[k] }
                    } else {
                        before.specs[k]
                    }),
            decreases count - spec_index,
        {
            proof {
                lemma_keys_below_step(entries, spec_index);
            }
            match config.resources.get(&spec_index) {
                Some(entry) => {
                    assert(entries.contains_key(spec_index));
                    assert(entries[spec_index] == entry@);
                    self.set_name_index(spec_index, entry.name_index);
                    found = found + 1;
                },
                None => {
                    assert(!entries.contains_key(spec_index));
                },
            }
            spec_index += 1;
        }
        proof {
            lemma_keys_below_all(entries, count as int);
        }
        if found != config.resources.len() {
            return Err(ParseError::SpecIndexOutOfRange);
        }
        proof {
            assert(self@.specs =~= named_by(before, config@).specs);
        }
        Ok(())
    }
}

impl Type {
    /// Fills in the names of the specs from the entries of the
    /// configurations, the later configuration winning over the earlier. A
    /// type without specs stays as it is. An entry at an index that the specs
    /// do not reach is an error.
    pub fn name_specs(&mut self) -> (result: Result<(), ParseError>)
        ensures
            match named_type(old(self)@) {
                Ok(named) => result is Ok && final(self)@ == named,
                Err(error) => result == Err::<(), ParseError>(error),
            },
    {
        reveal(named_type);
        let ghost before = self@;
        let mut specs = match self.specs.take() {
            None => {
                return Ok(());
            },
            Some(specs) => specs,
        };
        let ghost unnamed = specs@;
        let mut j: usize = 0;
        assert(before.configs.take(0) =~= Seq::<ConfigView>::empty());
        assert(named_specs(unnamed, Seq::<ConfigView>::empty()).specs =~= unnamed.specs);
        while j < self.configs.len()
            invariant
                j <= self.configs@.len(),
                before.configs == Seq::new(self.configs@.len(), |i: int| self.configs@[i]@),
                before.specs == Some(unnamed),
                before == old(self)@,
                self.configs == old(self).configs,
                self.id == old(self).id,
                entries_below(before.configs.take(j as int), unnamed.specs.len() as int),
                specs@ == named_specs(unnamed, before.configs.take(j as int)),
            decreases self.configs@.len() - j,
        {
            proof {
                lemma_named_specs_push(unnamed, before.configs.take(j as int), before.configs[j as int]);
                assert(before.configs.take(j + 1) =~= before.configs.take(j as int).push(
                    before.configs[j as int],
                ));
            }
            match specs.take_names(&self.configs[j]) {
                Err(error) => {
                    proof {
                        reveal(named_type);
                        let k = choose|k: usize|
                            self.configs@[j as int]@.resources.contains_key(k) && k
                                >= unnamed.specs.len();
                        assert(before.configs[j as int] == self.configs@[j as int]@);
                        assert(before.configs[j as int].resources.contains_key(k));
                        assert(!entries_below(before.configs, unnamed.specs.len() as int));
                        assert(old(self)@ == before);
                    }
                    return Err(error);
                },
                Ok(_) => {},
            }
            j += 1;
        }
        proof {
            assert(before.configs.take(j as int) =~= before.configs);
        }
        self.specs = Some(specs);
        Ok(())
    }
}

/// The views of the packages.
pub open spec fn views_of_packages(packages: Seq<Package>) -> Seq<crate::components::PackageView> {
    Seq::new(packages.len(), |i: int| packages[i]@)
}

impl Package {
    /// Reads the name of a package from its fixed field of 128 code units.
    pub fn parse_package_name(input: &[u8], at: usize) -> (result: Result<String, ParseError>)
        ensures
            input@.len() <= usize::MAX,
            match result {
                Ok(text) => {
                    &&& can_read(input@, at as int, 256)
                    &&& valid_utf16(until_zero_unit(units_at(input@, at as int, 128)))
                    &&& text@ == decode_utf16(until_zero_unit(units_at(input@, at as int, 128)))
                },
                Err(error) => if !can_read(input@, at as int, 256) {
                    error == ParseError::UnexpectedEof
                } else {
                    &&& !valid_utf16(until_zero_unit(units_at(input@, at as int, 128)))
                    &&& error == ParseError::InvalidString
                },
            },
    {
        let mut position = at;
        read_string_utf16::<128>(input, &mut position)
    }

    /// The types of a package before any chunk is read: one for each type
    /// name, with ids from one on.
    pub fn empty_types(count: usize) -> (types: Vec<Type>)
        ensures
            views_of_types(types@) == empty_types(count as int),
    {
        let mut types: Vec<Type> = Vec::new();
        let mut i: usize = 0;
        while i < count
            invariant
                i <= count,
                types@.len() == i,
                forall|k: int|
                    0 <= k < i ==> (#[trigger] types@[k])@ == (TypeView {
                        id: (k + 1) as usize,
                        specs: None,
                        configs: Seq::empty(),
                    }),
            decreases count - i,
        {
            types.push(Type::with_id(i + 1));
            i += 1;
        }
        assert(views_of_types(types@) =~= empty_types(count as int));
        types
    }

    /// Reads the chunks of a package from `at` on and gives each to the type
    /// that it names. Chunks are read while they start before `base + size`
    /// and the input holds a whole tag.
    pub fn parse_chunks(
        input: &[u8],
        at: usize,
        base: usize,
        size: u64,
        types: &mut Vec<Type>,
    ) -> (result: Result<usize, ParseError>)
        ensures
            match parse_chunks(input@, at as int, base + size, views_of_types(old(types)@)) {
                Ok((attached, end)) => result == Ok::<usize, ParseError>(end as usize)
                    && views_of_types(final(types)@) == attached && at <= end && (at
                    <= input@.len() ==> end <= input@.len()),
                Err(error) => result == Err::<usize, ParseError>(error),
            },
    {
        if at > input.len() {
            return Ok(at);
        }
        let mut cursor = at;
        loop
            invariant
                at <= cursor <= input@.len(),
                input@.len() <= usize::MAX,
                parse_chunks(input@, at as int, base + size, views_of_types(old(types)@))
                    == parse_chunks(input@, cursor as int, base + size, views_of_types(types@)),
            decreases input@.len() - cursor,
        {
            if cursor >= base && (cursor - base) as u64 >= size {
                return Ok(cursor);
            }
            let header = match Header::parse(input, cursor) {
                Err(ParseError::UnexpectedEof) => {
                    return Ok(cursor);
                },
                Err(error) => {
                    return Err(error);
                },
                Ok(header) => header,
            };
            match header.resource_type {
                ResourceType::TableTypeSpec => {
                    let (specs, next) = match Specs::parse(input, cursor, header) {
                        Err(error) => {
                            return Err(error);
                        },
                        Ok(read) => read,
                    };
                    match Type::attach_specs(types, specs) {
                        Err(error) => {
                            return Err(error);
                        },
                        Ok(_) => {},
                    }
                    cursor = next;
                },
                ResourceType::TableType => {
                    let (config, next) = match Config::parse(input, cursor, header) {
                        Err(error) => {
                            return Err(error);
                        },
                        Ok(read) => read,
                    };
                    match Type::attach_config(types, config) {
                        Err(error) => {
                            return Err(error);
                        },
                        Ok(_) => {},
                    }
                    cursor = next;
                },
                _ => {
                    return Err(ParseError::UnexpectedChunk);
                },
            }
        }
    }

    /// Fills in the names of the specs of every type from the entries of its
    /// configurations.
    pub fn name_types(types: &mut Vec<Type>) -> (result: Result<(), ParseError>)
        ensures
            match named_types(views_of_types(old(types)@)) {
                Ok(named) => result is Ok && views_of_types(final(types)@) == named,
                Err(error) => result == Err::<(), ParseError>(error),
            },
    {
        reveal(named_types);
        let ghost before = views_of_types(types@);
        let mut i: usize = 0;
        while i < types.len()
            invariant
                i <= types@.len(),
                before == views_of_types(old(types)@),
                types@.len() == old(types)@.len(),
                forall|k: int| 0 <= k < i ==> named_type(#[trigger] before[k]) == Ok::<
                    TypeView,
                    ParseError,
                >(types@[k]@),
                forall|k: int| i <= k < types@.len() ==> #[trigger] types@[k] == old(types)@[k],
            decreases types@.len() - i,
        {
            assert(types@[i as int] == old(types)@[i as int]);
            let target = &mut types[i];
            match target.name_specs() {
                Err(error) => {
                    proof {
                        reveal(named_type);
                        reveal(named_types);
                        assert(named_type(before[i as int]) is Err);
                    }
                    return Err(error);
                },
                Ok(_) => {},
            }
            i += 1;
        }
        proof {
            assert forall|k: int| 0 <= k < before.len() implies !(named_type(
                #[trigger] before[k],
            ) is Err) by {}
            assert(views_of_types(types@) =~= Seq::new(
                before.len(),
                |k: int| named_type(before[k])->Ok_0,
            ));
        }
        Ok(())
    }

    /// Reads the package whose chunk starts at `base`: the tag, which must be
    /// that of a package, the id, the name, where the pools start, which is
    /// not used, the two bookkeeping words, the pool of type names, the pool
    /// of key names, and the chunks of the types. The names of the specs are
    /// then filled in from the entries.
    pub fn parse(input: &[u8], base: usize) -> (result: Result<(Package, usize), ParseError>)
        ensures
            parsed_as(result, parse_package(input@, base as int)),
            result matches Ok((_, next)) ==> base <= next <= input@.len(),
    {
        reveal(parse_package);
        let header = match Header::parse(input, base) {
            Err(error) => {
                return Err(error);
            },
            Ok(header) => header,
        };
        match header.resource_type {
            ResourceType::TablePackage => {},
            _ => {
                return Err(ParseError::UnexpectedChunk);
            },
        }
        if !available(input, base, 268) {
            return Err(ParseError::UnexpectedEof);
        }
        let id = peek_u32(input, base + 8);
        let name = match Package::parse_package_name(input, base + 12) {
            Err(error) => {
                return Err(error);
            },
            Ok(name) => name,
        };
        if !available(input, base, 288) {
            return Err(ParseError::UnexpectedEof);
        }
        let _type_string_offset = peek_u32(input, base + 268);
        let last_public_type = peek_u32(input, base + 272);
        let _key_string_offset = peek_u32(input, base + 276);
        let last_public_key = peek_u32(input, base + 280);
        let _type_id_offset = peek_u32(input, base + 284);
        let pools_at = match skip_header(input, base + 288, base, header.header_size) {
            None => {
                return Err(ParseError::UnexpectedEof);
            },
            Some(pools_at) => pools_at,
        };
        let (type_names, keys_at) = match StringPool::parse(input, pools_at) {
            Err(error) => {
                return Err(error);
            },
            Ok(read) => read,
        };
        let (key_names, chunks_at) = match StringPool::parse(input, keys_at) {
            Err(error) => {
                return Err(error);
            },
            Ok(read) => read,
        };
        let mut types = Package::empty_types(type_names.strings.len());
        let next = match Package::parse_chunks(input, chunks_at, base, header.size, &mut types) {
            Err(error) => {
                return Err(error);
            },
            Ok(next) => next,
        };
        match Package::name_types(&mut types) {
            Err(error) => {
                return Err(error);
            },
            Ok(_) => {},
        }
        let package = Package {
            id,
            name,
            type_names,
            last_public_type,
            types,
            key_names,
            last_public_key,
        };
        proof {
            assert(package@.types =~= views_of_types(types@));
        }
        Ok((package, next))
    }
}

/// Once reading packages has failed, reading more of them fails in the same way.
pub proof fn lemma_parse_packages_error(bytes: Seq<u8>, at: int, i: int, n: int)
    requires
        0 <= i <= n,
        parse_packages(bytes, at, i) is Err,
    ensures
        parse_packages(bytes, at, n) == parse_packages(bytes, at, i),
    decreases n - i,
{
    if i < n {
        lemma_parse_packages_error(bytes, at, i, n - 1);
    }
}

impl Arsc {
    /// Reads `count` packages, one after the other, from `at` on.
    pub fn parse_packages(input: &[u8], at: usize, count: usize) -> (result: Result<
        Vec<Package>,
        ParseError,
    >)
        ensures
            match (result, parse_packages(input@, at as int, count as int)) {
                (Ok(packages), Ok((views, _))) => views_of_packages(packages@) == views,
                (Err(found), Err(error)) => found == error,
                _ => false,
            },
    {
        let mut packages: Vec<Package> = Vec::new();
        let mut cursor = at;
        let mut i: usize = 0;
        assert(views_of_packages(packages@) =~= Seq::<crate::components::PackageView>::empty());
        while i < count
            invariant
                i <= count,
                parse_packages(input@, at as int, i as int) == Ok::<
                    (Seq<crate::components::PackageView>, int),
                    ParseError,
                >((views_of_packages(packages@), cursor as int)),
            decreases count - i,
        {
            match Package::parse(input, cursor) {
                Err(error) => {
                    proof {
                        lemma_parse_packages_error(input@, at as int, i + 1, count as int);
                    }
                    return Err(error);
                },
                Ok((package, next)) => {
                    let ghost before = views_of_packages(packages@);
                    packages.push(package);
                    assert(views_of_packages(packages@) =~= before.push(package@));
                    cursor = next;
                },
            }
            i += 1;
        }
        Ok(packages)
    }

    /// Reads a whole table: the tag, which must be that of a table, the
    /// number of packages, the global string pool, and that many packages.
    pub fn parse(input: &[u8]) -> (result: Result<Arsc, ParseError>)
        ensures
            match (result, parse_table(input@)) {
                (Ok(table), Ok(view)) => table@ == view,
                (Err(found), Err(error)) => found == error,
                _ => false,
            },
    {
        let header = match Header::parse(input, 0) {
            Err(error) => {
                return Err(error);
            },
            Ok(header) => header,
        };
        match header.resource_type {
            ResourceType::Table => {},
            _ => {
                return Err(ParseError::UnexpectedChunk);
            },
        }
        if !available(input, 0, 12) {
            return Err(ParseError::UnexpectedEof);
        }
        let package_count = peek_u32(input, 8) as usize;
        let pool_at = match skip_header(input, 12, 0, header.header_size) {
            None => {
                return Err(ParseError::UnexpectedEof);
            },
            Some(pool_at) => pool_at,
        };
        let (global_string_pool, packages_at) = match StringPool::parse(input, pool_at) {
            Err(error) => {
                return Err(error);
            },
            Ok(read) => read,
        };
        let packages = match Arsc::parse_packages(input, packages_at, package_count) {
            Err(error) => {
                return Err(error);
            },
            Ok(packages) => packages,
        };
        let table = Arsc { packages, global_string_pool };
        proof {
            assert(table@.packages =~= views_of_packages(packages@));
        }
        Ok(table)
    }
}

} // verus!
