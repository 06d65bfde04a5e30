//! The grammar of a table: what each part of the input stands for, and
//! which inputs stand for nothing.
use crate::components::{
    ArscView, ConfigView, Header, PackageView, ResourceEntryView, ResourceType, ResourceValueView,
    Spec, SpecsView, StringPoolView, StyleSpan, TypeView, Value, UTF8_FLAG,
};
use crate::encoding::{half_at, signed_word_at, word_at};
use crate::layout::spec_padding;
use crate::text::{decode_utf16, valid_utf16};
use vstd::prelude::*;
use vstd::utf8::{decode_utf8, valid_utf8};

verus! {

/// Why an input is not a table.
#[derive(Debug, Clone, Copy, PartialEq, Eq, Structural)]
pub enum ParseError {
    /// The input ends before what it announces, or a position that it names
    /// lies beyond its end.
    UnexpectedEof,
    /// A chunk's tag holds a code that stands for no kind of chunk.
    UnknownChunkType,
    /// A chunk is of another kind than its place requires.
    UnexpectedChunk,
    /// A spec chunk holds no spec.
    EmptySpecs,
    /// The bytes of a string are not well-formed in the pool's encoding.
    InvalidString,
    /// A chunk names a type that the package's pool of type names does not
    /// hold.
    TypeIdOutOfRange,
    /// A second spec chunk names the same type.
    DuplicateSpecs,
    /// An entry stands at a spec index that the specs of its type do not
    /// reach.
    SpecIndexOutOfRange,
}

/// Whether `n` bytes can be read at `at`.
pub open spec fn can_read(bytes: Seq<u8>, at: int, n: int) -> bool {
    0 <= at && 0 <= n && at + n <= bytes.len()
}

/// Where the body of a chunk starts: after the known fields, or where the
/// chunk's own `header_size` says if that lies further on.
pub open spec fn body_start(known_end: int, base: int, header_size: int) -> int {
    if base + header_size > known_end {
        base + header_size
    } else {
        known_end
    }
}

// ---------------------------------------------------------------------------
// Chunk header
// ---------------------------------------------------------------------------
/// The tag at `at`. An unknown code is reported before a short tag.
pub open spec fn parse_header(bytes: Seq<u8>, at: int) -> Result<Header, ParseError> {
    if !can_read(bytes, at, 2) {
        Err(ParseError::UnexpectedEof)
    } else {
        match ResourceType::spec_from_code(half_at(bytes, at)) {
            None => Err(ParseError::UnknownChunkType),
            Some(kind) => if !can_read(bytes, at, 8) {
                Err(ParseError::UnexpectedEof)
            } else {
                Ok(
                    Header {
                        resource_type: kind,
                        header_size: half_at(bytes, at + 2) as u16,
                        size: word_at(bytes, at + 4) as u64,
                    },
                )
            },
        }
    }
}

// ---------------------------------------------------------------------------
// Strings
// ---------------------------------------------------------------------------
/// A length before a UTF-8 string, and where it ends. A first byte with its
/// high bit set carries the high seven bits of a 15-bit length.
pub open spec fn parse_utf8_length(bytes: Seq<u8>, at: int) -> Result<(int, int), ParseError> {
    if !can_read(bytes, at, 1) {
        Err(ParseError::UnexpectedEof)
    } else if bytes[at] < 0x80 {
        Ok((bytes[at] as int, at + 1))
    } else if !can_read(bytes, at, 2) {
        Err(ParseError::UnexpectedEof)
    } else {
        Ok(((bytes[at] - 0x80) * 256 + bytes[at + 1], at + 2))
    }
}

/// A length before a UTF-16 string, and where it ends. A first word with its
/// high bit set carries the low 15 bits of a 31-bit length.
pub open spec fn parse_utf16_length(bytes: Seq<u8>, at: int) -> Result<(int, int), ParseError> {
    if !can_read(bytes, at, 2) {
        Err(ParseError::UnexpectedEof)
    } else if half_at(bytes, at) < 0x8000 {
        Ok((half_at(bytes, at), at + 2))
    } else if !can_read(bytes, at, 4) {
        Err(ParseError::UnexpectedEof)
    } else {
        Ok(((half_at(bytes, at) - 0x8000) + half_at(bytes, at + 2) * 0x8000, at + 4))
    }
}

/// The bytes before the first zero byte.
pub open spec fn until_zero(bytes: Seq<u8>) -> Seq<u8>
    decreases bytes.len(),
{
    if bytes.len() == 0 || bytes[0] == 0 {
        seq![]
    } else {
        seq![bytes[0]] + until_zero(bytes.drop_first())
    }
}

/// The code units before the first zero unit.
pub open spec fn until_zero_unit(units: Seq<u16>) -> Seq<u16>
    decreases units.len(),
{
    if units.len() == 0 || units[0] == 0 {
        seq![]
    } else {
        seq![units[0]] + until_zero_unit(units.drop_first())
    }
}

/// The `n` code units that start at `at`.
pub open spec fn units_at(bytes: Seq<u8>, at: int, n: int) -> Seq<u16> {
    Seq::new(
        if n >= 0 {
            n as nat
        } else {
            0
        },
        |i: int| half_at(bytes, at + 2 * i) as u16,
    )
}

/// A string stored as UTF-8: the count of characters, which is not used,
/// the count of bytes, that many bytes, of which those before the first zero
/// byte are the text, and one closing byte.
pub open spec fn parse_utf8_string(bytes: Seq<u8>, at: int) -> Result<(Seq<char>, int), ParseError> {
    match parse_utf8_length(bytes, at) {
        Err(error) => Err(error),
        Ok((_, after_chars)) => match parse_utf8_length(bytes, after_chars) {
            Err(error) => Err(error),
            Ok((byte_count, start)) => if !can_read(bytes, start, byte_count + 1) {
                Err(ParseError::UnexpectedEof)
            } else if !valid_utf8(until_zero(bytes.subrange(start, start + byte_count))) {
                Err(ParseError::InvalidString)
            } else {
                Ok(
                    (
                        decode_utf8(until_zero(bytes.subrange(start, start + byte_count))),
                        start + byte_count + 1,
                    ),
                )
            },
        },
    }
}

/// A string stored as UTF-16: the count of code units, that many units, and
/// one closing unit.
pub open spec fn parse_utf16_string(bytes: Seq<u8>, at: int) -> Result<
    (Seq<char>, int),
    ParseError,
> {
    match parse_utf16_length(bytes, at) {
        Err(error) => Err(error),
        Ok((unit_count, start)) => if !can_read(bytes, start, 2 * unit_count + 2) {
            Err(ParseError::UnexpectedEof)
        } else if !valid_utf16(units_at(bytes, start, unit_count)) {
            Err(ParseError::InvalidString)
        } else {
            Ok((decode_utf16(units_at(bytes, start, unit_count)), start + 2 * unit_count + 2))
        },
    }
}

/// One string of a pool, in the encoding that `utf8` selects.
pub open spec fn parse_string(bytes: Seq<u8>, at: int, utf8: bool) -> Result<
    (Seq<char>, int),
    ParseError,
> {
    if utf8 {
        parse_utf8_string(bytes, at)
    } else {
        parse_utf16_string(bytes, at)
    }
}

/// `n` strings, one after the other.
pub open spec fn parse_strings(bytes: Seq<u8>, at: int, n: int, utf8: bool) -> Result<
    (Seq<Seq<char>>, int),
    ParseError,
>
    decreases n,
{
    if n <= 0 {
        Ok((seq![], at))
    } else {
        match parse_strings(bytes, at, n - 1, utf8) {
            Err(error) => Err(error),
            Ok((strings, cursor)) => match parse_string(bytes, cursor, utf8) {
                Err(error) => Err(error),
                Ok((chars, next)) => Ok((strings.push(chars), next)),
            },
        }
    }
}

// ---------------------------------------------------------------------------
// Styles
// ---------------------------------------------------------------------------
/// The span at `at`.
pub open spec fn span_at(bytes: Seq<u8>, at: int) -> StyleSpan {
    StyleSpan {
        name: word_at(bytes, at) as u32,
        start: word_at(bytes, at + 4) as u32,
        end: word_at(bytes, at + 8) as u32,
    }
}

/// One style: spans up to the word 0xFFFFFFFF, which is not kept.
pub open spec fn parse_style(bytes: Seq<u8>, at: int) -> Result<(Seq<StyleSpan>, int), ParseError>
    decreases bytes.len() - at,
{
    if !can_read(bytes, at, 4) {
        Err(ParseError::UnexpectedEof)
    } else if word_at(bytes, at) == 0xFFFF_FFFF {
        Ok((seq![], at + 4))
    } else if !can_read(bytes, at, 12) {
        Err(ParseError::UnexpectedEof)
    } else {
        match parse_style(bytes, at + 12) {
            Err(error) => Err(error),
            Ok((spans, next)) => Ok((seq![span_at(bytes, at)] + spans, next)),
        }
    }
}

/// `n` styles, one after the other.
pub open spec fn parse_styles(bytes: Seq<u8>, at: int, n: int) -> Result<
    (Seq<Seq<StyleSpan>>, int),
    ParseError,
>
    decreases n,
{
    if n <= 0 {
        Ok((seq![], at))
    } else {
        match parse_styles(bytes, at, n - 1) {
            Err(error) => Err(error),
            Ok((styles, cursor)) => match parse_style(bytes, cursor) {
                Err(error) => Err(error),
                Ok((spans, next)) => Ok((styles.push(spans), next)),
            },
        }
    }
}

// ---------------------------------------------------------------------------
// String pool
// ---------------------------------------------------------------------------
/// The string pool whose chunk starts at `base`, and where the chunk ends.
/// The strings are read one after the other behind the two offset arrays;
/// the styles from where the pool says its style data starts.
#[verifier::opaque]
pub open spec fn parse_string_pool(bytes: Seq<u8>, base: int) -> Result<
    (StringPoolView, int),
    ParseError,
> {
    match parse_header(bytes, base) {
        Err(error) => Err(error),
        Ok(header) => if header.resource_type != ResourceType::StringPool {
            Err(ParseError::UnexpectedChunk)
        } else if !can_read(bytes, base, 28) {
            Err(ParseError::UnexpectedEof)
        } else {
            let string_count = word_at(bytes, base + 8);
            let style_count = word_at(bytes, base + 12);
            let flags = word_at(bytes, base + 16) as u32;
            let style_offset = word_at(bytes, base + 24);
            let offsets = body_start(base + 28, base, header.header_size as int);
            if !can_read(bytes, offsets, 4 * string_count + 4 * style_count) {
                Err(ParseError::UnexpectedEof)
            } else {
                match parse_strings(
                    bytes,
                    offsets + 4 * string_count + 4 * style_count,
                    string_count,
                    flags & UTF8_FLAG != 0,
                ) {
                    Err(error) => Err(error),
                    Ok((strings, _)) => if !can_read(bytes, base + style_offset, 0) {
                        Err(ParseError::UnexpectedEof)
                    } else {
                        match parse_styles(bytes, base + style_offset, style_count) {
                            Err(error) => Err(error),
                            Ok((styles, _)) => if !can_read(bytes, base + header.size, 0) {
                                Err(ParseError::UnexpectedEof)
                            } else {
                                Ok((StringPoolView { flags, strings, styles }, base + header.size))
                            },
                        }
                    },
                }
            }
        },
    }
}

// ---------------------------------------------------------------------------
// Values and entries
// ---------------------------------------------------------------------------
/// The value at `at`.
pub open spec fn value_at(bytes: Seq<u8>, at: int) -> Value {
    Value {
        size: half_at(bytes, at) as u16,
        zero: bytes[at + 2],
        data_type: bytes[at + 3],
        data_index: word_at(bytes, at + 4) as usize,
    }
}

/// The pairs of a bag, `count` of them from `at` on.
pub open spec fn bag_at(bytes: Seq<u8>, at: int, count: int) -> Seq<(u32, Value)> {
    Seq::new(
        if count >= 0 {
            count as nat
        } else {
            0
        },
        |i: int| (word_at(bytes, at + 12 * i) as u32, value_at(bytes, at + 12 * i + 4)),
    )
}

/// The entry at `at`, which stands at spec index `spec_id`: the size of its
/// header, which is not used, its flags, its name, and a bag if the flags
/// say so, else a plain value.
#[verifier::opaque]
pub open spec fn parse_entry(bytes: Seq<u8>, at: int, spec_id: usize) -> Result<
    (ResourceEntryView, int),
    ParseError,
> {
    if !can_read(bytes, at, 8) {
        Err(ParseError::UnexpectedEof)
    } else {
        let flags = half_at(bytes, at + 2) as u16;
        let name_index = word_at(bytes, at + 4) as usize;
        if flags & 0x0001 != 0 {
            if !can_read(bytes, at, 16) {
                Err(ParseError::UnexpectedEof)
            } else if !can_read(bytes, at + 16, 12 * word_at(bytes, at + 12)) {
                Err(ParseError::UnexpectedEof)
            } else {
                Ok(
                    (
                        ResourceEntryView {
                            flags,
                            spec_id,
                            name_index,
                            value: ResourceValueView::Bag {
                                parent: word_at(bytes, at + 8) as u32,
                                values: bag_at(bytes, at + 16, word_at(bytes, at + 12)),
                            },
                        },
                        at + 16 + 12 * word_at(bytes, at + 12),
                    ),
                )
            }
        } else if !can_read(bytes, at, 16) {
            Err(ParseError::UnexpectedEof)
        } else {
            Ok(
                (
                    ResourceEntryView {
                        flags,
                        spec_id,
                        name_index,
                        value: ResourceValueView::Plain(value_at(bytes, at + 8)),
                    },
                    at + 16,
                ),
            )
        }
    }
}

/// The entries of a configuration for the spec indices below `n`. The
/// offset table starts at `table`; a word of -1 there means that the index
/// has no entry. The entries themselves stand one after the other from
/// `data` on, in the order of their indices.
pub open spec fn parse_entries(bytes: Seq<u8>, table: int, data: int, n: int) -> Result<
    (Map<usize, ResourceEntryView>, int),
    ParseError,
>
    decreases n,
{
    if n <= 0 {
        Ok((Map::empty(), data))
    } else {
        match parse_entries(bytes, table, data, n - 1) {
            Err(error) => Err(error),
            Ok((resources, cursor)) => if signed_word_at(bytes, table + 4 * (n - 1)) == -1 {
                Ok((resources, cursor))
            } else {
                match parse_entry(bytes, cursor, (n - 1) as usize) {
                    Err(error) => Err(error),
                    Ok((entry, next)) => Ok((resources.insert((n - 1) as usize, entry), next)),
                }
            },
        }
    }
}

// ---------------------------------------------------------------------------
// Configurations and specs
// ---------------------------------------------------------------------------
/// The configuration whose chunk starts at `base` with the tag `header`, and
/// where its last entry ends. The qualifier blob says in its first word how
/// long it is, that word included, and is followed by padding to a multiple
/// of four bytes.
#[verifier::opaque]
pub open spec fn parse_config(bytes: Seq<u8>, base: int, header: Header) -> Result<
    (ConfigView, int),
    ParseError,
> {
    if !can_read(bytes, base, 24) {
        Err(ParseError::UnexpectedEof)
    } else {
        let entry_count = word_at(bytes, base + 12);
        let id_length = word_at(bytes, base + 20);
        if !can_read(bytes, base + 20, id_length) {
            Err(ParseError::UnexpectedEof)
        } else {
            let table = body_start(
                base + 20 + id_length + spec_padding(id_length),
                base,
                header.header_size as int,
            );
            if !can_read(bytes, table, 4 * entry_count) {
                Err(ParseError::UnexpectedEof)
            } else {
                match parse_entries(bytes, table, table + 4 * entry_count, entry_count) {
                    Err(error) => Err(error),
                    Ok((resources, next)) => Ok(
                        (
                            ConfigView {
                                type_id: bytes[base + 8] as usize,
                                res0: bytes[base + 9],
                                res1: half_at(bytes, base + 10) as u16,
                                entry_count: entry_count as usize,
                                id: bytes.subrange(base + 20, base + 20 + id_length),
                                resources,
                            },
                            next,
                        ),
                    ),
                }
            }
        }
    }
}

/// The specs whose flags start at `at`, numbered from zero, not named yet.
pub open spec fn specs_at(bytes: Seq<u8>, at: int, count: int) -> Seq<Spec> {
    Seq::new(
        if count >= 0 {
            count as nat
        } else {
            0
        },
        |i: int| Spec { flags: word_at(bytes, at + 4 * i) as u32, id: i as usize, name_index: 0 },
    )
}

/// The spec chunk that starts at `base` with the tag `header`, and where it
/// ends.
#[verifier::opaque]
pub open spec fn parse_specs(bytes: Seq<u8>, base: int, header: Header) -> Result<
    (SpecsView, int),
    ParseError,
> {
    if !can_read(bytes, base, 16) {
        Err(ParseError::UnexpectedEof)
    } else {
        let entry_count = word_at(bytes, base + 12);
        let flags = body_start(base + 16, base, header.header_size as int);
        if !can_read(bytes, flags, 4 * entry_count) {
            Err(ParseError::UnexpectedEof)
        } else if entry_count == 0 {
            Err(ParseError::EmptySpecs)
        } else {
            Ok(
                (
                    SpecsView {
                        type_id: bytes[base + 8] as usize,
                        res0: bytes[base + 9],
                        res1: half_at(bytes, base + 10) as u16,
                        specs: specs_at(bytes, flags, entry_count),
                    },
                    flags + 4 * entry_count,
                ),
            )
        }
    }
}

// ---------------------------------------------------------------------------
// Types
// ---------------------------------------------------------------------------
/// The types of a package before any chunk is read: one for each type name,
/// with ids from one on.
pub open spec fn empty_types(count: int) -> Seq<TypeView> {
    Seq::new(
        if count >= 0 {
            count as nat
        } else {
            0
        },
        |i: int| TypeView { id: (i + 1) as usize, specs: None, configs: Seq::empty() },
    )
}

/// `types` with the spec chunk given to the type that it names.
pub open spec fn attach_specs(types: Seq<TypeView>, specs: SpecsView) -> Result<
    Seq<TypeView>,
    ParseError,
> {
    if specs.type_id < 1 || specs.type_id > types.len() {
        Err(ParseError::TypeIdOutOfRange)
    } else if types[specs.type_id - 1].specs is Some {
        Err(ParseError::DuplicateSpecs)
    } else {
        Ok(
            types.update(
                specs.type_id - 1,
                TypeView { specs: Some(specs), ..types[specs.type_id - 1] },
            ),
        )
    }
}

/// `types` with the configuration added behind the others of the type that
/// it names.
pub open spec fn attach_config(types: Seq<TypeView>, config: ConfigView) -> Result<
    Seq<TypeView>,
    ParseError,
> {
    if config.type_id < 1 || config.type_id > types.len() {
        Err(ParseError::TypeIdOutOfRange)
    } else {
        Ok(
            types.update(
                config.type_id - 1,
                TypeView {
                    configs: types[config.type_id - 1].configs.push(config),
                    ..types[config.type_id - 1]
                },
            ),
        )
    }
}

/// `types` after the chunk at `at`, and where that chunk ends.
pub open spec fn parse_chunk(bytes: Seq<u8>, at: int, header: Header, types: Seq<TypeView>) -> Result<
    (Seq<TypeView>, int),
    ParseError,
> {
    match header.resource_type {
        ResourceType::TableTypeSpec => match parse_specs(bytes, at, header) {
            Err(error) => Err(error),
            Ok((specs, next)) => match attach_specs(types, specs) {
                Err(error) => Err(error),
                Ok(attached) => Ok((attached, next)),
            },
        },
        ResourceType::TableType => match parse_config(bytes, at, header) {
            Err(error) => Err(error),
            Ok((config, next)) => match attach_config(types, config) {
                Err(error) => Err(error),
                Ok(attached) => Ok((attached, next)),
            },
        },
        _ => Err(ParseError::UnexpectedChunk),
    }
}

/// The entries of a configuration end within the input, at or behind the
/// place where they start.
pub proof fn lemma_entries_advance(bytes: Seq<u8>, table: int, data: int, n: int)
    requires
        0 <= data <= bytes.len(),
        parse_entries(bytes, table, data, n) is Ok,
    ensures
        data <= parse_entries(bytes, table, data, n)->Ok_0.1 <= bytes.len(),
    decreases n,
{
    reveal(parse_entry);
    if n > 0 {
        lemma_entries_advance(bytes, table, data, n - 1);
    }
}

/// A chunk that is read ends within the input, behind the place where it
/// starts.
pub proof fn lemma_chunk_advances(bytes: Seq<u8>, at: int, header: Header, types: Seq<TypeView>)
    requires
        parse_chunk(bytes, at, header, types) is Ok,
    ensures
        at < parse_chunk(bytes, at, header, types)->Ok_0.1 <= bytes.len(),
{
    reveal(parse_specs);
    reveal(parse_config);
    if header.resource_type == ResourceType::TableType {
        let entry_count = word_at(bytes, at + 12);
        let id_length = word_at(bytes, at + 20);
        let table = body_start(
            at + 20 + id_length + spec_padding(id_length),
            at,
            header.header_size as int,
        );
        lemma_entries_advance(bytes, table, table + 4 * entry_count, entry_count);
    }
}

/// `types` after the chunks from `at` on, and where the last of them ends.
/// Chunks are read while they start before `end` and the input holds a whole
/// tag.
pub open spec fn parse_chunks(bytes: Seq<u8>, at: int, end: int, types: Seq<TypeView>) -> Result<
    (Seq<TypeView>, int),
    ParseError,
>
    decreases bytes.len() - at,
{
    if at >= end {
        Ok((types, at))
    } else {
        match parse_header(bytes, at) {
            Err(ParseError::UnexpectedEof) => Ok((types, at)),
            Err(error) => Err(error),
            Ok(header) => match parse_chunk(bytes, at, header, types) {
                Err(error) => Err(error),
                Ok((attached, next)) => {
                    proof {
                        lemma_chunk_advances(bytes, at, header, types);
                    }
                    parse_chunks(bytes, next, end, attached)
                },
            },
        }
    }
}

// ---------------------------------------------------------------------------
// Names of specs
// ---------------------------------------------------------------------------
/// The name that the configurations give to spec index `k`: that of the
/// entry at `k` in the last configuration that has one, else `unnamed`.
pub open spec fn name_from_configs(configs: Seq<ConfigView>, k: int, unnamed: usize) -> usize
    decreases configs.len(),
{
    if configs.len() == 0 {
        unnamed
    } else if configs.last().resources.contains_key(k as usize) {
        configs.last().resources[k as usize].name_index
    } else {
        name_from_configs(configs.drop_last(), k, unnamed)
    }
}

/// The specs with the names that one configuration gives: each spec at
/// whose index the configuration has an entry is named as that entry is.
pub open spec fn named_by(specs: SpecsView, config: ConfigView) -> SpecsView {
    SpecsView {
        specs: Seq::new(
            specs.specs.len(),
            |k: int|
                if config.resources.contains_key(k as usize) {
                    Spec { name_index: config.resources[k as usize].name_index, ..specs.specs[k] }
                } else {
                    specs.specs[k]
                },
        ),
        ..specs
    }
}

/// Whether every entry of the configurations stands at a spec index below `n`.
pub open spec fn entries_below(configs: Seq<ConfigView>, n: int) -> bool {
    forall|i: int, k: usize|
        0 <= i < configs.len() && #[trigger] configs[i].resources.contains_key(k) ==> k < n
}

/// The specs with each name taken from the entries that stand at its index.
pub open spec fn named_specs(specs: SpecsView, configs: Seq<ConfigView>) -> SpecsView {
    SpecsView {
        specs: Seq::new(
            specs.specs.len(),
            |k: int|
                Spec {
                    name_index: name_from_configs(configs, k, specs.specs[k].name_index),
                    ..specs.specs[k]
                },
        ),
        ..specs
    }
}

/// The type with the names of its specs filled in from its configurations.
/// A type without specs stays as it is.
#[verifier::opaque]
pub open spec fn named_type(entry: TypeView) -> Result<TypeView, ParseError> {
    match entry.specs {
        None => Ok(entry),
        Some(specs) => if !entries_below(entry.configs, specs.specs.len() as int) {
            Err(ParseError::SpecIndexOutOfRange)
        } else {
            Ok(TypeView { specs: Some(named_specs(specs, entry.configs)), ..entry })
        },
    }
}

/// The types with the names of their specs filled in.
#[verifier::opaque]
pub open spec fn named_types(types: Seq<TypeView>) -> Result<Seq<TypeView>, ParseError> {
    if exists|i: int| 0 <= i < types.len() && named_type(#[trigger] types[i]) is Err {
        Err(ParseError::SpecIndexOutOfRange)
    } else {
        Ok(Seq::new(types.len(), |i: int| named_type(types[i])->Ok_0))
    }
}

// ---------------------------------------------------------------------------
// Packages and the table
// ---------------------------------------------------------------------------
/// The package whose chunk starts at `base`, and where its last chunk ends.
#[verifier::opaque]
pub open spec fn parse_package(bytes: Seq<u8>, base: int) -> Result<(PackageView, int), ParseError> {
    match parse_header(bytes, base) {
        Err(error) => Err(error),
        Ok(header) => if header.resource_type != ResourceType::TablePackage {
            Err(ParseError::UnexpectedChunk)
        } else if !can_read(bytes, base, 268) {
            Err(ParseError::UnexpectedEof)
        } else if !valid_utf16(until_zero_unit(units_at(bytes, base + 12, 128))) {
            Err(ParseError::InvalidString)
        } else if !can_read(bytes, base, 288) {
            Err(ParseError::UnexpectedEof)
        } else if !can_read(bytes, body_start(base + 288, base, header.header_size as int), 0) {
            Err(ParseError::UnexpectedEof)
        } else {
            match parse_string_pool(
                bytes,
                body_start(base + 288, base, header.header_size as int),
            ) {
                Err(error) => Err(error),
                Ok((type_names, keys_at)) => match parse_string_pool(bytes, keys_at) {
                    Err(error) => Err(error),
                    Ok((key_names, chunks_at)) => match parse_chunks(
                        bytes,
                        chunks_at,
                        base + header.size,
                        empty_types(type_names.strings.len() as int),
                    ) {
                        Err(error) => Err(error),
                        Ok((types, next)) => match named_types(types) {
                            Err(error) => Err(error),
                            Ok(named) => Ok(
                                (
                                    PackageView {
                                        id: word_at(bytes, base + 8) as u32,
                                        name: decode_utf16(
                                            until_zero_unit(units_at(bytes, base + 12, 128)),
                                        ),
                                        type_names,
                                        last_public_type: word_at(bytes, base + 272) as u32,
                                        types: named,
                                        key_names,
                                        last_public_key: word_at(bytes, base + 280) as u32,
                                    },
                                    next,
                                ),
                            ),
                        },
                    },
                },
            }
        },
    }
}

/// `n` packages, one after the other.
pub open spec fn parse_packages(bytes: Seq<u8>, at: int, n: int) -> Result<
    (Seq<PackageView>, int),
    ParseError,
>
    decreases n,
{
    if n <= 0 {
        Ok((seq![], at))
    } else {
        match parse_packages(bytes, at, n - 1) {
            Err(error) => Err(error),
            Ok((packages, cursor)) => match parse_package(bytes, cursor) {
                Err(error) => Err(error),
                Ok((package, next)) => Ok((packages.push(package), next)),
            },
        }
    }
}

/// The table that `bytes` stands for: its tag, which must be that of a
/// table, the number of packages, the global string pool, and that many
/// packages.
pub open spec fn parse_table(bytes: Seq<u8>) -> Result<ArscView, ParseError> {
    match parse_header(bytes, 0) {
        Err(error) => Err(error),
        Ok(header) => if header.resource_type != ResourceType::Table {
            Err(ParseError::UnexpectedChunk)
        } else if !can_read(bytes, 0, 12) {
            Err(ParseError::UnexpectedEof)
        } else if !can_read(bytes, body_start(12, 0, header.header_size as int), 0) {
            Err(ParseError::UnexpectedEof)
        } else {
            match parse_string_pool(bytes, body_start(12, 0, header.header_size as int)) {
                Err(error) => Err(error),
                Ok((global_string_pool, packages_at)) => match parse_packages(
                    bytes,
                    packages_at,
                    word_at(bytes, 8),
                ) {
                    Err(error) => Err(error),
                    Ok((packages, _)) => Ok(ArscView { packages, global_string_pool }),
                },
            }
        },
    }
}

} // verus!
