//! The wire form of every node of a table: the bytes it is written as, how
//! many they are, and when the node fits the format at all.
use crate::components::{
    ArscView, ConfigView, Header, PackageView, ResourceEntryView, ResourceType, ResourceValueView,
    Spec, SpecsView, StringPoolView, StyleSpan, TypeView, Value,
};
use crate::encoding::{concat, half_le, running_offsets, total, word_le, zeros};
use crate::text::encode_utf16;
use vstd::prelude::*;
use vstd::utf8::encode_utf8;

verus! {

/// The `header_size` written for a table.
pub const TABLE_HEADER_SIZE: u16 = 0x000C;

/// The `header_size` written for a string pool.
pub const STRING_POOL_HEADER_SIZE: u16 = 0x001C;

/// The `header_size` written for a package.
pub const PACKAGE_HEADER_SIZE: u16 = 0x0120;

/// The `header_size` written for a spec chunk.
pub const SPECS_HEADER_SIZE: u16 = 0x0010;

/// The `header_size` written for a configuration.
pub const CONFIG_HEADER_SIZE: u16 = 0x0054;

/// Largest size or count that a 32-bit field of the format can hold.
pub const WIRE_MAX: u64 = 0xFFFF_FFFF;

/// Number of UTF-16 code units that the fixed name field of a package holds.
pub const PACKAGE_NAME_UNITS: usize = 128;

/// Number of zero bytes that bring `size` to the next multiple of four.
pub open spec fn spec_padding(size: int) -> int {
    (4 - size % 4) % 4
}

// ---------------------------------------------------------------------------
// Chunk header
// ---------------------------------------------------------------------------
/// The eight bytes of a chunk's tag.
pub open spec fn header_wire(kind: ResourceType, header_size: int, size: int) -> Seq<u8> {
    half_le(kind.spec_code() as int) + half_le(header_size) + word_le(size)
}

impl Header {
    /// The bytes that the tag is written as.
    pub open spec fn wire(self) -> Seq<u8> {
        header_wire(self.resource_type, self.header_size as int, self.size as int)
    }
}

// ---------------------------------------------------------------------------
// Strings
// ---------------------------------------------------------------------------
/// A length before a UTF-8 string: one byte up to 0x7F, else two bytes, the
/// first with its high bit set, the high byte first.
pub open spec fn utf8_length_wire(n: int) -> Seq<u8> {
    if n <= 0x7F {
        seq![n as u8]
    } else {
        seq![(0x80 + n / 256) as u8, (n % 256) as u8]
    }
}

/// Number of bytes of a length before a UTF-8 string.
pub open spec fn utf8_length_size(n: int) -> int {
    if n <= 0x7F {
        1
    } else {
        2
    }
}

/// A length before a UTF-16 string: one 16-bit word up to 0x7FFF, else two,
/// the first with its high bit set, the low 15 bits first.
pub open spec fn utf16_length_wire(n: int) -> Seq<u8> {
    if n <= 0x7FFF {
        half_le(n)
    } else {
        half_le(0x8000 + n % 0x8000) + half_le(n / 0x8000)
    }
}

/// Number of bytes of a length before a UTF-16 string.
pub open spec fn utf16_length_size(n: int) -> int {
    if n <= 0x7FFF {
        2
    } else {
        4
    }
}

/// Code units as bytes, each unit low byte first.
pub open spec fn units_wire(units: Seq<u16>) -> Seq<u8> {
    concat(Seq::new(units.len(), |i: int| half_le(units[i] as int)))
}

/// One string of a pool as UTF-8: the count of characters, the count of
/// bytes, the bytes, and a zero byte.
pub open spec fn utf8_string_wire(chars: Seq<char>) -> Seq<u8> {
    utf8_length_wire(chars.len() as int) + utf8_length_wire(encode_utf8(chars).len() as int)
        + encode_utf8(chars) + seq![0u8]
}

/// One string of a pool as UTF-16: the count of code units, the units, and a
/// zero unit.
pub open spec fn utf16_string_wire(chars: Seq<char>) -> Seq<u8> {
    utf16_length_wire(encode_utf16(chars).len() as int) + units_wire(encode_utf16(chars))
        + half_le(0)
}

/// Number of bytes of one string of a pool stored as UTF-8.
pub open spec fn spec_utf8_string_size(chars: Seq<char>) -> int {
    utf8_length_size(chars.len() as int) + utf8_length_size(encode_utf8(chars).len() as int)
        + encode_utf8(chars).len() + 1
}

/// Number of bytes of one string of a pool stored as UTF-16.
pub open spec fn spec_utf16_string_size(chars: Seq<char>) -> int {
    utf16_length_size(encode_utf16(chars).len() as int) + 2 * encode_utf16(chars).len() + 2
}

/// One string of a pool, in the encoding that `utf8` selects.
pub open spec fn string_wire(chars: Seq<char>, utf8: bool) -> Seq<u8> {
    if utf8 {
        utf8_string_wire(chars)
    } else {
        utf16_string_wire(chars)
    }
}

/// Number of bytes of one string of a pool, in the encoding that `utf8`
/// selects.
pub open spec fn string_size(chars: Seq<char>, utf8: bool) -> int {
    if utf8 {
        spec_utf8_string_size(chars)
    } else {
        spec_utf16_string_size(chars)
    }
}

/// Whether the lengths of a string fit their preambles: 15 bits for each
/// length of a UTF-8 string, 31 bits for the length of a UTF-16 string, which
/// must itself fit a pool.
pub open spec fn string_representable(chars: Seq<char>, utf8: bool) -> bool {
    if utf8 {
        chars.len() < 0x8000 && encode_utf8(chars).len() < 0x8000
    } else {
        encode_utf16(chars).len() < 0x8000_0000 && spec_utf16_string_size(chars) <= WIRE_MAX
    }
}

/// The wire form of each string of a pool.
pub open spec fn string_wires(strings: Seq<Seq<char>>, utf8: bool) -> Seq<Seq<u8>> {
    Seq::new(strings.len(), |i: int| string_wire(strings[i], utf8))
}

/// The size of each string of a pool.
pub open spec fn string_sizes(strings: Seq<Seq<char>>, utf8: bool) -> Seq<int> {
    Seq::new(strings.len(), |i: int| string_size(strings[i], utf8))
}

// ---------------------------------------------------------------------------
// Styles
// ---------------------------------------------------------------------------
/// The three words of a span: its name, its start and its end.
pub open spec fn span_wire(span: StyleSpan) -> Seq<u8> {
    word_le(span.name as int) + word_le(span.start as int) + word_le(span.end as int)
}

/// The spans of a style, one after the other.
pub open spec fn spans_wire(spans: Seq<StyleSpan>) -> Seq<u8> {
    concat(Seq::new(spans.len(), |i: int| span_wire(spans[i])))
}

/// One style: its spans and the word that ends them.
pub open spec fn style_wire(spans: Seq<StyleSpan>) -> Seq<u8> {
    spans_wire(spans) + word_le(0xFFFF_FFFF)
}

/// Number of bytes of one style: twelve for each span and four for the closing
/// word.
pub open spec fn style_size(spans: Seq<StyleSpan>) -> int {
    12 * (spans.len() as int) + 4
}

/// The wire form of each style of a pool.
pub open spec fn style_wires(styles: Seq<Seq<StyleSpan>>) -> Seq<Seq<u8>> {
    Seq::new(styles.len(), |i: int| style_wire(styles[i]))
}

/// The size of each style of a pool.
pub open spec fn style_sizes(styles: Seq<Seq<StyleSpan>>) -> Seq<int> {
    Seq::new(styles.len(), |i: int| style_size(styles[i]))
}

// ---------------------------------------------------------------------------
// String pool
// ---------------------------------------------------------------------------
impl StringPoolView {
    /// Distance from the start of the chunk to the string data.
    pub open spec fn strings_start(self) -> int {
        28 + 4 * (self.strings.len() as int) + 4 * (self.styles.len() as int)
    }

    /// Length of the string data, without its padding.
    pub open spec fn strings_length(self) -> int {
        total(string_sizes(self.strings, self.use_utf8()))
    }

    /// Distance from the start of the chunk to the style data; zero without
    /// styles.
    pub open spec fn styles_start(self) -> int {
        if self.styles.len() == 0 {
            0
        } else {
            self.strings_start() + self.strings_length() + spec_padding(self.strings_length())
        }
    }

    /// Length of the style data with its two closing words; zero without
    /// styles.
    pub open spec fn styles_length(self) -> int {
        if self.styles.len() == 0 {
            0
        } else {
            total(style_sizes(self.styles)) + 8
        }
    }

    /// The number of bytes that the pool is written as.
    pub open spec fn size(self) -> int {
        self.strings_start() + self.strings_length() + spec_padding(self.strings_length())
            + self.styles_length()
    }

    /// Whether the pool fits the format: every length fits its preamble and
    /// the chunk's size fits 32 bits.
    pub open spec fn representable(self) -> bool {
        &&& forall|i: int|
            0 <= i < self.strings.len() ==> string_representable(
                #[trigger] self.strings[i],
                self.use_utf8(),
            )
        &&& self.size() <= WIRE_MAX
    }

    /// The bytes that the pool is written as.
    pub open spec fn wire(self) -> Seq<u8> {
        header_wire(ResourceType::StringPool, STRING_POOL_HEADER_SIZE as int, self.size())
            + word_le(self.strings.len() as int) + word_le(self.styles.len() as int) + word_le(
            self.flags as int,
        ) + word_le(self.strings_start()) + word_le(self.styles_start()) + concat(
            running_offsets(string_sizes(self.strings, self.use_utf8())),
        ) + concat(running_offsets(style_sizes(self.styles))) + concat(
            string_wires(self.strings, self.use_utf8()),
        ) + zeros(spec_padding(self.strings_length())) + concat(style_wires(self.styles))
            + (if self.styles.len() == 0 {
            seq![]
        } else {
            word_le(0xFFFF_FFFF) + word_le(0xFFFF_FFFF)
        })
    }
}

// ---------------------------------------------------------------------------
// Values and entries
// ---------------------------------------------------------------------------
impl Value {
    /// Whether the value fits the format.
    pub open spec fn representable(self) -> bool {
        self.data_index <= WIRE_MAX
    }

    /// The bytes that the value is written as.
    pub open spec fn wire(self) -> Seq<u8> {
        half_le(self.size as int) + seq![self.zero, self.data_type] + word_le(
            self.data_index as int,
        )
    }
}

/// The pairs of a bag, each an index and a value.
pub open spec fn bag_wire(values: Seq<(u32, Value)>) -> Seq<u8> {
    concat(Seq::new(values.len(), |i: int| word_le(values[i].0 as int) + values[i].1.wire()))
}

impl ResourceValueView {
    /// The number of bytes that the value is written as.
    pub open spec fn size(self) -> int {
        match self {
            ResourceValueView::Plain(_) => 8,
            ResourceValueView::Bag { parent, values } => 8 + 12 * (values.len() as int),
        }
    }

    /// Whether the value fits the format.
    pub open spec fn representable(self) -> bool {
        match self {
            ResourceValueView::Plain(value) => value.representable(),
            ResourceValueView::Bag { parent, values } => {
                &&& forall|i: int|
                    0 <= i < values.len() ==> (#[trigger] values[i]).1.representable()
                &&& self.size() <= WIRE_MAX
            },
        }
    }

    /// The bytes that the value is written as.
    pub open spec fn wire(self) -> Seq<u8> {
        match self {
            ResourceValueView::Plain(value) => value.wire(),
            ResourceValueView::Bag { parent, values } => word_le(parent as int) + word_le(
                values.len() as int,
            ) + bag_wire(values),
        }
    }
}

impl ResourceEntryView {
    /// The number of bytes that the entry is written as.
    pub open spec fn size(self) -> int {
        8 + self.value.size()
    }

    /// Whether the entry fits the format: its name fits 32 bits, its flags
    /// announce a bag exactly when it holds one, and its value fits.
    pub open spec fn representable(self) -> bool {
        &&& self.name_index <= WIRE_MAX
        &&& self.is_bag() == (self.value is Bag)
        &&& self.value.representable()
        &&& self.size() <= WIRE_MAX
    }

    /// The bytes that the entry is written as.
    pub open spec fn wire(self) -> Seq<u8> {
        half_le(
            if self.value is Bag {
                16
            } else {
                8
            },
        ) + half_le(self.flags as int) + word_le(self.name_index as int) + self.value.wire()
    }
}

/// For each spec index below `n`, the size of the entry that `resources`
/// holds there, or zero.
pub open spec fn entry_sizes(resources: Map<usize, ResourceEntryView>, n: int) -> Seq<int> {
    Seq::new(
        if n >= 0 {
            n as nat
        } else {
            0
        },
        |i: int|
            if resources.contains_key(i as usize) {
                resources[i as usize].size()
            } else {
                0
            },
    )
}

/// For each spec index below `n`, the wire form of the entry that
/// `resources` holds there, or nothing.
pub open spec fn entry_wires(resources: Map<usize, ResourceEntryView>, n: int) -> Seq<Seq<u8>> {
    Seq::new(
        if n >= 0 {
            n as nat
        } else {
            0
        },
        |i: int|
            if resources.contains_key(i as usize) {
                resources[i as usize].wire()
            } else {
                seq![]
            },
    )
}

/// The words of a configuration's offset table: for a spec index that has an
/// entry, the total size of the entries before it; for one that has none,
/// 0xFFFFFFFF.
pub open spec fn entry_offsets(resources: Map<usize, ResourceEntryView>, n: int) -> Seq<Seq<u8>> {
    Seq::new(
        if n >= 0 {
            n as nat
        } else {
            0
        },
        |i: int|
            if resources.contains_key(i as usize) {
                word_le(total(entry_sizes(resources, n).take(i)))
            } else {
                word_le(0xFFFF_FFFF)
            },
    )
}

// ---------------------------------------------------------------------------
// Configurations and specs
// ---------------------------------------------------------------------------
impl ConfigView {
    /// Distance from the start of the chunk to the first entry.
    pub open spec fn entries_start(self) -> int {
        20 + self.id.len() + spec_padding(self.id.len() as int) + 4 * self.entry_count
    }

    /// The number of bytes that the configuration is written as.
    pub open spec fn size(self) -> int {
        self.entries_start() + total(entry_sizes(self.resources, self.entry_count as int))
    }

    /// Whether the configuration fits the format: the type id fits a byte,
    /// every resource stands at a spec index below `entry_count` and fits,
    /// and the chunk's size fits 32 bits.
    pub open spec fn representable(self) -> bool {
        &&& self.type_id <= 0xFF
        &&& forall|k: usize| #[trigger]
            self.resources.contains_key(k) ==> k < self.entry_count
                && self.resources[k].representable()
        &&& self.size() <= WIRE_MAX
    }

    /// The bytes that the configuration is written as.
    pub open spec fn wire(self) -> Seq<u8> {
        header_wire(ResourceType::TableType, CONFIG_HEADER_SIZE as int, self.size()) + seq![
            self.type_id as u8,
            self.res0,
        ] + half_le(self.res1 as int) + word_le(self.entry_count as int) + word_le(
            self.entries_start(),
        ) + self.id + zeros(spec_padding(self.id.len() as int)) + concat(
            entry_offsets(self.resources, self.entry_count as int),
        ) + concat(entry_wires(self.resources, self.entry_count as int))
    }
}

/// The flags of the specs, one word each.
pub open spec fn spec_flags_wire(specs: Seq<Spec>) -> Seq<u8> {
    concat(Seq::new(specs.len(), |i: int| word_le(specs[i].flags as int)))
}

impl SpecsView {
    /// The number of bytes that the spec chunk is written as.
    pub open spec fn size(self) -> int {
        16 + 4 * (self.specs.len() as int)
    }

    /// Whether the spec chunk fits the format.
    pub open spec fn representable(self) -> bool {
        &&& self.type_id <= 0xFF
        &&& self.size() <= WIRE_MAX
    }

    /// The bytes that the spec chunk is written as.
    pub open spec fn wire(self) -> Seq<u8> {
        header_wire(ResourceType::TableTypeSpec, SPECS_HEADER_SIZE as int, self.size()) + seq![
            self.type_id as u8,
            self.res0,
        ] + half_le(self.res1 as int) + word_le(self.specs.len() as int) + spec_flags_wire(
            self.specs,
        )
    }
}

// ---------------------------------------------------------------------------
// Types
// ---------------------------------------------------------------------------
/// The size of each configuration.
pub open spec fn config_sizes(configs: Seq<ConfigView>) -> Seq<int> {
    Seq::new(configs.len(), |i: int| configs[i].size())
}

/// The wire form of each configuration.
pub open spec fn config_wires(configs: Seq<ConfigView>) -> Seq<Seq<u8>> {
    Seq::new(configs.len(), |i: int| configs[i].wire())
}

impl TypeView {
    /// Number of bytes of the spec chunk; zero without one.
    pub open spec fn specs_size(self) -> int {
        match self.specs {
            Some(specs) => specs.size(),
            None => 0,
        }
    }

    /// The number of bytes that the type is written as.
    pub open spec fn size(self) -> int {
        self.specs_size() + total(config_sizes(self.configs))
    }

    /// Whether the specs, if any, and every configuration fit the format.
    pub open spec fn representable(self) -> bool {
        &&& self.specs matches Some(specs) ==> specs.representable()
        &&& forall|i: int|
            0 <= i < self.configs.len() ==> (#[trigger] self.configs[i]).representable()
    }

    /// The spec chunk, if any, then the configurations in their order.
    pub open spec fn wire(self) -> Seq<u8> {
        (match self.specs {
            Some(specs) => specs.wire(),
            None => seq![],
        }) + concat(config_wires(self.configs))
    }
}

/// The size of each type.
pub open spec fn type_sizes(types: Seq<TypeView>) -> Seq<int> {
    Seq::new(types.len(), |i: int| types[i].size())
}

/// The wire form of each type.
pub open spec fn type_wires(types: Seq<TypeView>) -> Seq<Seq<u8>> {
    Seq::new(types.len(), |i: int| types[i].wire())
}

// ---------------------------------------------------------------------------
// Packages and the table
// ---------------------------------------------------------------------------
/// The fixed name field of a package: the code units of the name, then zero
/// bytes up to 256 bytes.
pub open spec fn name_wire(name: Seq<char>) -> Seq<u8> {
    units_wire(encode_utf16(name)) + zeros(256 - 2 * encode_utf16(name).len())
}

impl PackageView {
    /// Distance from the start of the chunk to the pool of type names.
    pub open spec fn type_strings_start(self) -> int {
        288
    }

    /// Distance from the start of the chunk to the pool of key names.
    pub open spec fn key_strings_start(self) -> int {
        288 + self.type_names.size()
    }

    /// The number of bytes that the package is written as.
    pub open spec fn size(self) -> int {
        288 + self.type_names.size() + self.key_names.size() + total(type_sizes(self.types))
    }

    /// Whether the package fits the format: the name leaves room for its
    /// closing zero unit, both pools and every type fit, and the chunk's size
    /// fits 32 bits.
    pub open spec fn representable(self) -> bool {
        &&& encode_utf16(self.name).len() < PACKAGE_NAME_UNITS
        &&& self.type_names.representable()
        &&& self.key_names.representable()
        &&& forall|i: int| 0 <= i < self.types.len() ==> (#[trigger] self.types[i]).representable()
        &&& self.size() <= WIRE_MAX
    }

    /// The fixed part of the chunk: its tag, the id, the name field, where the
    /// two pools start, and the two bookkeeping words.
    pub open spec fn preamble_wire(self) -> Seq<u8> {
        header_wire(ResourceType::TablePackage, PACKAGE_HEADER_SIZE as int, self.size())
            + word_le(self.id as int) + name_wire(self.name) + word_le(self.type_strings_start())
            + word_le(self.last_public_type as int) + word_le(self.key_strings_start()) + word_le(
            self.last_public_key as int,
        ) + word_le(0)
    }

    /// The bytes that the package is written as.
    pub open spec fn wire(self) -> Seq<u8> {
        self.preamble_wire() + self.type_names.wire() + self.key_names.wire() + concat(
            type_wires(self.types),
        )
    }
}

/// The size of each package.
pub open spec fn package_sizes(packages: Seq<PackageView>) -> Seq<int> {
    Seq::new(packages.len(), |i: int| packages[i].size())
}

/// The wire form of each package.
pub open spec fn package_wires(packages: Seq<PackageView>) -> Seq<Seq<u8>> {
    Seq::new(packages.len(), |i: int| packages[i].wire())
}

impl ArscView {
    /// The number of bytes that the table is written as.
    pub open spec fn size(self) -> int {
        12 + self.global_string_pool.size() + total(package_sizes(self.packages))
    }

    /// Whether the table fits the format: the global pool and every package
    /// fit, and the table's size fits 32 bits.
    pub open spec fn representable(self) -> bool {
        &&& self.global_string_pool.representable()
        &&& forall|i: int|
            0 <= i < self.packages.len() ==> (#[trigger] self.packages[i]).representable()
        &&& self.packages.len() <= WIRE_MAX
        &&& self.size() <= WIRE_MAX
    }

    /// The whole table: the tag, the number of packages, the global pool and
    /// the packages.
    pub open spec fn wire(self) -> Seq<u8> {
        header_wire(ResourceType::Table, TABLE_HEADER_SIZE as int, self.size()) + word_le(
            self.packages.len() as int,
        ) + self.global_string_pool.wire() + concat(package_wires(self.packages))
    }
}

} // verus!
