//! Every offset that is written leads to what it announces.
use crate::components::{ConfigView, PackageView, ResourceEntryView, ResourceType, StringPoolView};
use crate::encoding::{
    concat, holds_at, lemma_concat_len, lemma_half_len, lemma_holds_part, lemma_holds_split,
    lemma_holds_word, lemma_total_monotone, lemma_total_nonnegative, lemma_word_len,
    running_offsets, total, word_le,
};
use crate::grammar::{parse_entry, parse_string, parse_string_pool, parse_style, ParseError};
use crate::laws::chunks::{lemma_config_parts, lemma_entry_round_trip};
use crate::laws::pool::{lemma_pool_parts, lemma_pool_round_trip, lemma_style_round_trip};
use crate::laws::strings::lemma_string_round_trip;
use crate::laws::{
    lemma_entry_wire_len, lemma_header_wire_len, lemma_name_wire_len, lemma_pool_wire_len,
    lemma_string_wire_len, lemma_style_wire_len,
};
use crate::layout::{
    entry_offsets, entry_sizes, entry_wires, string_sizes, string_wire, string_wires, style_sizes,
    style_wire, style_wires, type_wires,
};
use crate::writer::components_sizing::{
    keys_below, lemma_entry_sizes_nonnegative, lemma_keys_below_all, lemma_keys_below_step,
};
use vstd::prelude::*;

verus! {

/// A sequence of bytes holds itself from its start.
pub proof fn lemma_holds_itself(bytes: Seq<u8>)
    ensures
        holds_at(bytes, 0, bytes),
{
    assert(bytes.subrange(0, bytes.len() as int) =~= bytes);
}

/// Two values of 32 bits that are written as the same word are the same.
pub proof fn lemma_word_injective(x: int, y: int)
    requires
        0 <= x < 0x1_0000_0000,
        0 <= y < 0x1_0000_0000,
        word_le(x) == word_le(y),
    ensures
        x == y,
{
    lemma_word_len(x);
    lemma_holds_itself(word_le(x));
    lemma_holds_word(word_le(x), 0, x);
    lemma_holds_word(word_le(x), 0, y);
}

/// The string offsets of a pool do not dangle: word `i` of the offset array
/// holds the distance from `strings_start` to the place where the pool holds
/// string `i`, and a readable string is read there.
pub proof fn lemma_string_offset_closed(pool: StringPoolView, i: int)
    requires
        pool.readable(),
        0 <= i < pool.strings.len(),
    ensures
        running_offsets(string_sizes(pool.strings, pool.use_utf8()))[i] == word_le(
            total(string_sizes(pool.strings, pool.use_utf8()).take(i)),
        ),
        holds_at(
            pool.wire(),
            pool.strings_start() + total(string_sizes(pool.strings, pool.use_utf8()).take(i)),
            string_wire(pool.strings[i], pool.use_utf8()),
        ),
        parse_string(
            pool.wire(),
            pool.strings_start() + total(string_sizes(pool.strings, pool.use_utf8()).take(i)),
            pool.use_utf8(),
        ) is Ok,
        parse_string(
            pool.wire(),
            pool.strings_start() + total(string_sizes(pool.strings, pool.use_utf8()).take(i)),
            pool.use_utf8(),
        )->Ok_0.0 == pool.strings[i],
{
    let bytes = pool.wire();
    let utf8 = pool.use_utf8();
    let sizes = string_sizes(pool.strings, utf8);
    let wires = string_wires(pool.strings, utf8);
    lemma_holds_itself(bytes);
    lemma_pool_parts(bytes, 0, pool);
    lemma_holds_part(bytes, pool.strings_start(), wires, i);
    assert forall|k: int| 0 <= k < i implies (#[trigger] wires.take(i)[k]).len() == sizes.take(
        i,
    )[k] by {
        lemma_string_wire_len(pool.strings[k], utf8);
    }
    lemma_concat_len(wires.take(i), sizes.take(i));
    lemma_string_round_trip(
        bytes,
        pool.strings_start() + total(sizes.take(i)),
        pool.strings[i],
        utf8,
    );
}

/// The style offsets of a pool do not dangle: word `i` of the offset array
/// holds the distance from `styles_start` to the place where the pool holds
/// style `i`, and a readable style is read there.
pub proof fn lemma_style_offset_closed(pool: StringPoolView, i: int)
    requires
        pool.readable(),
        0 <= i < pool.styles.len(),
    ensures
        running_offsets(style_sizes(pool.styles))[i] == word_le(
            total(style_sizes(pool.styles).take(i)),
        ),
        holds_at(
            pool.wire(),
            pool.styles_start() + total(style_sizes(pool.styles).take(i)),
            style_wire(pool.styles[i]),
        ),
        parse_style(pool.wire(), pool.styles_start() + total(style_sizes(pool.styles).take(i)))
            is Ok,
        parse_style(
            pool.wire(),
            pool.styles_start() + total(style_sizes(pool.styles).take(i)),
        )->Ok_0.0 == pool.styles[i],
{
    let bytes = pool.wire();
    let spans = style_sizes(pool.styles);
    let wires = style_wires(pool.styles);
    lemma_holds_itself(bytes);
    lemma_pool_parts(bytes, 0, pool);
    lemma_holds_part(bytes, pool.styles_start(), wires, i);
    assert forall|k: int| 0 <= k < i implies (#[trigger] wires.take(i)[k]).len() == spans.take(
        i,
    )[k] by {
        lemma_style_wire_len(pool.styles[k]);
    }
    lemma_concat_len(wires.take(i), spans.take(i));
    lemma_style_round_trip(bytes, pool.styles_start() + total(spans.take(i)), pool.styles[i]);
}

/// The two pool offsets of a package do not dangle: the package holds the
/// pool of type names where `type_strings_start` says and the pool of key
/// names where `key_strings_start` says, and each is read there.
pub proof fn lemma_pool_offsets_closed(package: PackageView)
    requires
        package.readable(),
    ensures
        holds_at(package.wire(), package.type_strings_start(), package.type_names.wire()),
        holds_at(package.wire(), package.key_strings_start(), package.key_names.wire()),
        parse_string_pool(package.wire(), package.type_strings_start()) == Ok::<
            (StringPoolView, int),
            ParseError,
        >((package.type_names, package.key_strings_start())),
        parse_string_pool(package.wire(), package.key_strings_start()) == Ok::<
            (StringPoolView, int),
            ParseError,
        >((package.key_names, package.key_strings_start() + package.key_names.size())),
{
    broadcast use {lemma_half_len, lemma_word_len};

    let bytes = package.wire();
    lemma_holds_itself(bytes);
    lemma_header_wire_len(ResourceType::TablePackage, 0x120, package.size());
    lemma_name_wire_len(package.name);
    lemma_pool_wire_len(package.type_names);
    let with_type_names = package.preamble_wire() + package.type_names.wire();
    let with_key_names = with_type_names + package.key_names.wire();
    lemma_holds_split(bytes, 0, with_key_names, concat(type_wires(package.types)));
    lemma_holds_split(bytes, 0, with_type_names, package.key_names.wire());
    lemma_holds_split(bytes, 0, package.preamble_wire(), package.type_names.wire());
    lemma_pool_round_trip(bytes, package.type_strings_start(), package.type_names);
    lemma_pool_round_trip(bytes, package.key_strings_start(), package.key_names);
}

/// The number of spec indices below `n` at which `resources` holds no entry.
pub open spec fn missing_below(resources: Map<usize, ResourceEntryView>, n: int) -> int
    decreases n,
{
    if n <= 0 {
        0
    } else {
        missing_below(resources, n - 1) + (if resources.contains_key((n - 1) as usize) {
            0int
        } else {
            1int
        })
    }
}

/// Below `n`, the indices with an entry and those without are `n` together.
pub proof fn lemma_missing_and_present(resources: Map<usize, ResourceEntryView>, n: int)
    requires
        resources.dom().finite(),
        0 <= n <= usize::MAX,
    ensures
        missing_below(resources, n) + keys_below(resources, n).len() == n,
    decreases n,
{
    if n == 0 {
        assert(keys_below(resources, 0) =~= Set::empty());
    } else {
        lemma_missing_and_present(resources, n - 1);
        lemma_keys_below_step(resources, (n - 1) as usize);
    }
}

/// The offset table of a configuration with `entry_count` slots and
/// entries at some of the spec indices: the word of a slot is 0xFFFFFFFF
/// exactly when the slot has no entry, which is so for `entry_count` less
/// the number of entries slots; the word of a slot with an entry is the
/// total size of the entries before it, and the configuration holds the
/// entry at that distance from `entries_start`, where it is read.
pub proof fn lemma_offset_table(config: ConfigView, i: int)
    requires
        config.representable(),
        config.resources.dom().finite(),
        0 <= i < config.entry_count,
    ensures
        missing_below(config.resources, config.entry_count as int) == config.entry_count
            - config.resources.dom().len(),
        entry_offsets(config.resources, config.entry_count as int)[i] == word_le(0xFFFF_FFFF)
            <==> !config.resources.contains_key(i as usize),
        config.resources.contains_key(i as usize) ==> {
            &&& entry_offsets(config.resources, config.entry_count as int)[i] == word_le(
                total(entry_sizes(config.resources, config.entry_count as int).take(i)),
            )
            &&& holds_at(
                config.wire(),
                config.entries_start() + total(
                    entry_sizes(config.resources, config.entry_count as int).take(i),
                ),
                config.resources[i as usize].wire(),
            )
            &&& parse_entry(
                config.wire(),
                config.entries_start() + total(
                    entry_sizes(config.resources, config.entry_count as int).take(i),
                ),
                config.resources[i as usize].spec_id,
            ) is Ok
            &&& parse_entry(
                config.wire(),
                config.entries_start() + total(
                    entry_sizes(config.resources, config.entry_count as int).take(i),
                ),
                config.resources[i as usize].spec_id,
            )->Ok_0.0 == config.resources[i as usize]
        },
{
    broadcast use {lemma_half_len, lemma_word_len};

    let count = config.entry_count as int;
    let resources = config.resources;
    let sizes = entry_sizes(resources, count);
    let wires = entry_wires(resources, count);
    let bytes = config.wire();
    lemma_missing_and_present(resources, count);
    lemma_keys_below_all(resources, count);
    lemma_entry_sizes_nonnegative(resources, count);
    lemma_total_nonnegative(sizes);
    lemma_total_monotone(sizes, i);
    if resources.contains_key(i as usize) {
        if entry_offsets(resources, count)[i] == word_le(0xFFFF_FFFF) {
            lemma_word_injective(total(sizes.take(i)), 0xFFFF_FFFF);
        }
        lemma_holds_itself(bytes);
        lemma_config_parts(bytes, 0, config);
        lemma_holds_part(bytes, config.entries_start(), wires, i);
        assert forall|k: int| 0 <= k < i implies (#[trigger] wires.take(i)[k]).len() == sizes.take(
            i,
        )[k] by {
            if resources.contains_key(k as usize) {
                lemma_entry_wire_len(resources[k as usize]);
            }
        }
        lemma_concat_len(wires.take(i), sizes.take(i));
        lemma_entry_round_trip(
            bytes,
            config.entries_start() + total(sizes.take(i)),
            resources[i as usize],
        );
    }
}

} // verus!
