//! What holds of the format as a whole: the planner and the serializer
//! agree, and what was written is read back.
use crate::components::{
    ArscView, ConfigView, PackageView, ResourceEntryView, ResourceType, ResourceValueView,
    SpecsView, StringPoolView, StyleSpan, TypeView, Value,
};
use crate::encoding::{
    concat, half_le, lemma_concat_len, lemma_concat_uniform, running_offsets, total, word_le,
};
use crate::layout::{
    config_sizes, config_wires, entry_offsets, entry_sizes, entry_wires, header_wire, name_wire,
    package_sizes, package_wires, span_wire, string_size, string_sizes, string_wire, string_wires,
    style_size, style_sizes, style_wire, style_wires, type_sizes, type_wires, units_wire,
    PACKAGE_NAME_UNITS,
};
use crate::text::encode_utf16;
use vstd::prelude::*;

pub mod chunks;
pub mod names;
pub mod offsets;
pub mod pool;
pub mod strings;
pub mod table;
pub mod types;

verus! {

/// Code units take two bytes each.
pub proof fn lemma_units_wire_len(units: Seq<u16>)
    ensures
        units_wire(units).len() == 2 * units.len(),
{
    broadcast use crate::encoding::lemma_half_len;

    lemma_concat_uniform(Seq::new(units.len(), |i: int| half_le(units[i] as int)), 2);
}

/// A string of a pool is written in as many bytes as the planner counts.
pub proof fn lemma_string_wire_len(chars: Seq<char>, utf8: bool)
    ensures
        string_wire(chars, utf8).len() == string_size(chars, utf8),
{
    broadcast use crate::encoding::lemma_half_len;

    lemma_units_wire_len(crate::text::encode_utf16(chars));
}

/// The strings of a pool are written in as many bytes as the planner counts.
pub proof fn lemma_strings_wire_len(strings: Seq<Seq<char>>, utf8: bool)
    ensures
        concat(string_wires(strings, utf8)).len() == total(string_sizes(strings, utf8)),
{
    assert forall|k: int| 0 <= k < strings.len() implies (#[trigger] string_wires(
        strings,
        utf8,
    )[k]).len() == string_sizes(strings, utf8)[k] by {
        lemma_string_wire_len(strings[k], utf8);
    }
    lemma_concat_len(string_wires(strings, utf8), string_sizes(strings, utf8));
}

/// The tag of a chunk takes eight bytes.
pub proof fn lemma_header_wire_len(kind: ResourceType, header_size: int, size: int)
    ensures
        header_wire(kind, header_size, size).len() == 8,
{
    broadcast use {crate::encoding::lemma_half_len, crate::encoding::lemma_word_len};

}

/// A table of running offsets takes four bytes for each part.
pub proof fn lemma_running_offsets_len(sizes: Seq<int>)
    ensures
        concat(running_offsets(sizes)).len() == 4 * sizes.len(),
{
    broadcast use crate::encoding::lemma_word_len;

    lemma_concat_uniform(running_offsets(sizes), 4);
}

/// A style is written in as many bytes as the planner counts.
pub proof fn lemma_style_wire_len(spans: Seq<StyleSpan>)
    ensures
        style_wire(spans).len() == style_size(spans),
{
    broadcast use crate::encoding::lemma_word_len;

    lemma_concat_uniform(Seq::new(spans.len(), |i: int| span_wire(spans[i])), 12);
}

/// The styles of a pool are written in as many bytes as the planner counts.
pub proof fn lemma_styles_wire_len(styles: Seq<Seq<StyleSpan>>)
    ensures
        concat(style_wires(styles)).len() == total(style_sizes(styles)),
{
    assert forall|k: int| 0 <= k < styles.len() implies (#[trigger] style_wires(styles)[k]).len()
        == style_sizes(styles)[k] by {
        lemma_style_wire_len(styles[k]);
    }
    lemma_concat_len(style_wires(styles), style_sizes(styles));
}

/// A string pool is written in as many bytes as the planner counts.
pub proof fn lemma_pool_wire_len(pool: StringPoolView)
    ensures
        pool.wire().len() == pool.size(),
{
    broadcast use crate::encoding::lemma_word_len;

    lemma_header_wire_len(ResourceType::StringPool, 0x1C, pool.size());
    lemma_running_offsets_len(string_sizes(pool.strings, pool.use_utf8()));
    lemma_running_offsets_len(style_sizes(pool.styles));
    lemma_strings_wire_len(pool.strings, pool.use_utf8());
    lemma_styles_wire_len(pool.styles);
}

/// A value is written in eight bytes.
pub proof fn lemma_value_wire_len(value: Value)
    ensures
        value.wire().len() == 8,
{
    broadcast use {crate::encoding::lemma_half_len, crate::encoding::lemma_word_len};

}

/// A plain value or a bag is written in as many bytes as the planner counts.
pub proof fn lemma_resource_value_wire_len(value: ResourceValueView)
    ensures
        value.wire().len() == value.size(),
{
    broadcast use crate::encoding::lemma_word_len;

    match value {
        ResourceValueView::Plain(plain) => {
            lemma_value_wire_len(plain);
        },
        ResourceValueView::Bag { parent, values } => {
            let parts = Seq::new(
                values.len(),
                |i: int| word_le(values[i].0 as int) + values[i].1.wire(),
            );
            assert forall|k: int| 0 <= k < parts.len() implies (#[trigger] parts[k]).len()
                == 12 by {
                lemma_value_wire_len(values[k].1);
            }
            lemma_concat_uniform(parts, 12);
        },
    }
}

/// An entry is written in as many bytes as the planner counts.
pub proof fn lemma_entry_wire_len(entry: ResourceEntryView)
    ensures
        entry.wire().len() == entry.size(),
{
    broadcast use {crate::encoding::lemma_half_len, crate::encoding::lemma_word_len};

    lemma_resource_value_wire_len(entry.value);
}

/// A configuration is written in as many bytes as the planner counts.
pub proof fn lemma_config_wire_len(config: ConfigView)
    ensures
        config.wire().len() == config.size(),
{
    broadcast use {crate::encoding::lemma_half_len, crate::encoding::lemma_word_len};

    let n = config.entry_count as int;
    lemma_header_wire_len(ResourceType::TableType, 0x54, config.size());
    lemma_concat_uniform(entry_offsets(config.resources, n), 4);
    assert forall|k: int| 0 <= k < n implies (#[trigger] entry_wires(config.resources, n)[k]).len()
        == entry_sizes(config.resources, n)[k] by {
        if config.resources.contains_key(k as usize) {
            lemma_entry_wire_len(config.resources[k as usize]);
        }
    }
    lemma_concat_len(entry_wires(config.resources, n), entry_sizes(config.resources, n));
}

/// A spec chunk is written in as many bytes as the planner counts.
pub proof fn lemma_specs_wire_len(specs: SpecsView)
    ensures
        specs.wire().len() == specs.size(),
{
    broadcast use {crate::encoding::lemma_half_len, crate::encoding::lemma_word_len};

    lemma_header_wire_len(ResourceType::TableTypeSpec, 0x10, specs.size());
    lemma_concat_uniform(
        Seq::new(specs.specs.len(), |i: int| word_le(specs.specs[i].flags as int)),
        4,
    );
}

/// A type is written in as many bytes as the planner counts.
pub proof fn lemma_type_wire_len(entry: TypeView)
    ensures
        entry.wire().len() == entry.size(),
{
    if let Some(specs) = entry.specs {
        lemma_specs_wire_len(specs);
    }
    assert forall|k: int| 0 <= k < entry.configs.len() implies (#[trigger] config_wires(
        entry.configs,
    )[k]).len() == config_sizes(entry.configs)[k] by {
        lemma_config_wire_len(entry.configs[k]);
    }
    lemma_concat_len(config_wires(entry.configs), config_sizes(entry.configs));
}

/// The name field of a package takes 256 bytes when the name fits it.
pub proof fn lemma_name_wire_len(name: Seq<char>)
    requires
        encode_utf16(name).len() <= PACKAGE_NAME_UNITS,
    ensures
        name_wire(name).len() == 256,
{
    lemma_units_wire_len(encode_utf16(name));
}

/// A package whose name fits its field is written in as many bytes as the
/// planner counts.
pub proof fn lemma_package_wire_len(package: PackageView)
    requires
        encode_utf16(package.name).len() <= PACKAGE_NAME_UNITS,
    ensures
        package.wire().len() == package.size(),
{
    broadcast use crate::encoding::lemma_word_len;

    lemma_header_wire_len(ResourceType::TablePackage, 0x120, package.size());
    lemma_name_wire_len(package.name);
    lemma_pool_wire_len(package.type_names);
    lemma_pool_wire_len(package.key_names);
    assert forall|k: int| 0 <= k < package.types.len() implies (#[trigger] type_wires(
        package.types,
    )[k]).len() == type_sizes(package.types)[k] by {
        lemma_type_wire_len(package.types[k]);
    }
    lemma_concat_len(type_wires(package.types), type_sizes(package.types));
}

/// The serializer and the planner agree: a table whose package names fit
/// their fields is written in exactly as many bytes as its planned size.
pub proof fn lemma_table_wire_len(table: ArscView)
    requires
        forall|i: int|
            0 <= i < table.packages.len() ==> encode_utf16((#[trigger] table.packages[i]).name).len()
                <= PACKAGE_NAME_UNITS,
    ensures
        table.wire().len() == table.size(),
{
    broadcast use crate::encoding::lemma_word_len;

    lemma_header_wire_len(ResourceType::Table, 0x0C, table.size());
    lemma_pool_wire_len(table.global_string_pool);
    assert forall|k: int| 0 <= k < table.packages.len() implies (#[trigger] package_wires(
        table.packages,
    )[k]).len() == package_sizes(table.packages)[k] by {
        lemma_package_wire_len(table.packages[k]);
    }
    lemma_concat_len(package_wires(table.packages), package_sizes(table.packages));
}

} // verus!
