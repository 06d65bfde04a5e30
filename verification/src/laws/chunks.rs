//! Entries, configurations and spec chunks are read back as they were
//! written.
use crate::components::{
    ConfigView, Header, ResourceEntryView, ResourceType, ResourceValueView, Spec, SpecsView, Value,
};
use crate::encoding::{
    concat, half_le, holds_at, lemma_concat_len, lemma_concat_uniform, lemma_half_len,
    lemma_holds_half, lemma_holds_part, lemma_holds_split, lemma_holds_word, lemma_total_monotone,
    lemma_total_nonnegative, lemma_total_step, lemma_word_len, total, word_le, zeros,
};
use crate::grammar::{
    bag_at, parse_config, parse_entries, parse_entry, parse_header, parse_specs, specs_at, value_at,
    ParseError,
};
use crate::laws::pool::lemma_header_round_trip;
use crate::laws::{
    lemma_config_wire_len, lemma_entry_wire_len, lemma_header_wire_len,
    lemma_resource_value_wire_len, lemma_specs_wire_len, lemma_value_wire_len,
};
use crate::layout::{entry_offsets, entry_sizes, entry_wires, header_wire, spec_padding};
use crate::writer::components_sizing::lemma_entry_sizes_nonnegative;
use vstd::prelude::*;

verus! {

/// A value is read back as it was written.
pub proof fn lemma_value_round_trip(bytes: Seq<u8>, at: int, value: Value)
    requires
        value.representable(),
        holds_at(bytes, at, value.wire()),
    ensures
        value_at(bytes, at) == value,
        at + 8 <= bytes.len(),
{
    broadcast use {lemma_half_len, lemma_word_len};

    let size = half_le(value.size as int);
    let middle = seq![value.zero, value.data_type];
    lemma_holds_split(bytes, at, size + middle, word_le(value.data_index as int));
    lemma_holds_split(bytes, at, size, middle);
    lemma_holds_half(bytes, at, value.size as int);
    lemma_holds_word(bytes, at + 4, value.data_index as int);
    let held = bytes.subrange(at + 2, at + 4);
    assert(held[0] == bytes[at + 2]);
    assert(held[1] == bytes[at + 3]);
}

/// The pairs of a bag are read back as they were written.
pub proof fn lemma_bag_round_trip(bytes: Seq<u8>, at: int, values: Seq<(u32, Value)>)
    requires
        forall|i: int| 0 <= i < values.len() ==> (#[trigger] values[i]).1.representable(),
        holds_at(
            bytes,
            at,
            concat(
                Seq::new(values.len(), |i: int| word_le(values[i].0 as int) + values[i].1.wire()),
            ),
        ),
    ensures
        bag_at(bytes, at, values.len() as int) == values,
        at + 12 * values.len() <= bytes.len(),
{
    broadcast use lemma_word_len;

    let parts = Seq::new(values.len(), |i: int| word_le(values[i].0 as int) + values[i].1.wire());
    assert forall|k: int| 0 <= k < parts.len() implies (#[trigger] parts[k]).len() == 12 by {
        lemma_value_wire_len(values[k].1);
    }
    lemma_concat_uniform(parts, 12);
    assert forall|i: int| 0 <= i < values.len() implies bag_at(bytes, at, values.len() as int)[i]
        == values[i] by {
        lemma_holds_part(bytes, at, parts, i);
        assert forall|k: int| 0 <= k < parts.take(i).len() implies (#[trigger] parts.take(
            i,
        )[k]).len() == 12 by {
            assert(parts.take(i)[k] == parts[k]);
        }
        lemma_concat_uniform(parts.take(i), 12);
        lemma_holds_split(bytes, at + 12 * i, word_le(values[i].0 as int), values[i].1.wire());
        lemma_holds_word(bytes, at + 12 * i, values[i].0 as int);
        lemma_value_round_trip(bytes, at + 12 * i + 4, values[i].1);
    }
    assert(bag_at(bytes, at, values.len() as int) =~= values);
}

/// An entry is read back as it was written, at the spec index that it
/// records.
pub proof fn lemma_entry_round_trip(bytes: Seq<u8>, at: int, entry: ResourceEntryView)
    requires
        entry.representable(),
        holds_at(bytes, at, entry.wire()),
    ensures
        parse_entry(bytes, at, entry.spec_id) == Ok::<(ResourceEntryView, int), ParseError>(
            (entry, at + entry.size()),
        ),
        at + entry.size() <= bytes.len(),
{
    broadcast use {lemma_half_len, lemma_word_len};

    reveal(parse_entry);
    lemma_entry_wire_len(entry);
    lemma_resource_value_wire_len(entry.value);
    let size = half_le(
        if entry.value is Bag {
            16
        } else {
            8
        },
    );
    let flags = half_le(entry.flags as int);
    let name = word_le(entry.name_index as int);
    lemma_holds_split(bytes, at, size + flags + name, entry.value.wire());
    lemma_holds_split(bytes, at, size + flags, name);
    lemma_holds_split(bytes, at, size, flags);
    lemma_holds_half(bytes, at + 2, entry.flags as int);
    lemma_holds_word(bytes, at + 4, entry.name_index as int);
    match entry.value {
        ResourceValueView::Plain(value) => {
            lemma_value_round_trip(bytes, at + 8, value);
        },
        ResourceValueView::Bag { parent, values } => {
            let pairs = concat(
                Seq::new(values.len(), |i: int| word_le(values[i].0 as int) + values[i].1.wire()),
            );
            lemma_holds_split(
                bytes,
                at + 8,
                word_le(parent as int) + word_le(values.len() as int),
                pairs,
            );
            lemma_holds_split(bytes, at + 8, word_le(parent as int), word_le(values.len() as int));
            lemma_holds_word(bytes, at + 8, parent as int);
            lemma_holds_word(bytes, at + 12, values.len() as int);
            lemma_bag_round_trip(bytes, at + 16, values);
        },
    }
}

/// The entries of a map at spec indices below `n`.
pub open spec fn entries_below_index(resources: Map<usize, ResourceEntryView>, n: int) -> Map<
    usize,
    ResourceEntryView,
> {
    resources.restrict(Set::new(|k: usize| k < n))
}

/// The entries of a configuration at spec indices below `n` are read back
/// as they were written, from the offset table and the entries behind it.
pub proof fn lemma_entries_round_trip(
    bytes: Seq<u8>,
    table: int,
    data: int,
    resources: Map<usize, ResourceEntryView>,
    count: int,
    n: int,
)
    requires
        0 <= n <= count <= usize::MAX,
        forall|k: usize| #[trigger]
            resources.contains_key(k) ==> k < count && resources[k].representable()
                && resources[k].spec_id == k,
        total(entry_sizes(resources, count)) < 0xFFFF_FFFF,
        holds_at(bytes, table, concat(entry_offsets(resources, count))),
        holds_at(bytes, data, concat(entry_wires(resources, count))),
    ensures
        parse_entries(bytes, table, data, n) == Ok::<
            (Map<usize, ResourceEntryView>, int),
            ParseError,
        >((entries_below_index(resources, n), data + total(entry_sizes(resources, count).take(n)))),
    decreases n,
{
    broadcast use lemma_word_len;

    let sizes = entry_sizes(resources, count);
    let wires = entry_wires(resources, count);
    let offsets = entry_offsets(resources, count);
    if n == 0 {
        assert(sizes.take(0) =~= Seq::<int>::empty());
        assert(entries_below_index(resources, 0) =~= Map::<usize, ResourceEntryView>::empty());
    } else {
        let i = n - 1;
        lemma_entries_round_trip(bytes, table, data, resources, count, i);
        lemma_entry_sizes_nonnegative(resources, count);
        lemma_total_monotone(sizes, i);
        lemma_total_step(sizes, i);
        lemma_holds_part(bytes, table, offsets, i);
        assert forall|k: int| 0 <= k < offsets.take(i).len() implies (#[trigger] offsets.take(
            i,
        )[k]).len() == 4 by {
            assert(offsets.take(i)[k] == offsets[k]);
        }
        lemma_concat_uniform(offsets.take(i), 4);
        lemma_holds_part(bytes, data, wires, i);
        assert forall|k: int| 0 <= k < i implies (#[trigger] wires.take(i)[k]).len() == sizes.take(
            i,
        )[k] by {
            if resources.contains_key(k as usize) {
                lemma_entry_wire_len(resources[k as usize]);
            }
        }
        lemma_concat_len(wires.take(i), sizes.take(i));
        if resources.contains_key(i as usize) {
            lemma_holds_word(bytes, table + 4 * i, total(sizes.take(i)));
            lemma_entry_round_trip(bytes, data + total(sizes.take(i)), resources[i as usize]);
            assert(entries_below_index(resources, n) =~= entries_below_index(resources, i).insert(
                i as usize,
                resources[i as usize],
            ));
        } else {
            lemma_holds_word(bytes, table + 4 * i, 0xFFFF_FFFF);
            assert(entries_below_index(resources, n) =~= entries_below_index(resources, i));
        }
    }
}

/// The entries that are read for the spec indices below `n` stand at
/// indices below `n`, and each records the index at which it stands.
pub proof fn lemma_entries_record_their_index(bytes: Seq<u8>, table: int, data: int, n: int)
    requires
        0 <= n <= usize::MAX,
        parse_entries(bytes, table, data, n) is Ok,
    ensures
        forall|k: usize| #[trigger]
            parse_entries(bytes, table, data, n)->Ok_0.0.contains_key(k) ==> k < n
                && parse_entries(bytes, table, data, n)->Ok_0.0[k].spec_id == k,
    decreases n,
{
    reveal(parse_entry);
    if n > 0 {
        lemma_entries_record_their_index(bytes, table, data, n - 1);
    }
}

impl ConfigView {
    /// Whether the configuration is read back as it was written: it fits
    /// the format; its qualifier blob says its own length in its first word
    /// and reaches, with its padding, the end of the header that a
    /// configuration is written with; and every entry records the spec
    /// index at which it stands.
    pub open spec fn readable(self) -> bool {
        &&& self.representable()
        &&& self.id.len() >= 4
        &&& holds_at(self.id, 0, word_le(self.id.len() as int))
        &&& 20 + self.id.len() + spec_padding(self.id.len() as int) >= 0x54
        &&& forall|k: usize| #[trigger]
            self.resources.contains_key(k) ==> self.resources[k].spec_id == k
    }
}

/// Where a configuration that the bytes hold keeps each of its parts.
pub proof fn lemma_config_parts(bytes: Seq<u8>, base: int, config: ConfigView)
    requires
        holds_at(bytes, base, config.wire()),
    ensures
        holds_at(bytes, base, header_wire(ResourceType::TableType, 0x54, config.size())),
        holds_at(bytes, base + 8, seq![config.type_id as u8, config.res0]),
        holds_at(bytes, base + 10, half_le(config.res1 as int)),
        holds_at(bytes, base + 12, word_le(config.entry_count as int)),
        holds_at(bytes, base + 16, word_le(config.entries_start())),
        holds_at(bytes, base + 20, config.id),
        holds_at(
            bytes,
            base + config.entries_start() - 4 * config.entry_count,
            concat(entry_offsets(config.resources, config.entry_count as int)),
        ),
        holds_at(
            bytes,
            base + config.entries_start(),
            concat(entry_wires(config.resources, config.entry_count as int)),
        ),
        0 <= total(entry_sizes(config.resources, config.entry_count as int)),
        0 <= base,
        base + config.size() <= bytes.len(),
{
    broadcast use {lemma_half_len, lemma_word_len};

    let count = config.entry_count as int;
    let pad = spec_padding(config.id.len() as int);
    lemma_entry_sizes_nonnegative(config.resources, count);
    lemma_total_nonnegative(entry_sizes(config.resources, count));
    lemma_config_wire_len(config);
    lemma_header_wire_len(ResourceType::TableType, 0x54, config.size());
    lemma_concat_uniform(entry_offsets(config.resources, count), 4);
    let head0 = header_wire(ResourceType::TableType, 0x54, config.size());
    let head1 = head0 + seq![config.type_id as u8, config.res0];
    let head2 = head1 + half_le(config.res1 as int);
    let head3 = head2 + word_le(config.entry_count as int);
    let head4 = head3 + word_le(config.entries_start());
    let head5 = head4 + config.id;
    let head6 = head5 + zeros(pad);
    let head7 = head6 + concat(entry_offsets(config.resources, count));
    assert(config.wire() == head7 + concat(entry_wires(config.resources, count)));
    lemma_holds_split(bytes, base, head7, concat(entry_wires(config.resources, count)));
    lemma_holds_split(bytes, base, head6, concat(entry_offsets(config.resources, count)));
    lemma_holds_split(bytes, base, head5, zeros(pad));
    lemma_holds_split(bytes, base, head4, config.id);
    lemma_holds_split(bytes, base, head3, word_le(config.entries_start()));
    lemma_holds_split(bytes, base, head2, word_le(config.entry_count as int));
    lemma_holds_split(bytes, base, head1, half_le(config.res1 as int));
    lemma_holds_split(bytes, base, head0, seq![config.type_id as u8, config.res0]);
}

/// A configuration is read back as it was written, and ends where its chunk
/// ends.
pub proof fn lemma_config_round_trip(bytes: Seq<u8>, base: int, config: ConfigView)
    requires
        config.readable(),
        holds_at(bytes, base, config.wire()),
    ensures
        parse_config(
            bytes,
            base,
            Header {
                resource_type: ResourceType::TableType,
                header_size: 0x54,
                size: config.size() as u64,
            },
        ) == Ok::<(ConfigView, int), ParseError>((config, base + config.size())),
        parse_header(bytes, base) == Ok::<Header, ParseError>(
            Header {
                resource_type: ResourceType::TableType,
                header_size: 0x54,
                size: config.size() as u64,
            },
        ),
        base + config.size() <= bytes.len(),
        config.size() >= 20,
{
    reveal(parse_config);
    let count = config.entry_count as int;
    let sizes = entry_sizes(config.resources, count);
    let id = config.id;
    lemma_config_parts(bytes, base, config);
    lemma_header_round_trip(bytes, base, ResourceType::TableType, 0x54, config.size());
    let pair = bytes.subrange(base + 8, base + 10);
    assert(pair[0] == bytes[base + 8]);
    assert(pair[1] == bytes[base + 9]);
    lemma_holds_half(bytes, base + 10, config.res1 as int);
    lemma_holds_word(bytes, base + 12, config.entry_count as int);
    // The blob says its own length in its first word.
    assert(bytes.subrange(base + 20, base + 20 + id.len()) == id);
    assert(holds_at(bytes, base + 20, word_le(id.len() as int))) by {
        lemma_word_len(id.len() as int);
        assert(bytes.subrange(base + 20, base + 24) =~= id.subrange(0, 4));
    }
    lemma_holds_word(bytes, base + 20, id.len() as int);
    let table = base + config.entries_start() - 4 * count;
    lemma_entries_round_trip(bytes, table, table + 4 * count, config.resources, count, count);
    assert(sizes.take(count) =~= sizes);
    assert(entries_below_index(config.resources, count) =~= config.resources);
}

/// The specs of a chunk as they stand in the chunk: numbered from zero and
/// not named.
pub open spec fn unnamed_specs(specs: SpecsView) -> SpecsView {
    SpecsView {
        specs: Seq::new(
            specs.specs.len(),
            |i: int| Spec { flags: specs.specs[i].flags, id: i as usize, name_index: 0 },
        ),
        ..specs
    }
}

/// A spec chunk is read back as it was written, but for the names and
/// numbers of its specs, which the chunk does not hold.
pub proof fn lemma_specs_round_trip(bytes: Seq<u8>, base: int, specs: SpecsView)
    requires
        specs.representable(),
        specs.specs.len() > 0,
        holds_at(bytes, base, specs.wire()),
    ensures
        parse_specs(
            bytes,
            base,
            Header {
                resource_type: ResourceType::TableTypeSpec,
                header_size: 0x10,
                size: specs.size() as u64,
            },
        ) == Ok::<(SpecsView, int), ParseError>((unnamed_specs(specs), base + specs.size())),
        parse_header(bytes, base) == Ok::<Header, ParseError>(
            Header {
                resource_type: ResourceType::TableTypeSpec,
                header_size: 0x10,
                size: specs.size() as u64,
            },
        ),
        base + specs.size() <= bytes.len(),
{
    broadcast use {lemma_half_len, lemma_word_len};

    reveal(parse_specs);
    let count = specs.specs.len() as int;
    let flags = Seq::new(specs.specs.len(), |i: int| word_le(specs.specs[i].flags as int));
    lemma_specs_wire_len(specs);
    lemma_header_wire_len(ResourceType::TableTypeSpec, 0x10, specs.size());
    lemma_concat_uniform(flags, 4);
    let head0 = header_wire(ResourceType::TableTypeSpec, 0x10, specs.size());
    let head1 = head0 + seq![specs.type_id as u8, specs.res0];
    let head2 = head1 + half_le(specs.res1 as int);
    let head3 = head2 + word_le(count);
    assert(specs.wire() == head3 + concat(flags));
    lemma_holds_split(bytes, base, head3, concat(flags));
    lemma_holds_split(bytes, base, head2, word_le(count));
    lemma_holds_split(bytes, base, head1, half_le(specs.res1 as int));
    lemma_holds_split(bytes, base, head0, seq![specs.type_id as u8, specs.res0]);
    lemma_header_round_trip(bytes, base, ResourceType::TableTypeSpec, 0x10, specs.size());
    let pair = bytes.subrange(base + 8, base + 10);
    assert(pair[0] == bytes[base + 8]);
    assert(pair[1] == bytes[base + 9]);
    lemma_holds_half(bytes, base + 10, specs.res1 as int);
    lemma_holds_word(bytes, base + 12, count);
    assert forall|i: int| 0 <= i < count implies specs_at(bytes, base + 16, count)[i]
        == unnamed_specs(specs).specs[i] by {
        lemma_holds_part(bytes, base + 16, flags, i);
        assert forall|k: int| 0 <= k < flags.take(i).len() implies (#[trigger] flags.take(
            i,
        )[k]).len() == 4 by {
            assert(flags.take(i)[k] == flags[k]);
        }
        lemma_concat_uniform(flags.take(i), 4);
        lemma_holds_word(bytes, base + 16 + 4 * i, specs.specs[i].flags as int);
    }
    assert(specs_at(bytes, base + 16, count) =~= unnamed_specs(specs).specs);
}

} // verus!
