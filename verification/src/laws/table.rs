//! A table is read back as it was written.
use crate::components::{ArscView, PackageView, ResourceType};
use crate::encoding::{
    concat, holds_at, lemma_concat_len, lemma_half_len, lemma_holds_part, lemma_holds_split,
    lemma_holds_word, lemma_total_step, lemma_word_len, total, word_le, zeros,
};
use crate::grammar::{
    empty_types, parse_package, parse_packages, parse_table, units_at, until_zero_unit, ParseError,
};
use crate::laws::pool::{lemma_header_round_trip, lemma_pool_round_trip};
use crate::laws::strings::lemma_units_round_trip;
use crate::laws::types::{lemma_types_named, lemma_types_steps, types_after};
use crate::laws::{
    lemma_header_wire_len, lemma_name_wire_len, lemma_package_wire_len, lemma_pool_wire_len,
    lemma_table_wire_len, lemma_units_wire_len,
};
use crate::layout::{
    header_wire, name_wire, package_sizes, package_wires, type_sizes, type_wires, units_wire,
};
use crate::parser::read_util::lemma_until_zero_unit_split;
use crate::text::{encode_utf16, lemma_decode_utf16};
use crate::writer::components_sizing::{
    lemma_package_sizes_nonnegative, lemma_pool_size_bound, lemma_type_sizes_nonnegative,
};
use vstd::prelude::*;

verus! {

/// The name of a package is read back from its fixed field as it was
/// written.
pub proof fn lemma_name_round_trip(bytes: Seq<u8>, at: int, name: Seq<char>)
    requires
        encode_utf16(name).len() < 128,
        forall|i: int| 0 <= i < encode_utf16(name).len() ==> encode_utf16(name)[i] != 0,
        holds_at(bytes, at, name_wire(name)),
    ensures
        until_zero_unit(units_at(bytes, at, 128)) == encode_utf16(name),
        at + 256 <= bytes.len(),
{
    broadcast use lemma_half_len;

    let units = encode_utf16(name);
    let n = units.len() as int;
    let field = units_at(bytes, at, 128);
    lemma_units_wire_len(units);
    lemma_name_wire_len(name);
    lemma_holds_split(bytes, at, units_wire(units), zeros(256 - 2 * n));
    lemma_units_round_trip(bytes, at, units);
    assert forall|i: int| 0 <= i < n implies field[i] == units[i] by {
        assert(units_at(bytes, at, n)[i] == units[i]);
    }
    let padding = bytes.subrange(at + 2 * n, at + 256);
    assert(padding == zeros(256 - 2 * n));
    assert(field[n] == 0) by {
        assert(padding[0] == bytes[at + 2 * n]);
        assert(padding[1] == bytes[at + 2 * n + 1]);
    }
    lemma_until_zero_unit_split(field, n);
    assert(field.take(n) =~= units);
    assert(field.skip(n)[0] == 0);
    assert(units + Seq::<u16>::empty() =~= units);
}

impl PackageView {
    /// Whether the package is read back as it was written: it fits the
    /// format, no code unit of its name is zero, both pools are readable, it
    /// has one type for each type name, and each type is readable at its
    /// place.
    pub open spec fn readable(self) -> bool {
        &&& self.representable()
        &&& forall|i: int|
            0 <= i < encode_utf16(self.name).len() ==> encode_utf16(self.name)[i] != 0
        &&& self.type_names.readable()
        &&& self.key_names.readable()
        &&& self.types.len() == self.type_names.strings.len()
        &&& forall|i: int| 0 <= i < self.types.len() ==> (#[trigger] self.types[i]).readable_at(i)
    }
}

/// A package is read back as it was written, and ends where its chunk ends.
pub proof fn lemma_package_round_trip(bytes: Seq<u8>, base: int, package: PackageView)
    requires
        package.readable(),
        holds_at(bytes, base, package.wire()),
    ensures
        parse_package(bytes, base) == Ok::<(PackageView, int), ParseError>(
            (package, base + package.size()),
        ),
        base + package.size() <= bytes.len(),
{
    broadcast use {lemma_half_len, lemma_word_len};

    reveal(parse_package);
    let types = package.types;
    lemma_package_wire_len(package);
    lemma_header_wire_len(ResourceType::TablePackage, 0x120, package.size());
    lemma_name_wire_len(package.name);
    lemma_pool_wire_len(package.type_names);
    lemma_pool_wire_len(package.key_names);
    lemma_pool_size_bound(package.type_names);
    lemma_pool_size_bound(package.key_names);
    lemma_type_sizes_nonnegative(types);
    let head0 = header_wire(ResourceType::TablePackage, 0x120, package.size());
    let head1 = head0 + word_le(package.id as int);
    let head2 = head1 + name_wire(package.name);
    let head3 = head2 + word_le(package.type_strings_start());
    let head4 = head3 + word_le(package.last_public_type as int);
    let head5 = head4 + word_le(package.key_strings_start());
    let head6 = head5 + word_le(package.last_public_key as int);
    let head7 = head6 + word_le(0);
    assert(package.preamble_wire() == head7);
    let with_type_names = head7 + package.type_names.wire();
    let with_key_names = with_type_names + package.key_names.wire();
    assert(package.wire() == with_key_names + concat(type_wires(types)));
    lemma_holds_split(bytes, base, with_key_names, concat(type_wires(types)));
    lemma_holds_split(bytes, base, with_type_names, package.key_names.wire());
    lemma_holds_split(bytes, base, head7, package.type_names.wire());
    lemma_holds_split(bytes, base, head6, word_le(0));
    lemma_holds_split(bytes, base, head5, word_le(package.last_public_key as int));
    lemma_holds_split(bytes, base, head4, word_le(package.key_strings_start()));
    lemma_holds_split(bytes, base, head3, word_le(package.last_public_type as int));
    lemma_holds_split(bytes, base, head2, word_le(package.type_strings_start()));
    lemma_holds_split(bytes, base, head1, name_wire(package.name));
    lemma_holds_split(bytes, base, head0, word_le(package.id as int));
    lemma_header_round_trip(bytes, base, ResourceType::TablePackage, 0x120, package.size());
    lemma_holds_word(bytes, base + 8, package.id as int);
    lemma_name_round_trip(bytes, base + 12, package.name);
    lemma_decode_utf16(package.name);
    lemma_holds_word(bytes, base + 272, package.last_public_type as int);
    lemma_holds_word(bytes, base + 280, package.last_public_key as int);
    lemma_pool_round_trip(bytes, base + 288, package.type_names);
    let keys_at = base + 288 + package.type_names.size();
    lemma_pool_round_trip(bytes, keys_at, package.key_names);
    let chunks_at = keys_at + package.key_names.size();
    lemma_types_steps(bytes, chunks_at, types, 0);
    assert(type_sizes(types).take(0) =~= Seq::<int>::empty());
    assert(types_after(types, 0) =~= empty_types(package.type_names.strings.len() as int));
    lemma_types_named(types);
}

/// The first `n` packages of a table are read back as they were written.
pub proof fn lemma_packages_round_trip(
    bytes: Seq<u8>,
    at: int,
    packages: Seq<PackageView>,
    n: int,
)
    requires
        0 <= n <= packages.len(),
        forall|i: int| 0 <= i < packages.len() ==> (#[trigger] packages[i]).readable(),
        holds_at(bytes, at, concat(package_wires(packages))),
    ensures
        parse_packages(bytes, at, n) == Ok::<(Seq<PackageView>, int), ParseError>(
            (packages.take(n), at + total(package_sizes(packages).take(n))),
        ),
    decreases n,
{
    if n == 0 {
        assert(packages.take(0) =~= Seq::<PackageView>::empty());
        assert(package_sizes(packages).take(0) =~= Seq::<int>::empty());
    } else {
        let wires = package_wires(packages);
        let sizes = package_sizes(packages);
        lemma_packages_round_trip(bytes, at, packages, n - 1);
        lemma_holds_part(bytes, at, wires, n - 1);
        assert forall|k: int| 0 <= k < n - 1 implies (#[trigger] wires.take(n - 1)[k]).len()
            == sizes.take(n - 1)[k] by {
            lemma_package_wire_len(packages[k]);
        }
        lemma_concat_len(wires.take(n - 1), sizes.take(n - 1));
        lemma_package_round_trip(bytes, at + total(sizes.take(n - 1)), packages[n - 1]);
        lemma_total_step(sizes, n - 1);
        assert(packages.take(n) =~= packages.take(n - 1).push(packages[n - 1]));
    }
}

impl ArscView {
    /// Whether the table is read back as it was written: it fits the format,
    /// and its global pool and every package are readable.
    pub open spec fn readable(self) -> bool {
        &&& self.representable()
        &&& self.global_string_pool.readable()
        &&& forall|i: int| 0 <= i < self.packages.len() ==> (#[trigger] self.packages[i]).readable()
    }
}

/// Reading what was written gives the table back: the wire form of a
/// readable table is parsed into that very table.
pub proof fn lemma_table_round_trip(table: ArscView)
    requires
        table.readable(),
    ensures
        parse_table(table.wire()) == Ok::<ArscView, ParseError>(table),
{
    broadcast use {lemma_half_len, lemma_word_len};

    let bytes = table.wire();
    let pool = table.global_string_pool;
    lemma_table_wire_len(table);
    lemma_header_wire_len(ResourceType::Table, 0x0C, table.size());
    lemma_pool_wire_len(pool);
    lemma_pool_size_bound(pool);
    lemma_package_sizes_nonnegative(table.packages);
    assert(holds_at(bytes, 0, bytes)) by {
        assert(bytes.subrange(0, bytes.len() as int) =~= bytes);
    }
    let head0 = header_wire(ResourceType::Table, 0x0C, table.size());
    let head1 = head0 + word_le(table.packages.len() as int);
    let head2 = head1 + pool.wire();
    lemma_holds_split(bytes, 0, head2, concat(package_wires(table.packages)));
    lemma_holds_split(bytes, 0, head1, pool.wire());
    lemma_holds_split(bytes, 0, head0, word_le(table.packages.len() as int));
    lemma_header_round_trip(bytes, 0, ResourceType::Table, 0x0C, table.size());
    lemma_holds_word(bytes, 8, table.packages.len() as int);
    lemma_pool_round_trip(bytes, 12, pool);
    lemma_packages_round_trip(bytes, 12 + pool.size(), table.packages, table.packages.len() as int);
    assert(table.packages.take(table.packages.len() as int) =~= table.packages);
}

/// Round-trip identity: an input that is the wire form of a readable table
/// is parsed, and what is parsed is written as the very same bytes.
pub proof fn lemma_round_trip_identity(input: Seq<u8>, table: ArscView)
    requires
        table.readable(),
        input == table.wire(),
    ensures
        parse_table(input) is Ok,
        parse_table(input)->Ok_0.representable(),
        parse_table(input)->Ok_0.wire() == input,
{
    lemma_table_round_trip(table);
}

} // verus!
