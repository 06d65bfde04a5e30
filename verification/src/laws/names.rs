//! After parsing, a spec is named as the entries that stand at its index.
use crate::components::{ConfigView, TypeView};
use crate::grammar::{
    entries_below, name_from_configs, named_type, named_types, parse_package, ParseError,
};
use vstd::prelude::*;

verus! {

/// The name that the configurations give to a spec index is that of the
/// entry at the index in the last configuration that has one.
pub proof fn lemma_name_from_last(configs: Seq<ConfigView>, k: usize, unnamed: usize, j: int)
    requires
        0 <= j < configs.len(),
        configs[j].resources.contains_key(k),
        forall|later: int|
            j < later < configs.len() ==> !(#[trigger] configs[later]).resources.contains_key(k),
    ensures
        name_from_configs(configs, k as int, unnamed) == configs[j].resources[k].name_index,
    decreases configs.len(),
{
    if j < configs.len() - 1 {
        assert(!configs[configs.len() - 1].resources.contains_key(k));
        lemma_name_from_last(configs.drop_last(), k, unnamed, j);
    }
}

/// The name that the configurations give to a spec index at which none of
/// them has an entry is the name that the spec had.
pub proof fn lemma_name_untouched(configs: Seq<ConfigView>, k: usize, unnamed: usize)
    requires
        forall|j: int| 0 <= j < configs.len() ==> !(#[trigger] configs[j]).resources.contains_key(k),
    ensures
        name_from_configs(configs, k as int, unnamed) == unnamed,
    decreases configs.len(),
{
    if configs.len() > 0 {
        assert(!configs[configs.len() - 1].resources.contains_key(k));
        lemma_name_untouched(configs.drop_last(), k, unnamed);
    }
}

/// Spec name back-fill: in a type with specs whose names have been filled
/// in, the spec at an index where some configuration has an entry is named
/// as the entry of the last such configuration; the configurations
/// themselves are as they were.
pub proof fn lemma_spec_named_by_last_entry(raw: TypeView, j: int, k: usize)
    requires
        raw.specs is Some,
        named_type(raw) is Ok,
        0 <= j < raw.configs.len(),
        raw.configs[j].resources.contains_key(k),
        forall|later: int|
            j < later < raw.configs.len() ==> !(#[trigger] raw.configs[later]).resources.contains_key(
                k,
            ),
    ensures
        named_type(raw)->Ok_0.configs == raw.configs,
        named_type(raw)->Ok_0.specs is Some,
        k < named_type(raw)->Ok_0.specs->0.specs.len(),
        named_type(raw)->Ok_0.specs->0.specs[k as int].name_index
            == raw.configs[j].resources[k].name_index,
{
    reveal(named_type);
    let specs = raw.specs->0;
    assert(entries_below(raw.configs, specs.specs.len() as int));
    lemma_name_from_last(raw.configs, k, specs.specs[k as int].name_index, j);
}

/// The name of a spec is stable across the configurations of its type:
/// where every entry at a spec index is named alike, the spec is named so
/// too, whichever configuration comes last.
pub proof fn lemma_spec_name_stable(raw: TypeView, j: int, k: usize, name: usize)
    requires
        raw.specs is Some,
        named_type(raw) is Ok,
        0 <= j < raw.configs.len(),
        raw.configs[j].resources.contains_key(k),
        forall|i: int|
            0 <= i < raw.configs.len() && (#[trigger] raw.configs[i]).resources.contains_key(k)
                ==> raw.configs[i].resources[k].name_index == name,
    ensures
        named_type(raw)->Ok_0.specs->0.specs[k as int].name_index == name,
    decreases raw.configs.len() - j,
{
    if exists|later: int|
        j < later < raw.configs.len() && (#[trigger] raw.configs[later]).resources.contains_key(k) {
        let later = choose|later: int|
            j < later < raw.configs.len() && (#[trigger] raw.configs[later]).resources.contains_key(
                k,
            );
        lemma_spec_name_stable(raw, later, k, name);
    } else {
        lemma_spec_named_by_last_entry(raw, j, k);
    }
}

/// The types of a parsed package are types whose spec names have been
/// filled in from their entries.
pub proof fn lemma_parsed_types_are_named(bytes: Seq<u8>, base: int)
    requires
        parse_package(bytes, base) is Ok,
    ensures
        exists|raw: Seq<TypeView>|
            named_types(raw) == Ok::<Seq<TypeView>, ParseError>(
                parse_package(bytes, base)->Ok_0.0.types,
            ),
{
    reveal(parse_package);
    let header = crate::grammar::parse_header(bytes, base)->Ok_0;
    let pools_at = crate::grammar::body_start(base + 288, base, header.header_size as int);
    let type_names = crate::grammar::parse_string_pool(bytes, pools_at)->Ok_0;
    let key_names = crate::grammar::parse_string_pool(bytes, type_names.1)->Ok_0;
    let chunks = crate::grammar::parse_chunks(
        bytes,
        key_names.1,
        base + header.size,
        crate::grammar::empty_types(type_names.0.strings.len() as int),
    )->Ok_0;
    assert(named_types(chunks.0) == Ok::<Seq<TypeView>, ParseError>(
        parse_package(bytes, base)->Ok_0.0.types,
    ));
}

/// The types that naming gives are as many as the types that were named,
/// and each is its own type with its specs named.
pub proof fn lemma_named_types_each(raw: Seq<TypeView>)
    requires
        named_types(raw) is Ok,
    ensures
        named_types(raw)->Ok_0.len() == raw.len(),
        forall|i: int|
            0 <= i < raw.len() ==> named_type(#[trigger] raw[i]) == Ok::<TypeView, ParseError>(
                named_types(raw)->Ok_0[i],
            ),
{
    reveal(named_types);
}

/// Spec name back-fill after parsing: in every type of a parsed package
/// that has specs, the spec at an index where some configuration of the type
/// has an entry is named as the entry of the last such configuration.
pub proof fn lemma_parsed_spec_names(bytes: Seq<u8>, base: int, i: int, j: int, k: usize)
    requires
        parse_package(bytes, base) is Ok,
        0 <= i < parse_package(bytes, base)->Ok_0.0.types.len(),
        parse_package(bytes, base)->Ok_0.0.types[i].specs is Some,
        0 <= j < parse_package(bytes, base)->Ok_0.0.types[i].configs.len(),
        parse_package(bytes, base)->Ok_0.0.types[i].configs[j].resources.contains_key(k),
        forall|later: int|
            j < later < parse_package(bytes, base)->Ok_0.0.types[i].configs.len() ==> !(
            #[trigger] parse_package(bytes, base)->Ok_0.0.types[i].configs[later]).resources.contains_key(
                k,
            ),
    ensures
        k < parse_package(bytes, base)->Ok_0.0.types[i].specs->0.specs.len(),
        parse_package(bytes, base)->Ok_0.0.types[i].specs->0.specs[k as int].name_index
            == parse_package(bytes, base)->Ok_0.0.types[i].configs[j].resources[k].name_index,
{
    let types = parse_package(bytes, base)->Ok_0.0.types;
    lemma_parsed_types_are_named(bytes, base);
    let raw = choose|raw: Seq<TypeView>|
        named_types(raw) == Ok::<Seq<TypeView>, ParseError>(types);
    lemma_named_types_each(raw);
    assert(raw[i].specs is Some && raw[i].configs == types[i].configs) by {
        reveal(named_type);
    }
    lemma_spec_named_by_last_entry(raw[i], j, k);
}

} // verus!
