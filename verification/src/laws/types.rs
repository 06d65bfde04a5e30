//! The chunks of a package's types are read back into the types that were
//! written.
use crate::components::{ConfigView, SpecsView, TypeView};
use crate::encoding::{
    concat, holds_at, lemma_concat_len, lemma_holds_part, lemma_holds_split, lemma_total_monotone,
    lemma_total_step, total,
};
use crate::grammar::{
    attach_config, attach_specs, entries_below, name_from_configs, named_specs, named_type,
    named_types, parse_chunks, ParseError,
};
use crate::laws::chunks::{lemma_config_round_trip, lemma_specs_round_trip, unnamed_specs};
use crate::laws::{lemma_config_wire_len, lemma_specs_wire_len, lemma_type_wire_len};
use crate::layout::{config_sizes, config_wires, type_sizes, type_wires};
use crate::writer::components_sizing::{
    lemma_config_sizes_nonnegative, lemma_type_sizes_nonnegative,
};
use vstd::prelude::*;

verus! {

impl TypeView {
    /// Whether the type, standing at `index` among the types of its
    /// package, is read back as it was written: its id is its place, counted
    /// from one; its spec chunk, if any, names the type, holds a spec, fits
    /// the format, and numbers and names its specs as a reader does; and
    /// every configuration names the type and is readable.
    pub open spec fn readable_at(self, index: int) -> bool {
        &&& self.id == index + 1
        &&& self.specs matches Some(specs) ==> {
            &&& specs.representable()
            &&& specs.specs.len() > 0
            &&& specs.type_id == index + 1
            &&& entries_below(self.configs, specs.specs.len() as int)
            &&& forall|k: int|
                0 <= k < specs.specs.len() ==> (#[trigger] specs.specs[k]).id == k
                    && specs.specs[k].name_index == name_from_configs(self.configs, k, 0)
        }
        &&& forall|j: int|
            0 <= j < self.configs.len() ==> (#[trigger] self.configs[j]).readable()
                && self.configs[j].type_id == index + 1
    }
}

/// A type as its chunks give it, before the names of its specs are filled
/// in.
pub open spec fn raw_type(entry: TypeView) -> TypeView {
    TypeView {
        specs: match entry.specs {
            Some(specs) => Some(unnamed_specs(specs)),
            None => None,
        },
        ..entry
    }
}

/// The types of a package when the chunks of the first `done` of them have
/// been read.
pub open spec fn types_after(types: Seq<TypeView>, done: int) -> Seq<TypeView> {
    Seq::new(
        types.len(),
        |t: int|
            if t < done {
                raw_type(types[t])
            } else {
                TypeView { id: (t + 1) as usize, specs: None, configs: Seq::empty() }
            },
    )
}

/// The types of a package when the chunks of the first `done` of them, the
/// spec chunk of the next and its first `configs` configurations have been
/// read.
pub open spec fn types_within(types: Seq<TypeView>, done: int, configs: int) -> Seq<TypeView> {
    types_after(types, done).update(
        done,
        TypeView { configs: types[done].configs.take(configs), ..raw_type(types[done]) },
    )
}

/// Reading the spec chunk that stands at `at` gives it to its type and goes
/// on behind it.
pub proof fn lemma_specs_step(
    bytes: Seq<u8>,
    at: int,
    end: int,
    state: Seq<TypeView>,
    specs: SpecsView,
)
    requires
        specs.representable(),
        specs.specs.len() > 0,
        holds_at(bytes, at, specs.wire()),
        at < end,
        attach_specs(state, unnamed_specs(specs)) is Ok,
    ensures
        parse_chunks(bytes, at, end, state) == parse_chunks(
            bytes,
            at + specs.size(),
            end,
            attach_specs(state, unnamed_specs(specs))->Ok_0,
        ),
{
    lemma_specs_round_trip(bytes, at, specs);
}

/// Reading the configuration that stands at `at` adds it to its type and
/// goes on behind it.
pub proof fn lemma_config_step(
    bytes: Seq<u8>,
    at: int,
    end: int,
    state: Seq<TypeView>,
    config: ConfigView,
)
    requires
        config.readable(),
        holds_at(bytes, at, config.wire()),
        at < end,
        attach_config(state, config) is Ok,
    ensures
        parse_chunks(bytes, at, end, state) == parse_chunks(
            bytes,
            at + config.size(),
            end,
            attach_config(state, config)->Ok_0,
        ),
{
    lemma_config_round_trip(bytes, at, config);
}

/// Reading the configurations of a type from the `j`-th on brings the types
/// to where all the chunks of that type have been read.
pub proof fn lemma_configs_steps(
    bytes: Seq<u8>,
    at: int,
    end: int,
    types: Seq<TypeView>,
    done: int,
    j: int,
)
    requires
        0 <= done < types.len(),
        types[done].readable_at(done),
        0 <= j <= types[done].configs.len(),
        holds_at(bytes, at, concat(config_wires(types[done].configs))),
        at + total(config_sizes(types[done].configs)) <= end,
    ensures
        parse_chunks(
            bytes,
            at + total(config_sizes(types[done].configs).take(j)),
            end,
            types_within(types, done, j),
        ) == parse_chunks(
            bytes,
            at + total(config_sizes(types[done].configs)),
            end,
            types_after(types, done + 1),
        ),
    decreases types[done].configs.len() - j,
{
    let configs = types[done].configs;
    let sizes = config_sizes(configs);
    let wires = config_wires(configs);
    lemma_config_sizes_nonnegative(configs);
    if j == configs.len() {
        assert(sizes.take(j) =~= sizes);
        assert(configs.take(j) =~= configs);
        assert(types_within(types, done, j) =~= types_after(types, done + 1));
    } else {
        lemma_configs_steps(bytes, at, end, types, done, j + 1);
        lemma_holds_part(bytes, at, wires, j);
        assert forall|k: int| 0 <= k < j implies (#[trigger] wires.take(j)[k]).len() == sizes.take(
            j,
        )[k] by {
            lemma_config_wire_len(configs[k]);
        }
        lemma_concat_len(wires.take(j), sizes.take(j));
        lemma_total_step(sizes, j);
        lemma_total_monotone(sizes, j + 1);
        lemma_total_monotone(sizes, j);
        let here = at + total(sizes.take(j));
        let state = types_within(types, done, j);
        assert(configs[j].readable());
        lemma_config_round_trip(bytes, here, configs[j]);
        assert(configs.take(j + 1) =~= configs.take(j).push(configs[j]));
        assert(attach_config(state, configs[j]) == Ok::<Seq<TypeView>, ParseError>(
            types_within(types, done, j + 1),
        )) by {
            assert(state.update(
                done,
                TypeView { configs: state[done].configs.push(configs[j]), ..state[done] },
            ) =~= types_within(types, done, j + 1));
        }
        lemma_config_step(bytes, here, end, state, configs[j]);
    }
}

/// Reading the chunks of one type brings the types from where the types
/// before it have been read to where it has been read too.
pub proof fn lemma_type_steps(bytes: Seq<u8>, at: int, end: int, types: Seq<TypeView>, done: int)
    requires
        0 <= done < types.len(),
        types[done].readable_at(done),
        holds_at(bytes, at, types[done].wire()),
        at + types[done].size() <= end,
    ensures
        parse_chunks(bytes, at, end, types_after(types, done)) == parse_chunks(
            bytes,
            at + types[done].size(),
            end,
            types_after(types, done + 1),
        ),
{
    let entry = types[done];
    let before = types_after(types, done);
    lemma_config_sizes_nonnegative(entry.configs);
    assert(config_sizes(entry.configs).take(0) =~= Seq::<int>::empty());
    match entry.specs {
        Some(specs) => {
            lemma_specs_wire_len(specs);
            lemma_holds_split(bytes, at, specs.wire(), concat(config_wires(entry.configs)));
            assert(attach_specs(before, unnamed_specs(specs)) == Ok::<Seq<TypeView>, ParseError>(
                types_within(types, done, 0),
            )) by {
                assert(entry.configs.take(0) =~= Seq::<ConfigView>::empty());
                assert(before.update(
                    done,
                    TypeView { specs: Some(unnamed_specs(specs)), ..before[done] },
                ) =~= types_within(types, done, 0));
            }
            lemma_specs_step(bytes, at, end, before, specs);
            lemma_configs_steps(bytes, at + specs.size(), end, types, done, 0);
        },
        None => {
            lemma_holds_split(bytes, at, Seq::<u8>::empty(), concat(config_wires(entry.configs)));
            assert(types_within(types, done, 0) =~= before) by {
                assert(entry.configs.take(0) =~= Seq::<ConfigView>::empty());
            }
            lemma_configs_steps(bytes, at, end, types, done, 0);
        },
    }
}

/// Reading the chunks of the types from the `done`-th on, up to the end of
/// the package, gives all the types as their chunks hold them.
pub proof fn lemma_types_steps(bytes: Seq<u8>, at: int, types: Seq<TypeView>, done: int)
    requires
        0 <= done <= types.len(),
        forall|i: int| 0 <= i < types.len() ==> (#[trigger] types[i]).readable_at(i),
        holds_at(bytes, at, concat(type_wires(types))),
    ensures
        parse_chunks(
            bytes,
            at + total(type_sizes(types).take(done)),
            at + total(type_sizes(types)),
            types_after(types, done),
        ) == Ok::<(Seq<TypeView>, int), ParseError>(
            (types_after(types, types.len() as int), at + total(type_sizes(types))),
        ),
    decreases types.len() - done,
{
    let sizes = type_sizes(types);
    let wires = type_wires(types);
    let end = at + total(sizes);
    lemma_type_sizes_nonnegative(types);
    if done == types.len() {
        assert(sizes.take(done) =~= sizes);
    } else {
        lemma_types_steps(bytes, at, types, done + 1);
        lemma_holds_part(bytes, at, wires, done);
        assert forall|k: int| 0 <= k < done implies (#[trigger] wires.take(done)[k]).len()
            == sizes.take(done)[k] by {
            lemma_type_wire_len(types[k]);
        }
        lemma_concat_len(wires.take(done), sizes.take(done));
        lemma_total_step(sizes, done);
        lemma_total_monotone(sizes, done + 1);
        lemma_type_steps(bytes, at + total(sizes.take(done)), end, types, done);
    }
}

/// Filling in the names of the specs makes of the types that the chunks
/// gave the types that were written.
pub proof fn lemma_types_named(types: Seq<TypeView>)
    requires
        forall|i: int| 0 <= i < types.len() ==> (#[trigger] types[i]).readable_at(i),
    ensures
        named_types(types_after(types, types.len() as int)) == Ok::<Seq<TypeView>, ParseError>(
            types,
        ),
{
    reveal(named_types);
    reveal(named_type);
    let raw = types_after(types, types.len() as int);
    assert forall|i: int| 0 <= i < types.len() implies named_type(#[trigger] raw[i]) == Ok::<
        TypeView,
        ParseError,
    >(types[i]) by {
        let entry = types[i];
        assert(entry.readable_at(i));
        match entry.specs {
            Some(specs) => {
                assert(named_specs(unnamed_specs(specs), entry.configs).specs =~= specs.specs);
            },
            None => {},
        }
    }
    assert(Seq::new(raw.len(), |i: int| named_type(raw[i])->Ok_0) =~= types);
}

} // verus!
