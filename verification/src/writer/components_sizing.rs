//! The size planner: how many bytes each node is written as, found before
//! any byte is written.
use crate::components::{
    Arsc, Config, ConfigView, Package, PackageView, ResourceEntry, ResourceEntryView, ResourceValue,
    ResourceValueView, Spec, Specs, StringPool, StringPoolView, Style, Type, TypeView, Value,
};
use crate::encoding::{lemma_total_monotone, lemma_total_nonnegative, lemma_total_step, total};
use crate::layout::{
    config_sizes, entry_sizes, package_sizes, spec_padding, spec_utf16_string_size,
    spec_utf8_string_size, string_representable, string_sizes, style_size, style_sizes, type_sizes,
    PACKAGE_NAME_UNITS, WIRE_MAX,
};
use crate::text::{encode_utf16, utf16_units};
use vstd::prelude::*;
use vstd::set_lib::lemma_subset_equality;

verus! {

broadcast use {
    vstd::std_specs::btree::group_btree_axioms,
    vstd::laws_cmp::group_laws_cmp,
    vstd::set::group_set_axioms,
};

/// Number of zero bytes that bring `size` to the next multiple of four.
pub fn padding(size: usize) -> (pad: usize)
    ensures
        pad == spec_padding(size as int),
        pad < 4,
{
    (4 - size % 4) % 4
}

impl Value {
    /// A value takes eight bytes; `None` if its data index does not fit 32 bits.
    pub fn size(&self) -> (size: Option<usize>)
        ensures
            size is Some <==> self.representable(),
            size is Some ==> size->0 == 8,
    {
        if self.data_index as u64 <= WIRE_MAX {
            Some(8)
        } else {
            None
        }
    }
}

impl ResourceValue {
    /// Eight bytes for a plain value; for a bag, eight and twelve for each of
    /// its pairs. `None` if the value does not fit the format.
    pub fn size(&self) -> (size: Option<usize>)
        ensures
            size is Some <==> self@.representable(),
            size is Some ==> size->0 == self@.size(),
    {
        match self {
            ResourceValue::Plain(value) => value.size(),
            ResourceValue::Bag { parent, values } => {
                let count = values.len();
                if count as u64 > (WIRE_MAX - 8) / 12 {
                    return None;
                }
                let mut i: usize = 0;
                while i < count
                    invariant
                        i <= count,
                        count == values@.len(),
                        self@ == (ResourceValueView::Bag { parent: *parent, values: values@ }),
                        forall|j: int| 0 <= j < i ==> (#[trigger] values@[j]).1.representable(),
                    decreases count - i,
                {
                    if values[i].1.size().is_none() {
                        assert(!values@[i as int].1.representable());
                        return None;
                    }
                    i += 1;
                }
                Some(8 + 12 * count)
            },
        }
    }
}

impl ResourceEntry {
    /// Eight bytes and the value. `None` if the entry does not fit the format.
    pub fn size(&self) -> (size: Option<usize>)
        ensures
            size is Some <==> self@.representable(),
            size is Some ==> size->0 == self@.size(),
    {
        if self.name_index as u64 > WIRE_MAX {
            return None;
        }
        let holds_bag = match &self.value {
            ResourceValue::Bag { .. } => true,
            ResourceValue::Plain(_) => false,
        };
        if self.is_bag() != holds_bag {
            return None;
        }
        match self.value.size() {
            None => None,
            Some(value_size) => {
                if value_size as u64 + 8 > WIRE_MAX {
                    None
                } else {
                    Some(8 + value_size)
                }
            },
        }
    }
}

/// The spec indices below `n` at which `resources` holds an entry.
pub open spec fn keys_below(resources: Map<usize, ResourceEntryView>, n: int) -> Set<usize> {
    resources.dom().filter(|k: usize| k < n)
}

/// The size of an entry is never negative.
pub proof fn lemma_entry_sizes_nonnegative(resources: Map<usize, ResourceEntryView>, n: int)
    ensures
        forall|k: int| 0 <= k < entry_sizes(resources, n).len() ==> entry_sizes(resources, n)[k] >= 0,
{
}

/// One more spec index adds its key to `keys_below` exactly when the map holds it.
pub proof fn lemma_keys_below_step(resources: Map<usize, ResourceEntryView>, n: usize)
    requires
        resources.dom().finite(),
        n < usize::MAX,
    ensures
        keys_below(resources, n as int).finite(),
        keys_below(resources, n + 1).len() == keys_below(resources, n as int).len() + (if resources.contains_key(
            n,
        ) {
            1int
        } else {
            0int
        }),
{
    let below = keys_below(resources, n as int);
    let next = keys_below(resources, n + 1);
    resources.dom().lemma_len_filter(|k: usize| k < n as int);
    if resources.contains_key(n) {
        assert(next =~= below.insert(n));
    } else {
        assert(next =~= below);
    }
}

/// A finite map whose keys below `n` are as many as all its keys has no
/// other key; and a map without other keys has as many.
pub proof fn lemma_keys_below_all(resources: Map<usize, ResourceEntryView>, n: int)
    requires
        resources.dom().finite(),
    ensures
        keys_below(resources, n).len() == resources.dom().len() <==> (forall|k: usize|
            resources.contains_key(k) ==> k < n),
{
    let below = keys_below(resources, n);
    resources.dom().lemma_len_filter(|k: usize| k < n);
    if below.len() == resources.dom().len() {
        lemma_subset_equality(below, resources.dom());
        assert forall|k: usize| resources.contains_key(k) implies k < n by {
            assert(below.contains(k));
        }
    }
    if forall|k: usize| resources.contains_key(k) ==> k < n {
        assert(below =~= resources.dom());
    }
}

impl Config {
    /// The size of the chunk: its tag and fixed fields, the qualifier blob
    /// with its padding, the offset table and the entries. `None` if the
    /// configuration does not fit the format.
    pub fn size(&self) -> (size: Option<usize>)
        ensures
            size is Some <==> self@.representable(),
            size is Some ==> size->0 == self@.size(),
    {
        let ghost view = self@;
        let ghost sizes = entry_sizes(view.resources, self.entry_count as int);
        proof {
            lemma_entry_sizes_nonnegative(view.resources, self.entry_count as int);
            lemma_total_nonnegative(sizes);
            assert(view.resources.dom() =~= self.resources@.dom());
        }
        if self.type_id > 0xFF {
            return None;
        }
        let id_length = self.id.len();
        if self.entry_count as u64 > WIRE_MAX || id_length as u64 > WIRE_MAX {
            return None;
        }
        let mut planned: u64 = 20 + id_length as u64 + padding(id_length) as u64 + 4
            * self.entry_count as u64;
        if planned > WIRE_MAX {
            return None;
        }
        let mut present: usize = 0;
        let mut i: usize = 0;
        assert(keys_below(view.resources, 0) =~= Set::empty());
        while i < self.entry_count
            invariant
                i <= self.entry_count,
                view == self@,
                view.type_id <= 0xFF,
                sizes == entry_sizes(view.resources, self.entry_count as int),
                forall|k: int| 0 <= k < sizes.len() ==> sizes[k] >= 0,
                view.resources.dom() == self.resources@.dom(),
                planned == view.entries_start() + total(sizes.take(i as int)),
                planned <= WIRE_MAX,
                present == keys_below(view.resources, i as int).len(),
                present <= i,
                forall|k: usize|
                    k < i && #[trigger] view.resources.contains_key(k)
                        ==> view.resources[k].representable(),
            decreases self.entry_count - i,
        {
            proof {
                lemma_total_step(sizes, i as int);
                lemma_total_monotone(sizes, i + 1);
                lemma_keys_below_step(view.resources, i);
            }
            match self.resources.get(&i) {
                Some(entry) => {
                    assert(view.resources.contains_key(i));
                    assert(view.resources[i] == entry@);
                    match entry.size() {
                        None => {
                            return None;
                        },
                        Some(entry_size) => {
                            planned = planned + entry_size as u64;
                            if planned > WIRE_MAX {
                                return None;
                            }
                            present = present + 1;
                        },
                    }
                },
                None => {
                    assert(!view.resources.contains_key(i));
                },
            }
            i += 1;
        }
        proof {
            assert(sizes.take(i as int) =~= sizes);
            lemma_keys_below_all(view.resources, self.entry_count as int);
        }
        if present != self.resources.len() {
            return None;
        }
        Some(planned as usize)
    }
}

impl Style {
    /// Twelve bytes for each span and four for the closing word. `None` if
    /// that does not fit 32 bits.
    pub fn size(&self) -> (size: Option<usize>)
        ensures
            size is Some <==> style_size(self@) <= WIRE_MAX,
            size is Some ==> size->0 == style_size(self@),
    {
        let count = self.spans.len();
        if count as u64 > (WIRE_MAX - 4) / 12 {
            None
        } else {
            Some(12 * count + 4)
        }
    }
}

impl StringPool {
    /// The size of one string stored as UTF-8: the two length preambles, the
    /// bytes, and the closing zero byte. `None` if a length needs more than
    /// 15 bits.
    pub fn utf8_string_size(string: &str) -> (size: Option<usize>)
        ensures
            size is Some <==> string_representable(string@, true),
            size is Some ==> size->0 == spec_utf8_string_size(string@),
    {
        let char_count = string.unicode_len();
        let byte_count = string.as_bytes().len();
        if char_count >= 0x8000 || byte_count >= 0x8000 {
            return None;
        }
        let char_count_bytes: usize = if char_count <= 0x7F {
            1
        } else {
            2
        };
        let byte_count_bytes: usize = if byte_count <= 0x7F {
            1
        } else {
            2
        };
        Some(char_count_bytes + byte_count_bytes + byte_count + 1)
    }

    /// The size of one string stored as UTF-16: the length preamble, the
    /// code units, and the closing zero unit. `None` if the length needs more
    /// than 31 bits or the string is larger than a pool can be.
    pub fn utf16_string_size(string: &str) -> (size: Option<usize>)
        ensures
            size is Some <==> string_representable(string@, false),
            size is Some ==> size->0 == spec_utf16_string_size(string@),
    {
        let unit_count = utf16_units(string).len();
        if unit_count >= 0x8000_0000 {
            return None;
        }
        let unit_count_bytes: u64 = if unit_count <= 0x7FFF {
            2
        } else {
            4
        };
        let planned: u64 = unit_count_bytes + 2 * (unit_count as u64) + 2;
        if planned > WIRE_MAX {
            None
        } else {
            Some(planned as usize)
        }
    }

    /// The length of the string data, without its padding.
    pub fn strings_length(&self) -> (length: usize)
        requires
            self@.representable(),
        ensures
            length == self@.strings_length(),
    {
        let utf8 = self.use_utf8();
        let ghost sizes = string_sizes(self@.strings, utf8);
        proof {
            lemma_pool_size_bound(self@);
            lemma_total_nonnegative(style_sizes(self@.styles));
        }
        let mut length: usize = 0;
        let mut i: usize = 0;
        while i < self.strings.len()
            invariant
                i <= self.strings@.len(),
                self@.representable(),
                utf8 == self@.use_utf8(),
                sizes == string_sizes(self@.strings, utf8),
                total(sizes) <= WIRE_MAX,
                length == total(sizes.take(i as int)),
            decreases self.strings@.len() - i,
        {
            proof {
                lemma_total_monotone(sizes, i as int);
                lemma_total_monotone(sizes, i + 1);
                lemma_total_step(sizes, i as int);
            }
            assert(string_representable(self@.strings[i as int], utf8));
            let string_size = if utf8 {
                StringPool::utf8_string_size(self.strings[i].as_str()).unwrap()
            } else {
                StringPool::utf16_string_size(self.strings[i].as_str()).unwrap()
            };
            length = length + string_size;
            i += 1;
        }
        assert(sizes.take(i as int) =~= sizes);
        length
    }

    /// The size of the chunk: its tag and five words, the two offset arrays,
    /// the strings with their padding, and the styles with their two closing
    /// words. `None` if the pool does not fit the format.
    pub fn size(&self) -> (size: Option<usize>)
        ensures
            size is Some <==> self@.representable(),
            size is Some ==> size->0 == self@.size(),
    {
        let ghost view = self@;
        let utf8 = self.use_utf8();
        let ghost sizes = string_sizes(view.strings, utf8);
        let ghost spans = style_sizes(view.styles);
        proof {
            lemma_total_nonnegative(sizes);
            lemma_total_nonnegative(spans);
        }
        let string_count = self.strings.len();
        let style_count = self.styles.len();
        if string_count as u64 > WIRE_MAX || style_count as u64 > WIRE_MAX {
            return None;
        }
        let start: u64 = 28 + 4 * (string_count as u64) + 4 * (style_count as u64);
        if start > WIRE_MAX {
            return None;
        }
        let mut length: u64 = 0;
        let mut i: usize = 0;
        while i < string_count
            invariant
                i <= string_count,
                string_count == self.strings@.len(),
                view == self@,
                utf8 == view.use_utf8(),
                sizes == string_sizes(view.strings, utf8),
                start == view.strings_start(),
                length == total(sizes.take(i as int)),
                start + length <= WIRE_MAX,
                spans == style_sizes(view.styles),
                0 <= total(spans),
                forall|k: int|
                    0 <= k < i ==> string_representable(#[trigger] view.strings[k], utf8),
            decreases string_count - i,
        {
            proof {
                lemma_total_step(sizes, i as int);
                lemma_total_monotone(sizes, i + 1);
                lemma_total_monotone(sizes, i as int);
            }
            let planned = if utf8 {
                StringPool::utf8_string_size(self.strings[i].as_str())
            } else {
                StringPool::utf16_string_size(self.strings[i].as_str())
            };
            match planned {
                None => {
                    assert(!string_representable(view.strings[i as int], utf8));
                    return None;
                },
                Some(string_size) => {
                    length = length + string_size as u64;
                    if start + length > WIRE_MAX {
                        return None;
                    }
                },
            }
            i += 1;
        }
        assert(sizes.take(i as int) =~= sizes);
        let string_padding = padding(length as usize) as u64;
        let mut styled: u64 = 0;
        let mut j: usize = 0;
        while j < style_count
            invariant
                j <= style_count,
                style_count == self.styles@.len(),
                view == self@,
                spans == style_sizes(view.styles),
                styled == total(spans.take(j as int)),
                styled <= WIRE_MAX,
                start + length + string_padding == view.strings_start() + view.strings_length()
                    + spec_padding(view.strings_length()),
                start + length <= WIRE_MAX,
                string_padding < 4,
            decreases style_count - j,
        {
            proof {
                lemma_total_step(spans, j as int);
                lemma_total_monotone(spans, j + 1);
            }
            match self.styles[j].size() {
                None => {
                    return None;
                },
                Some(style_size) => {
                    styled = styled + style_size as u64;
                    if styled > WIRE_MAX {
                        return None;
                    }
                },
            }
            j += 1;
        }
        assert(spans.take(j as int) =~= spans);
        let closing: u64 = if style_count == 0 {
            0
        } else {
            styled + 8
        };
        let planned: u64 = start + length + string_padding + closing;
        if planned > WIRE_MAX {
            None
        } else {
            Some(planned as usize)
        }
    }
}

impl Spec {
    /// A spec takes four bytes: its flags.
    pub fn size(&self) -> (size: usize)
        ensures
            size == 4,
    {
        4
    }
}

impl Specs {
    /// The size of the chunk: sixteen bytes and four for each spec. `None` if
    /// the chunk does not fit the format.
    pub fn size(&self) -> (size: Option<usize>)
        ensures
            size is Some <==> self@.representable(),
            size is Some ==> size->0 == self@.size(),
    {
        let count = self.specs.len();
        if self.type_id > 0xFF || count as u64 > (WIRE_MAX - 16) / 4 {
            None
        } else {
            Some(16 + 4 * count)
        }
    }
}

/// A string pool takes at least its tag and five words.
pub proof fn lemma_pool_size_bound(pool: StringPoolView)
    ensures
        pool.size() >= 28,
{
    lemma_total_nonnegative(string_sizes(pool.strings, pool.use_utf8()));
    lemma_total_nonnegative(style_sizes(pool.styles));
}

/// A configuration takes at least its tag and fixed fields.
pub proof fn lemma_config_size_bound(config: ConfigView)
    ensures
        config.size() >= 20,
{
    lemma_total_nonnegative(entry_sizes(config.resources, config.entry_count as int));
}

/// The sizes of configurations are never negative.
pub proof fn lemma_config_sizes_nonnegative(configs: Seq<ConfigView>)
    ensures
        forall|k: int| 0 <= k < configs.len() ==> (#[trigger] config_sizes(configs)[k]) >= 0,
        0 <= total(config_sizes(configs)),
{
    assert forall|k: int| 0 <= k < configs.len() implies (#[trigger] config_sizes(configs)[k])
        >= 0 by {
        lemma_config_size_bound(configs[k]);
    }
    lemma_total_nonnegative(config_sizes(configs));
}

/// The sizes of types are never negative.
pub proof fn lemma_type_sizes_nonnegative(types: Seq<TypeView>)
    ensures
        forall|k: int| 0 <= k < types.len() ==> (#[trigger] type_sizes(types)[k]) >= 0,
        0 <= total(type_sizes(types)),
{
    assert forall|k: int| 0 <= k < types.len() implies (#[trigger] type_sizes(types)[k])
        >= 0 by {
        lemma_config_sizes_nonnegative(types[k].configs);
    }
    lemma_total_nonnegative(type_sizes(types));
}

/// A package takes at least its tag and fixed fields.
pub proof fn lemma_package_size_bound(package: PackageView)
    ensures
        package.size() >= 288,
{
    lemma_pool_size_bound(package.type_names);
    lemma_pool_size_bound(package.key_names);
    lemma_type_sizes_nonnegative(package.types);
}

/// The sizes of packages are never negative.
pub proof fn lemma_package_sizes_nonnegative(packages: Seq<PackageView>)
    ensures
        forall|k: int| 0 <= k < packages.len() ==> (#[trigger] package_sizes(packages)[k]) >= 0,
        0 <= total(package_sizes(packages)),
{
    assert forall|k: int| 0 <= k < packages.len() implies (#[trigger] package_sizes(
        packages,
    )[k]) >= 0 by {
        lemma_package_size_bound(packages[k]);
    }
    lemma_total_nonnegative(package_sizes(packages));
}

impl Type {
    /// The size of the spec chunk, if any, and of the configurations. `None`
    /// if one of them does not fit the format.
    pub fn size(&self) -> (size: Option<usize>)
        ensures
            size is Some <==> self@.representable() && self@.size() <= WIRE_MAX,
            size is Some ==> size->0 == self@.size(),
    {
        let ghost view = self@;
        let ghost sizes = config_sizes(view.configs);
        proof {
            lemma_config_sizes_nonnegative(view.configs);
        }
        let mut planned: u64 = match &self.specs {
            Some(specs) => match specs.size() {
                None => {
                    return None;
                },
                Some(specs_size) => specs_size as u64,
            },
            None => 0,
        };
        let count = self.configs.len();
        let mut i: usize = 0;
        while i < count
            invariant
                i <= count,
                count == self.configs@.len(),
                view == self@,
                sizes == config_sizes(view.configs),
                forall|k: int| 0 <= k < sizes.len() ==> sizes[k] >= 0,
                view.specs matches Some(specs) ==> specs.representable(),
                planned == view.specs_size() + total(sizes.take(i as int)),
                planned <= WIRE_MAX,
                forall|k: int| 0 <= k < i ==> (#[trigger] view.configs[k]).representable(),
            decreases count - i,
        {
            proof {
                lemma_total_step(sizes, i as int);
                lemma_total_monotone(sizes, i + 1);
            }
            match self.configs[i].size() {
                None => {
                    assert(!view.configs[i as int].representable());
                    return None;
                },
                Some(config_size) => {
                    planned = planned + config_size as u64;
                    if planned > WIRE_MAX {
                        return None;
                    }
                },
            }
            i += 1;
        }
        assert(sizes.take(i as int) =~= sizes);
        Some(planned as usize)
    }
}

impl Package {
    /// The size of the chunk: its tag and fixed fields, the two pools and the
    /// types. `None` if the package does not fit the format.
    pub fn size(&self) -> (size: Option<usize>)
        ensures
            size is Some <==> self@.representable(),
            size is Some ==> size->0 == self@.size(),
    {
        let ghost view = self@;
        let ghost sizes = type_sizes(view.types);
        proof {
            lemma_type_sizes_nonnegative(view.types);
            lemma_pool_size_bound(view.type_names);
            lemma_pool_size_bound(view.key_names);
        }
        if utf16_units(self.name.as_str()).len() >= PACKAGE_NAME_UNITS {
            return None;
        }
        let type_names_size = match self.type_names.size() {
            None => {
                return None;
            },
            Some(pool_size) => pool_size as u64,
        };
        let key_names_size = match self.key_names.size() {
            None => {
                return None;
            },
            Some(pool_size) => pool_size as u64,
        };
        let mut planned: u64 = 288 + type_names_size + key_names_size;
        if planned > WIRE_MAX {
            return None;
        }
        let count = self.types.len();
        let mut i: usize = 0;
        while i < count
            invariant
                i <= count,
                count == self.types@.len(),
                view == self@,
                sizes == type_sizes(view.types),
                forall|k: int| 0 <= k < sizes.len() ==> sizes[k] >= 0,
                encode_utf16(view.name).len() < PACKAGE_NAME_UNITS,
                view.type_names.representable(),
                view.key_names.representable(),
                planned == 288 + view.type_names.size() + view.key_names.size() + total(
                    sizes.take(i as int),
                ),
                planned <= WIRE_MAX,
                forall|k: int| 0 <= k < i ==> (#[trigger] view.types[k]).representable(),
            decreases count - i,
        {
            proof {
                lemma_total_step(sizes, i as int);
                lemma_total_monotone(sizes, i + 1);
            }
            match self.types[i].size() {
                None => {
                    proof {
                        if view.types[i as int].representable() {
                            assert(sizes[i as int] > WIRE_MAX);
                        }
                    }
                    return None;
                },
                Some(type_size) => {
                    planned = planned + type_size as u64;
                    if planned > WIRE_MAX {
                        return None;
                    }
                },
            }
            i += 1;
        }
        assert(sizes.take(i as int) =~= sizes);
        Some(planned as usize)
    }
}

impl Arsc {
    /// The size of the whole table: its tag, the number of packages, the
    /// global pool and the packages. `None` if the table does not fit the
    /// format.
    pub fn size(&self) -> (size: Option<usize>)
        ensures
            size is Some <==> self@.representable(),
            size is Some ==> size->0 == self@.size(),
    {
        let ghost view = self@;
        let ghost sizes = package_sizes(view.packages);
        proof {
            lemma_package_sizes_nonnegative(view.packages);
            lemma_pool_size_bound(view.global_string_pool);
        }
        let count = self.packages.len();
        if count as u64 > WIRE_MAX {
            return None;
        }
        let pool_size = match self.global_string_pool.size() {
            None => {
                return None;
            },
            Some(pool_size) => pool_size as u64,
        };
        let mut planned: u64 = 12 + pool_size;
        if planned > WIRE_MAX {
            return None;
        }
        let mut i: usize = 0;
        while i < count
            invariant
                i <= count,
                count == self.packages@.len(),
                view == self@,
                sizes == package_sizes(view.packages),
                forall|k: int| 0 <= k < sizes.len() ==> sizes[k] >= 0,
                view.global_string_pool.representable(),
                planned == 12 + view.global_string_pool.size() + total(sizes.take(i as int)),
                planned <= WIRE_MAX,
                forall|k: int| 0 <= k < i ==> (#[trigger] view.packages[k]).representable(),
            decreases count - i,
        {
            proof {
                lemma_total_step(sizes, i as int);
                lemma_total_monotone(sizes, i + 1);
            }
            match self.packages[i].size() {
                None => {
                    assert(!view.packages[i as int].representable());
                    return None;
                },
                Some(package_size) => {
                    planned = planned + package_size as u64;
                    if planned > WIRE_MAX {
                        return None;
                    }
                },
            }
            i += 1;
        }
        assert(sizes.take(i as int) =~= sizes);
        Some(planned as usize)
    }
}

} // verus!
