//! The in-memory model of a resource table, and the mathematical view of each
//! of its nodes.
use std::collections::BTreeMap;
use vstd::prelude::*;

verus! {

/// The tag at the start of every chunk.
#[derive(Debug, Clone, Copy, PartialEq, Eq, Structural)]
pub struct Header {
    pub resource_type: ResourceType,
    /// Length of the tag together with the chunk's own preamble.
    pub header_size: u16,
    /// Length of the whole chunk.
    pub size: u64,
}

/// The kinds of chunk.
#[derive(Debug, PartialEq, Eq, Copy, Clone, Structural)]
pub enum ResourceType {
    Null,
    StringPool,
    Table,
    TablePackage,
    TableType,
    TableTypeSpec,
    TableLibrary,
}

impl ResourceType {
    /// The code that stands for this kind on the wire.
    pub open spec fn spec_code(self) -> u16 {
        match self {
            ResourceType::Null => 0x0000,
            ResourceType::StringPool => 0x0001,
            ResourceType::Table => 0x0002,
            ResourceType::TablePackage => 0x0200,
            ResourceType::TableType => 0x0201,
            ResourceType::TableTypeSpec => 0x0202,
            ResourceType::TableLibrary => 0x0203,
        }
    }

    /// The kind that `bits` stands for, if it stands for one.
    pub open spec fn spec_from_code(bits: int) -> Option<ResourceType> {
        if bits == 0x0000 {
            Some(ResourceType::Null)
        } else if bits == 0x0001 {
            Some(ResourceType::StringPool)
        } else if bits == 0x0002 {
            Some(ResourceType::Table)
        } else if bits == 0x0200 {
            Some(ResourceType::TablePackage)
        } else if bits == 0x0201 {
            Some(ResourceType::TableType)
        } else if bits == 0x0202 {
            Some(ResourceType::TableTypeSpec)
        } else if bits == 0x0203 {
            Some(ResourceType::TableLibrary)
        } else {
            None
        }
    }

    /// The code that stands for this kind on the wire.
    #[verifier::when_used_as_spec(spec_code)]
    pub fn code(self) -> (bits: u16)
        ensures
            bits == self.spec_code(),
    {
        match self {
            ResourceType::Null => 0x0000,
            ResourceType::StringPool => 0x0001,
            ResourceType::Table => 0x0002,
            ResourceType::TablePackage => 0x0200,
            ResourceType::TableType => 0x0201,
            ResourceType::TableTypeSpec => 0x0202,
            ResourceType::TableLibrary => 0x0203,
        }
    }

    /// The kind that `bits` stands for; `None` for a code outside the closed set.
    pub fn from_code(bits: u16) -> (kind: Option<ResourceType>)
        ensures
            kind == ResourceType::spec_from_code(bits as int),
    {
        match bits {
            0x0000 => Some(ResourceType::Null),
            0x0001 => Some(ResourceType::StringPool),
            0x0002 => Some(ResourceType::Table),
            0x0200 => Some(ResourceType::TablePackage),
            0x0201 => Some(ResourceType::TableType),
            0x0202 => Some(ResourceType::TableTypeSpec),
            0x0203 => Some(ResourceType::TableLibrary),
            _ => None,
        }
    }
}

/// A whole resource table: one global string pool and the packages.
#[derive(Debug, Clone, PartialEq, Eq)]
pub struct Arsc {
    pub packages: Vec<Package>,
    pub global_string_pool: StringPool,
}

/// What an `Arsc` holds, as mathematical values.
pub struct ArscView {
    pub packages: Seq<PackageView>,
    pub global_string_pool: StringPoolView,
}

impl View for Arsc {
    type V = ArscView;

    open spec fn view(&self) -> ArscView {
        ArscView {
            packages: Seq::new(self.packages@.len(), |i: int| self.packages@[i]@),
            global_string_pool: self.global_string_pool@,
        }
    }
}

/// A package: its id and name, the pools that name its types and keys, and
/// its types.
#[derive(Debug, Clone, PartialEq, Eq)]
pub struct Package {
    pub id: u32,
    pub name: String,
    pub type_names: StringPool,
    pub last_public_type: u32,
    pub types: Vec<Type>,
    pub key_names: StringPool,
    pub last_public_key: u32,
}

/// What a `Package` holds, as mathematical values.
pub struct PackageView {
    pub id: u32,
    pub name: Seq<char>,
    pub type_names: StringPoolView,
    pub last_public_type: u32,
    pub types: Seq<TypeView>,
    pub key_names: StringPoolView,
    pub last_public_key: u32,
}

impl View for Package {
    type V = PackageView;

    open spec fn view(&self) -> PackageView {
        PackageView {
            id: self.id,
            name: self.name@,
            type_names: self.type_names@,
            last_public_type: self.last_public_type,
            types: Seq::new(self.types@.len(), |i: int| self.types@[i]@),
            key_names: self.key_names@,
            last_public_key: self.last_public_key,
        }
    }
}

/// A pool of strings, addressed by position, with the styles of its first
/// strings.
#[derive(Debug, Clone, PartialEq, Eq)]
pub struct StringPool {
    pub flags: u32,
    pub strings: Vec<String>,
    pub styles: Vec<Style>,
}

/// What a `StringPool` holds, as mathematical values.
pub struct StringPoolView {
    pub flags: u32,
    pub strings: Seq<Seq<char>>,
    pub styles: Seq<Seq<StyleSpan>>,
}

impl View for StringPool {
    type V = StringPoolView;

    open spec fn view(&self) -> StringPoolView {
        StringPoolView {
            flags: self.flags,
            strings: Seq::new(self.strings@.len(), |i: int| self.strings@[i]@),
            styles: Seq::new(self.styles@.len(), |i: int| self.styles@[i]@),
        }
    }
}

/// The flag that says a pool's strings are stored as UTF-8.
pub const UTF8_FLAG: u32 = 0x0000_0100;

impl StringPoolView {
    /// Whether the flags say that the strings are stored as UTF-8.
    pub open spec fn use_utf8(self) -> bool {
        self.flags & UTF8_FLAG != 0
    }
}

impl StringPool {
    /// Whether the strings of this pool are stored as UTF-8 rather than UTF-16.
    pub fn use_utf8(&self) -> (utf8: bool)
        ensures
            utf8 == self@.use_utf8(),
            utf8 == (self.flags & 0x100 != 0),
    {
        self.flags & UTF8_FLAG != 0
    }
}

/// The spans of one styled string.
#[derive(Debug, Clone, PartialEq, Eq)]
pub struct Style {
    pub spans: Vec<StyleSpan>,
}

impl View for Style {
    type V = Seq<StyleSpan>;

    open spec fn view(&self) -> Seq<StyleSpan> {
        self.spans@
    }
}

/// The word that ends a list of spans on the wire.
pub const RES_STRING_POOL_SPAN_END: u32 = 0xFFFF_FFFF;

/// One span of a style: a tag name and the range of characters it covers.
#[derive(Debug, Clone, Copy, PartialEq, Eq, Structural)]
pub struct StyleSpan {
    /// Index of the tag's name in the pool.
    pub name: u32,
    /// First character of the range.
    pub start: u32,
    /// Last character of the range.
    pub end: u32,
}

/// What a package holds for one type name: the specs, if any, and the
/// configurations.
#[derive(Debug, Clone, PartialEq, Eq)]
pub struct Type {
    /// `id - 1` is the position of the type's name in the package's `type_names`.
    pub id: usize,
    pub specs: Option<Specs>,
    pub configs: Vec<Config>,
}

/// What a `Type` holds, as mathematical values.
pub struct TypeView {
    pub id: usize,
    pub specs: Option<SpecsView>,
    pub configs: Seq<ConfigView>,
}

impl View for Type {
    type V = TypeView;

    open spec fn view(&self) -> TypeView {
        TypeView {
            id: self.id,
            specs: match self.specs {
                Some(specs) => Some(specs@),
                None => None,
            },
            configs: Seq::new(self.configs@.len(), |i: int| self.configs@[i]@),
        }
    }
}

impl Type {
    /// A type with the given id, without specs or configurations.
    pub fn with_id(id: usize) -> (made: Type)
        ensures
            made@ == (TypeView { id, specs: None, configs: Seq::empty() }),
    {
        let made = Type { id, specs: None, configs: Vec::new() };
        assert(made@.configs =~= Seq::empty());
        made
    }
}

/// The spec chunk of a type: one `Spec` per resource of the type.
#[derive(Debug, Clone, PartialEq, Eq)]
pub struct Specs {
    pub type_id: usize,
    pub res0: u8,
    pub res1: u16,
    pub specs: Vec<Spec>,
}

/// What a `Specs` holds, as mathematical values.
pub struct SpecsView {
    pub type_id: usize,
    pub res0: u8,
    pub res1: u16,
    pub specs: Seq<Spec>,
}

impl View for Specs {
    type V = SpecsView;

    open spec fn view(&self) -> SpecsView {
        SpecsView { type_id: self.type_id, res0: self.res0, res1: self.res1, specs: self.specs@ }
    }
}

impl SpecsView {
    /// This chunk with the name of the spec at `spec_index` replaced.
    pub open spec fn set_name_index(self, spec_index: int, name_index: usize) -> SpecsView {
        SpecsView {
            specs: self.specs.update(
                spec_index,
                Spec { name_index, ..self.specs[spec_index] },
            ),
            ..self
        }
    }
}

impl Specs {
    /// Records that the spec at `spec_index` is named by `key_names[name_index]`.
    pub fn set_name_index(&mut self, spec_index: usize, name_index: usize)
        requires
            spec_index < old(self).specs.len(),
        ensures
            final(self)@ == old(self)@.set_name_index(spec_index as int, name_index),
    {
        let spec = self.specs[spec_index];
        self.specs.set(spec_index, Spec { flags: spec.flags, id: spec.id, name_index });
    }
}

/// The flags of one resource, its position among the specs of its type, and
/// its name.
#[derive(Debug, Clone, Copy, PartialEq, Eq, Structural)]
pub struct Spec {
    pub flags: u32,
    pub id: usize,
    /// Position of the name in the package's `key_names`.
    pub name_index: usize,
}

impl Spec {
    /// A spec without a name yet.
    pub fn new(flags: u32, id: usize) -> (made: Spec)
        ensures
            made == (Spec { flags, id, name_index: 0 }),
    {
        Spec { flags, id, name_index: 0 }
    }
}

/// One configuration of a type: the qualifier blob and the resources that
/// the configuration defines, by spec index.
#[derive(Debug, Clone, PartialEq, Eq)]
pub struct Config {
    pub type_id: usize,
    pub res0: u8,
    pub res1: u16,
    /// Number of slots in the offset table.
    pub entry_count: usize,
    /// The qualifier blob, as found on the wire.
    pub id: Vec<u8>,
    pub resources: BTreeMap<usize, ResourceEntry>,
}

/// What a `Config` holds, as mathematical values.
pub struct ConfigView {
    pub type_id: usize,
    pub res0: u8,
    pub res1: u16,
    pub entry_count: usize,
    pub id: Seq<u8>,
    pub resources: Map<usize, ResourceEntryView>,
}

impl View for Config {
    type V = ConfigView;

    open spec fn view(&self) -> ConfigView {
        ConfigView {
            type_id: self.type_id,
            res0: self.res0,
            res1: self.res1,
            entry_count: self.entry_count,
            id: self.id@,
            resources: Map::new(
                |k: usize| self.resources@.contains_key(k),
                |k: usize| self.resources@[k]@,
            ),
        }
    }
}

/// One resource of a configuration.
#[derive(Debug, Clone, PartialEq, Eq)]
pub struct ResourceEntry {
    pub flags: u16,
    /// Position of the resource's spec among the specs of its type.
    pub spec_id: usize,
    /// Position of the resource's name in the package's `key_names`.
    pub name_index: usize,
    pub value: ResourceValue,
}

/// What a `ResourceEntry` holds, as mathematical values.
pub struct ResourceEntryView {
    pub flags: u16,
    pub spec_id: usize,
    pub name_index: usize,
    pub value: ResourceValueView,
}

impl View for ResourceEntry {
    type V = ResourceEntryView;

    open spec fn view(&self) -> ResourceEntryView {
        ResourceEntryView {
            flags: self.flags,
            spec_id: self.spec_id,
            name_index: self.name_index,
            value: self.value@,
        }
    }
}

/// The flag that says an entry holds a bag rather than a plain value.
pub const ENTRY_FLAG_COMPLEX: u16 = 0x0001;

impl ResourceEntryView {
    /// Whether the flags announce a bag.
    pub open spec fn is_bag(self) -> bool {
        self.flags & ENTRY_FLAG_COMPLEX != 0
    }
}

impl ResourceEntry {
    /// Whether the flags announce a bag.
    pub fn is_bag(&self) -> (bag: bool)
        ensures
            bag == self@.is_bag(),
            bag == (self.flags & 0x0001 != 0),
    {
        self.flags & ENTRY_FLAG_COMPLEX != 0
    }
}

/// What an entry holds: a plain value, or a bag of values under a parent.
#[derive(Debug, Clone, PartialEq, Eq)]
pub enum ResourceValue {
    Bag { parent: u32, values: Vec<(u32, Value)> },
    Plain(Value),
}

/// What a `ResourceValue` holds, as mathematical values.
pub enum ResourceValueView {
    Bag { parent: u32, values: Seq<(u32, Value)> },
    Plain(Value),
}

impl View for ResourceValue {
    type V = ResourceValueView;

    open spec fn view(&self) -> ResourceValueView {
        match self {
            ResourceValue::Bag { parent, values } => ResourceValueView::Bag {
                parent: *parent,
                values: values@,
            },
            ResourceValue::Plain(value) => ResourceValueView::Plain(*value),
        }
    }
}

/// A typed datum.
#[derive(Debug, Clone, Copy, PartialEq, Eq, Structural)]
pub struct Value {
    pub size: u16,
    pub zero: u8,
    pub data_type: u8,
    /// When the type is a string, the position of the string in the table's
    /// global pool.
    pub data_index: usize,
}

/// The bits of `data_type` that mark a string.
pub const TYPE_STRING: u8 = 0x03;

impl Value {
    /// Whether the type marks a string.
    pub open spec fn spec_is_string(&self) -> bool {
        self.data_type & TYPE_STRING != 0
    }

    /// Whether the value refers to a string of the global pool.
    #[verifier::when_used_as_spec(spec_is_string)]
    pub fn is_string(&self) -> (string: bool)
        ensures
            string == self.spec_is_string(),
            string == (self.data_type & 0x03 != 0),
    {
        self.data_type & TYPE_STRING != 0
    }
}

} // verus!
