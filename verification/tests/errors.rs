use arsc::components::{
    Arsc, Config, Header, Package, ResourceEntry, ResourceValue, Spec, Specs, StringPool, Type,
    Value,
};
use arsc::grammar::ParseError;
use arsc::parser::read_util::peek_u32;
use arsc::{parse_from, write_to};
use std::collections::BTreeMap;

fn pool_of(flags: u32, strings: &[&str]) -> StringPool {
    StringPool { flags, strings: strings.iter().map(|s| s.to_string()).collect(), styles: vec![] }
}

fn qualifier(tag: u8) -> Vec<u8> {
    let mut id = vec![0u8; 64];
    id[0] = 64;
    id[8] = tag;
    id
}

fn plain_entry(spec_id: usize, name_index: usize) -> ResourceEntry {
    ResourceEntry {
        flags: 0,
        spec_id,
        name_index,
        value: ResourceValue::Plain(Value { size: 8, zero: 0, data_type: 3, data_index: 0 }),
    }
}

fn config_with(type_id: usize, tag: u8, entry_count: usize, entries: &[(usize, usize)]) -> Config {
    let mut resources = BTreeMap::new();
    for (spec_id, name_index) in entries {
        resources.insert(*spec_id, plain_entry(*spec_id, *name_index));
    }
    Config { type_id, res0: 0, res1: 0, entry_count, id: qualifier(tag), resources }
}

fn specs_of(type_id: usize, names: &[usize]) -> Specs {
    Specs {
        type_id,
        res0: 0,
        res1: 0,
        specs: names
            .iter()
            .enumerate()
            .map(|(id, name_index)| Spec { flags: 0, id, name_index: *name_index })
            .collect(),
    }
}

fn table_of(types: Vec<Type>, type_names: &[&str]) -> Arsc {
    Arsc {
        global_string_pool: pool_of(0x100, &["value"]),
        packages: vec![Package {
            id: 0x7F,
            name: "pkg".to_string(),
            type_names: pool_of(0x100, type_names),
            last_public_type: 0,
            types,
            key_names: pool_of(0x100, &["a", "b", "c"]),
            last_public_key: 0,
        }],
    }
}

fn serialized(table: &Arsc) -> Vec<u8> {
    let mut output = Vec::new();
    let written = write_to(table, &mut output).expect("the table fits the format");
    assert_eq!(Some(written), table.size());
    assert_eq!(written, output.len());
    output
}

#[test]
fn outer_chunk_must_be_a_table() {
    let mut bytes = serialized(&table_of(vec![], &[]));
    bytes[0] = 0x01;
    assert_eq!(parse_from(&bytes), Err(ParseError::UnexpectedChunk));
    bytes[0] = 0x05;
    assert_eq!(parse_from(&bytes), Err(ParseError::UnknownChunkType));
}

#[test]
fn global_pool_is_required() {
    let mut bytes = serialized(&table_of(vec![], &[]));
    bytes[12] = 0x02;
    assert_eq!(parse_from(&bytes), Err(ParseError::UnexpectedChunk));
    bytes[12] = 0x09;
    assert_eq!(parse_from(&bytes), Err(ParseError::UnknownChunkType));
}

#[test]
fn package_count_is_kept() {
    let mut bytes = serialized(&table_of(vec![], &[]));
    assert_eq!(peek_u32(&bytes, 8), 1);
    bytes[8] = 2;
    assert_eq!(parse_from(&bytes), Err(ParseError::UnexpectedEof));
    bytes[8] = 0;
    let parsed = parse_from(&bytes).unwrap();
    assert!(parsed.packages.is_empty());
    let global = 12 + 28 + 4 + 8;
    let mut two = serialized(&table_of(vec![], &[]));
    let second = two[global..].to_vec();
    two.extend_from_slice(&second);
    two[8] = 2;
    let parsed = parse_from(&two).unwrap();
    assert_eq!(parsed.packages.len(), 2);
    assert_eq!(parsed.packages[0], parsed.packages[1]);
}

#[test]
fn package_chunk_is_required() {
    let mut bytes = serialized(&table_of(vec![], &[]));
    let package_at = 12 + 28 + 4 + 8;
    assert_eq!(&bytes[package_at..package_at + 4], &[0x00, 0x02, 0x20, 0x01]);
    bytes[package_at] = 0x01;
    assert_eq!(parse_from(&bytes), Err(ParseError::UnexpectedChunk));
}

#[test]
fn undecodable_strings_are_refused() {
    let table = table_of(vec![], &[]);
    let mut bytes = serialized(&table);
    let text_at = 12 + 28 + 4 + 2;
    assert_eq!(&bytes[text_at..text_at + 5], b"value");
    bytes[text_at] = 0xC0;
    assert_eq!(parse_from(&bytes), Err(ParseError::InvalidString));
    let mut named = serialized(&table);
    let name_at = 12 + 28 + 4 + 8 + 12;
    assert_eq!(&named[name_at..name_at + 8], &[b'p', 0, b'k', 0, b'g', 0, 0, 0]);
    named[name_at + 1] = 0xDC;
    assert_eq!(parse_from(&named), Err(ParseError::InvalidString));
}

#[test]
fn empty_spec_chunk_is_refused() {
    let table = table_of(
        vec![Type { id: 1, specs: Some(specs_of(1, &[])), configs: vec![] }],
        &["string"],
    );
    assert_eq!(parse_from(&serialized(&table)), Err(ParseError::EmptySpecs));
}

#[test]
fn chunks_must_name_a_type_of_the_package() {
    for type_id in [0, 2, 255] {
        let specs = table_of(
            vec![Type { id: 1, specs: Some(specs_of(type_id, &[0])), configs: vec![] }],
            &["string"],
        );
        assert_eq!(parse_from(&serialized(&specs)), Err(ParseError::TypeIdOutOfRange));
        let config = table_of(
            vec![Type { id: 1, specs: None, configs: vec![config_with(type_id, 1, 0, &[])] }],
            &["string"],
        );
        assert_eq!(parse_from(&serialized(&config)), Err(ParseError::TypeIdOutOfRange));
    }
}

#[test]
fn a_type_has_one_spec_chunk() {
    let table = table_of(
        vec![
            Type { id: 1, specs: Some(specs_of(1, &[0])), configs: vec![] },
            Type { id: 2, specs: Some(specs_of(1, &[0])), configs: vec![] },
        ],
        &["string", "color"],
    );
    assert_eq!(parse_from(&serialized(&table)), Err(ParseError::DuplicateSpecs));
}

#[test]
fn entries_must_stand_at_a_spec() {
    let table = table_of(
        vec![Type {
            id: 1,
            specs: Some(specs_of(1, &[0, 0])),
            configs: vec![config_with(1, 1, 3, &[(2, 1)])],
        }],
        &["string"],
    );
    assert_eq!(parse_from(&serialized(&table)), Err(ParseError::SpecIndexOutOfRange));
    // without specs the same entry is accepted
    let free = table_of(
        vec![Type { id: 1, specs: None, configs: vec![config_with(1, 1, 3, &[(2, 1)])] }],
        &["string"],
    );
    assert_eq!(parse_from(&serialized(&free)), Ok(free));
}

#[test]
fn other_chunks_are_refused_among_the_types() {
    let table = table_of(
        vec![Type { id: 1, specs: Some(specs_of(1, &[0])), configs: vec![] }],
        &["string"],
    );
    let mut bytes = serialized(&table);
    let chunk_at = bytes.len() - 20;
    assert_eq!(&bytes[chunk_at..chunk_at + 4], &[0x02, 0x02, 0x10, 0x00]);
    bytes[chunk_at] = 0x03;
    assert_eq!(parse_from(&bytes), Err(ParseError::UnexpectedChunk));
    bytes[chunk_at] = 0x00;
    bytes[chunk_at + 1] = 0x00;
    assert_eq!(parse_from(&bytes), Err(ParseError::UnexpectedChunk));
    bytes[chunk_at + 1] = 0x07;
    assert_eq!(parse_from(&bytes), Err(ParseError::UnknownChunkType));
}

#[test]
fn names_of_specs_come_from_the_entries() {
    let written = table_of(
        vec![
            Type {
                id: 1,
                specs: Some(specs_of(1, &[9, 9, 9, 9])),
                configs: vec![
                    config_with(1, 1, 4, &[(0, 2), (1, 1)]),
                    config_with(1, 2, 4, &[(1, 1), (3, 0)]),
                ],
            },
            Type { id: 5, specs: None, configs: vec![config_with(2, 1, 1, &[(0, 2)])] },
        ],
        &["string", "color"],
    );
    let parsed = parse_from(&serialized(&written)).unwrap();
    let types = &parsed.packages[0].types;
    assert_eq!(types[0].specs, Some(specs_of(1, &[2, 1, 0, 0])));
    assert_eq!(types[0].configs, written.packages[0].types[0].configs);
    assert_eq!(types[1].id, 2);
    assert_eq!(types[1].specs, None);
    assert_eq!(types[1].configs, written.packages[0].types[1].configs);
    for entry_type in types {
        if let Some(specs) = &entry_type.specs {
            for config in &entry_type.configs {
                for (index, entry) in &config.resources {
                    assert_eq!(specs.specs[*index].name_index, entry.name_index);
                    assert_eq!(specs.specs[*index].id, *index);
                    assert_eq!(entry.spec_id, *index);
                }
            }
        }
    }
    assert_eq!(serialized(&parsed), serialized(&written));
}

#[test]
fn the_last_configuration_names_a_spec() {
    let mut entry_type = Type {
        id: 1,
        specs: Some(specs_of(1, &[0, 0])),
        configs: vec![config_with(1, 1, 2, &[(0, 1)]), config_with(1, 2, 2, &[(0, 2), (1, 1)])],
    };
    assert_eq!(entry_type.name_specs(), Ok(()));
    assert_eq!(entry_type.specs, Some(specs_of(1, &[2, 1])));
    let mut bare = Type { id: 1, specs: None, configs: vec![config_with(1, 1, 9, &[(8, 1)])] };
    assert_eq!(bare.name_specs(), Ok(()));
    assert_eq!(bare.specs, None);
    let mut specs = specs_of(1, &[0]);
    assert_eq!(
        specs.take_names(&config_with(1, 1, 2, &[(1, 1)])),
        Err(ParseError::SpecIndexOutOfRange)
    );
    // an entry beyond the slots of its configuration is found all the same
    let mut wide = specs_of(1, &[0, 0, 0]);
    assert_eq!(wide.take_names(&config_with(1, 1, 1, &[(0, 1), (2, 2)])), Ok(()));
    assert_eq!(wide, specs_of(1, &[1, 0, 2]));
    assert_eq!(
        wide.take_names(&config_with(1, 1, 1, &[(3, 1)])),
        Err(ParseError::SpecIndexOutOfRange)
    );
    let mut types = vec![
        Type { id: 1, specs: Some(specs_of(1, &[0])), configs: vec![config_with(1, 1, 1, &[(0, 2)])] },
        Type { id: 2, specs: None, configs: vec![] },
    ];
    assert_eq!(Package::name_types(&mut types), Ok(()));
    assert_eq!(types[0].specs, Some(specs_of(1, &[2])));
}

#[test]
fn chunks_may_come_in_any_order() {
    let ordered = table_of(
        vec![
            Type { id: 1, specs: None, configs: vec![config_with(1, 1, 1, &[(0, 2)])] },
            Type { id: 2, specs: Some(specs_of(2, &[0])), configs: vec![] },
            Type { id: 3, specs: Some(specs_of(1, &[0])), configs: vec![] },
        ],
        &["string", "color", "dimen"],
    );
    let parsed = parse_from(&serialized(&ordered)).unwrap();
    let types = &parsed.packages[0].types;
    assert_eq!(types.len(), 3);
    assert_eq!(types[0].specs, Some(specs_of(1, &[2])));
    assert_eq!(types[0].configs.len(), 1);
    assert_eq!(types[1].specs, Some(specs_of(2, &[0])));
    assert_eq!(types[2], Type { id: 3, specs: None, configs: vec![] });
}

#[test]
fn chunks_are_read_within_the_budget_of_the_package() {
    let table = table_of(
        vec![Type { id: 1, specs: Some(specs_of(1, &[0])), configs: vec![] }],
        &["string"],
    );
    let mut bytes = serialized(&table);
    let package_at = 12 + 28 + 4 + 8;
    let size = peek_u32(&bytes, package_at + 4);
    let shorter = size - 20;
    bytes[package_at + 4..package_at + 8].copy_from_slice(&shorter.to_le_bytes());
    let parsed = parse_from(&bytes).unwrap();
    assert_eq!(parsed.packages[0].types, vec![Type { id: 1, specs: None, configs: vec![] }]);
    // a tag that the input does not hold whole ends the package
    let whole = serialized(&table);
    let parsed = parse_from(&whole[..whole.len() - 20 + 7]);
    assert_eq!(parsed.unwrap().packages[0].types[0].specs, None);
    assert_eq!(parse_from(&whole[..whole.len() - 1]), Err(ParseError::UnexpectedEof));
}

#[test]
fn configuration_chunk() {
    let config = config_with(3, 7, 3, &[(1, 4)]);
    let mut bytes = Vec::new();
    let written = config.write(&mut bytes);
    assert_eq!(Some(written), config.size());
    assert_eq!(written, 20 + 64 + 12 + 16);
    assert_eq!(&bytes[..8], &[0x01, 0x02, 0x54, 0x00, 112, 0, 0, 0]);
    assert_eq!(&bytes[8..12], &[3, 0, 0, 0]);
    assert_eq!(peek_u32(&bytes, 12), 3);
    assert_eq!(peek_u32(&bytes, 16), 20 + 64 + 12);
    assert_eq!(&bytes[20..84], &qualifier(7)[..]);
    assert_eq!(
        &bytes[84..96],
        &[0xFF, 0xFF, 0xFF, 0xFF, 0x00, 0x00, 0x00, 0x00, 0xFF, 0xFF, 0xFF, 0xFF]
    );
    assert_eq!(&bytes[96..104], &[8, 0, 0, 0, 4, 0, 0, 0]);
    let header = Header::parse(&bytes, 0).unwrap();
    assert_eq!(Config::parse(&bytes, 0, header), Ok((config, 112)));
    assert_eq!(Config::parse_config_id(&bytes, 20), Ok((qualifier(7), 84)));
    assert_eq!(Config::parse_config_id(&bytes[..83], 20), Err(ParseError::UnexpectedEof));
    let mut resources = Vec::new();
    assert_eq!(config_with(3, 7, 3, &[(1, 4)]).write_resources(&mut resources), 16);
    assert_eq!(resources, bytes[96..].to_vec());
}

#[test]
fn offsets_are_running_sizes() {
    let mut resources = BTreeMap::new();
    resources.insert(0, plain_entry(0, 0));
    resources.insert(
        2,
        ResourceEntry {
            flags: 1,
            spec_id: 2,
            name_index: 1,
            value: ResourceValue::Bag {
                parent: 0x0101_0000,
                values: vec![
                    (1, Value { size: 8, zero: 0, data_type: 0x10, data_index: 1 }),
                    (2, Value { size: 8, zero: 0, data_type: 0x10, data_index: 2 }),
                    (3, Value { size: 8, zero: 0, data_type: 0x10, data_index: 3 }),
                ],
            },
        },
    );
    resources.insert(3, plain_entry(3, 2));
    resources.insert(5, plain_entry(5, 0));
    let config = Config { type_id: 1, res0: 0, res1: 0, entry_count: 7, id: qualifier(0), resources };
    let mut bytes = Vec::new();
    let written = config.write(&mut bytes);
    let table: Vec<u32> = (0..7).map(|i| peek_u32(&bytes, 84 + 4 * i)).collect();
    assert_eq!(table, vec![0, 0xFFFF_FFFF, 16, 16 + 52, 0xFFFF_FFFF, 16 + 52 + 16, 0xFFFF_FFFF]);
    assert_eq!(table.iter().filter(|word| **word == 0xFFFF_FFFF).count(), 7 - 4);
    let entries_start = peek_u32(&bytes, 16) as usize;
    assert_eq!(entries_start, 84 + 28);
    for (index, entry) in &config.resources {
        let at = entries_start + table[*index] as usize;
        let (read, _) = ResourceEntry::parse(&bytes, at, *index).unwrap();
        assert_eq!(&read, entry);
    }
    assert_eq!(written, entries_start + 16 + 52 + 16 + 16);
    let header = Header::parse(&bytes, 0).unwrap();
    assert_eq!(Config::parse(&bytes, 0, header), Ok((config, written)));
}

#[test]
fn what_does_not_fit_is_not_sized() {
    let beyond = config_with(1, 1, 2, &[(2, 0)]);
    assert_eq!(beyond.size(), None);
    assert_eq!(config_with(256, 1, 1, &[(0, 0)]).size(), None);
    assert_eq!(config_with(255, 1, 1, &[(0, 0)]).size(), Some(20 + 64 + 4 + 16));
    assert_eq!(specs_of(256, &[0]).size(), None);
    assert_eq!(specs_of(255, &[0]).size(), Some(20));
    let long_name = Package {
        id: 1,
        name: "n".repeat(128),
        type_names: pool_of(0, &[]),
        last_public_type: 0,
        types: vec![],
        key_names: pool_of(0, &[]),
        last_public_key: 0,
    };
    assert_eq!(long_name.size(), None);
    let fitting = Package { name: "n".repeat(127), ..long_name };
    assert_eq!(fitting.size(), Some(288 + 28 + 28));
    let mut bytes = Vec::new();
    assert_eq!(fitting.write(&mut bytes), 288 + 28 + 28);
    assert_eq!(Package::parse(&bytes, 0), Ok((fitting, 344)));
    if usize::BITS > 32 {
        let wide = Value { size: 8, zero: 0, data_type: 3, data_index: 0x1_0000_0000 };
        assert_eq!(wide.size(), None);
        let name = ResourceEntry { name_index: 0x1_0000_0000, ..plain_entry(0, 0) };
        assert_eq!(name.size(), None);
    }
}

#[test]
fn package_offsets_lead_to_the_pools() {
    let table = table_of(vec![], &["string", "color"]);
    let bytes = serialized(&table);
    let package_at = 12 + 28 + 4 + 8;
    let type_strings = peek_u32(&bytes, package_at + 268) as usize;
    let key_strings = peek_u32(&bytes, package_at + 276) as usize;
    assert_eq!(type_strings, 288);
    assert_eq!(peek_u32(&bytes, package_at + 284), 0);
    let package = &table.packages[0];
    let (type_names, end) = StringPool::parse(&bytes, package_at + type_strings).unwrap();
    assert_eq!(type_names, package.type_names);
    assert_eq!(end, package_at + key_strings);
    let (key_names, end) = StringPool::parse(&bytes, package_at + key_strings).unwrap();
    assert_eq!(key_names, package.key_names);
    assert_eq!(end, bytes.len());
    assert_eq!(Package::empty_types(2), vec![Type::with_id(1), Type::with_id(2)]);
}
