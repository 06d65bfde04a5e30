use arsc::components::{
    Arsc, Config, Package, ResourceEntry, ResourceValue, Spec, Specs, StringPool, Style,
    StyleSpan, Type, Value,
};
use arsc::grammar::ParseError;
use arsc::writer::WriteError;
use arsc::{parse_from, write_to};
use std::collections::BTreeMap;

fn empty_pool(flags: u32) -> StringPool {
    StringPool { flags, strings: vec![], styles: vec![] }
}

fn pool_of(flags: u32, strings: &[&str]) -> StringPool {
    StringPool { flags, strings: strings.iter().map(|s| s.to_string()).collect(), styles: vec![] }
}

fn plain(data_index: usize) -> Value {
    Value { size: 8, zero: 0, data_type: 3, data_index }
}

fn qualifier() -> Vec<u8> {
    let mut id = vec![0u8; 64];
    id[0] = 64;
    id[4] = 0x65;
    id[5] = 0x6E;
    id
}

fn sample_table() -> Arsc {
    let mut first = BTreeMap::new();
    first.insert(
        1,
        ResourceEntry { flags: 0, spec_id: 1, name_index: 1, value: ResourceValue::Plain(plain(0)) },
    );
    let mut second = BTreeMap::new();
    second.insert(
        0,
        ResourceEntry {
            flags: 1,
            spec_id: 0,
            name_index: 0,
            value: ResourceValue::Bag {
                parent: 0,
                values: vec![(0x0101_0000, plain(1)), (0x0101_0001, plain(0))],
            },
        },
    );
    second.insert(
        1,
        ResourceEntry { flags: 0, spec_id: 1, name_index: 1, value: ResourceValue::Plain(plain(1)) },
    );
    let mut other = qualifier();
    other[4] = 0x66;
    other[5] = 0x72;
    let string_type = Type {
        id: 1,
        specs: Some(Specs {
            type_id: 1,
            res0: 0,
            res1: 0,
            specs: vec![
                Spec { flags: 4, id: 0, name_index: 0 },
                Spec { flags: 0, id: 1, name_index: 1 },
                Spec { flags: 0x4000_0000, id: 2, name_index: 0 },
            ],
        }),
        configs: vec![
            Config {
                type_id: 1,
                res0: 0,
                res1: 0,
                entry_count: 3,
                id: qualifier(),
                resources: first,
            },
            Config { type_id: 1, res0: 0, res1: 0, entry_count: 3, id: other, resources: second },
        ],
    };
    let empty_type = Type { id: 2, specs: None, configs: vec![] };
    Arsc {
        global_string_pool: StringPool {
            flags: 0x100,
            strings: vec!["hello".to_string(), "wörld €".to_string()],
            styles: vec![Style { spans: vec![StyleSpan { name: 1, start: 0, end: 4 }] }],
        },
        packages: vec![Package {
            id: 0x7F,
            name: "com.example.app".to_string(),
            type_names: pool_of(0, &["string", "drawable"]),
            last_public_type: 2,
            types: vec![string_type, empty_type],
            key_names: pool_of(0x100, &["app_name", "title"]),
            last_public_key: 2,
        }],
    }
}

fn serialized(table: &Arsc) -> Vec<u8> {
    let mut output = Vec::new();
    let written = write_to(table, &mut output).expect("the table fits the format");
    assert_eq!(written, output.len());
    output
}

#[test]
fn test_read_write_matches() {
    let expected_bytes = serialized(&sample_table());
    let parsed = parse_from(&expected_bytes).expect("what was written is read back");
    let actual_bytes = serialized(&parsed);
    assert_eq!(expected_bytes, actual_bytes);
    assert_eq!(parsed, sample_table());
}

#[test]
fn empty_pool_table_is_forty_bytes() {
    let table = Arsc { global_string_pool: empty_pool(0), packages: vec![] };
    let bytes = serialized(&table);
    let expected: Vec<u8> = vec![
        0x02, 0x00, 0x0C, 0x00, 0x28, 0x00, 0x00, 0x00, // table tag
        0x00, 0x00, 0x00, 0x00, // no package
        0x01, 0x00, 0x1C, 0x00, 0x1C, 0x00, 0x00, 0x00, // pool tag
        0x00, 0x00, 0x00, 0x00, 0x00, 0x00, 0x00, 0x00, 0x00, 0x00, 0x00, 0x00, // counts, flags
        0x1C, 0x00, 0x00, 0x00, 0x00, 0x00, 0x00, 0x00, // starts
    ];
    assert_eq!(bytes, expected);
    assert_eq!(table.size(), Some(0x28));
    assert_eq!(parse_from(&bytes), Ok(table));
}

#[test]
fn one_utf8_string_pool() {
    let pool = pool_of(0x100, &["hi"]);
    let mut bytes = Vec::new();
    let written = pool.write(&mut bytes);
    let expected: Vec<u8> = vec![
        0x01, 0x00, 0x1C, 0x00, 0x28, 0x00, 0x00, 0x00, // tag
        0x01, 0x00, 0x00, 0x00, // one string
        0x00, 0x00, 0x00, 0x00, // no style
        0x00, 0x01, 0x00, 0x00, // UTF-8
        0x20, 0x00, 0x00, 0x00, // strings start
        0x00, 0x00, 0x00, 0x00, // no styles start
        0x00, 0x00, 0x00, 0x00, // offset of string 0
        0x02, 0x02, 0x68, 0x69, 0x00, // lengths, "hi", zero
        0x00, 0x00, 0x00, // padding
    ];
    assert_eq!(bytes, expected);
    assert_eq!(written, 40);
    assert_eq!(pool.size(), Some(40));
    assert_eq!(StringPool::parse(&bytes, 0), Ok((pool, 40)));
}

#[test]
fn sparse_config_offset_table() {
    let mut resources = BTreeMap::new();
    resources.insert(
        1,
        ResourceEntry { flags: 0, spec_id: 1, name_index: 7, value: ResourceValue::Plain(plain(9)) },
    );
    let config =
        Config { type_id: 1, res0: 0, res1: 0, entry_count: 3, id: vec![4, 0, 0, 0], resources };
    let mut table = Vec::new();
    assert_eq!(config.write_entries(&mut table), 12);
    assert_eq!(
        table,
        vec![0xFF, 0xFF, 0xFF, 0xFF, 0x00, 0x00, 0x00, 0x00, 0xFF, 0xFF, 0xFF, 0xFF]
    );
    assert_eq!(config.size(), Some(20 + 4 + 12 + 16));
}

#[test]
fn bag_entry_layout() {
    let entry = ResourceEntry {
        flags: 1,
        spec_id: 0,
        name_index: 5,
        value: ResourceValue::Bag { parent: 0, values: vec![(1, plain(2)), (3, plain(4))] },
    };
    assert!(entry.is_bag());
    let mut bytes = Vec::new();
    assert_eq!(entry.write(&mut bytes), 8 + 32);
    assert_eq!(&bytes[0..2], &[16, 0]);
    assert_eq!(bytes[2] & 1, 1);
    assert_eq!(&bytes[4..8], &[5, 0, 0, 0]);
    assert_eq!(&bytes[8..16], &[0, 0, 0, 0, 2, 0, 0, 0]);
    assert_eq!(bytes.len() - 8, 4 + 4 + 2 * (4 + 8));
    assert_eq!(entry.size(), Some(40));
    assert_eq!(ResourceEntry::parse(&bytes, 0, 0), Ok((entry, 40)));
}

#[test]
fn package_name_field() {
    let package = Package {
        id: 1,
        name: "com.example.app".to_string(),
        type_names: empty_pool(0),
        last_public_type: 0,
        types: vec![],
        key_names: empty_pool(0),
        last_public_key: 0,
    };
    let mut bytes = Vec::new();
    assert_eq!(package.write_name(&mut bytes), 256);
    assert_eq!(bytes.len(), 256);
    let units: Vec<u8> = "com.example.app".bytes().flat_map(|b| [b, 0]).collect();
    assert_eq!(units.len(), 30);
    assert_eq!(&bytes[..30], &units[..]);
    assert!(bytes[30..].iter().all(|b| *b == 0));
    assert_eq!(bytes[30..].len(), 226);
    assert_eq!(Package::parse_package_name(&bytes, 0), Ok("com.example.app".to_string()));
}

#[test]
fn configs_of_one_type_keep_their_order() {
    let bytes = serialized(&sample_table());
    let parsed = parse_from(&bytes).unwrap();
    let configs = &parsed.packages[0].types[0].configs;
    assert_eq!(configs.len(), 2);
    assert_eq!(&configs[0].id[4..6], &[0x65, 0x6E]);
    assert_eq!(&configs[1].id[4..6], &[0x66, 0x72]);
    let again = serialized(&parsed);
    let first = again.windows(2).position(|w| w == [0x65, 0x6E]).unwrap();
    let second = again.windows(2).position(|w| w == [0x66, 0x72]).unwrap();
    assert!(first < second);
}

#[test]
fn unrepresentable_table_is_refused() {
    let mut table = sample_table();
    table.packages[0].types[0].specs.as_mut().unwrap().type_id = 256;
    let mut output = vec![1, 2, 3];
    assert_eq!(write_to(&table, &mut output), Err(WriteError::NotRepresentable));
    assert_eq!(output, vec![1, 2, 3]);
    assert_eq!(table.size(), None);
}

#[test]
fn truncated_input_is_an_eof() {
    let bytes = serialized(&sample_table());
    assert_eq!(parse_from(&bytes[..bytes.len() - 1]), Err(ParseError::UnexpectedEof));
    assert_eq!(parse_from(&bytes[..5]), Err(ParseError::UnexpectedEof));
    assert_eq!(parse_from(&[]), Err(ParseError::UnexpectedEof));
}
