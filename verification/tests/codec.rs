use arsc::components::{
    Config, Header, ResourceEntry, ResourceType, ResourceValue, Spec, Specs, StringPool, Style,
    StyleSpan, Type, Value,
};
use arsc::parser::parsing::Parser;
use arsc::parser::read_util::{
    available, peek_i32, peek_u16, peek_u32, peek_u8, read_i32, read_string_utf16, read_u16,
    read_u32, read_u8, skip_header,
};
use arsc::writer::components_sizing::padding;
use arsc::writer::write_util::{
    write_bytes, write_string_utf16, write_u16, write_u32, write_u8, write_units, write_zeros,
};
use arsc::writer::writing::Writer;
use arsc::writer::WriteError;
use arsc::components::Arsc;
use arsc::grammar::ParseError;
use std::collections::BTreeMap;

fn pool_of(flags: u32, strings: Vec<String>) -> StringPool {
    StringPool { flags, strings, styles: vec![] }
}

#[test]
fn integers_are_little_endian() {
    let mut bytes = Vec::new();
    assert_eq!(write_u8(&mut bytes, 0xAB), 1);
    assert_eq!(write_u16(&mut bytes, 0x1234), 2);
    assert_eq!(write_u32(&mut bytes, 0xDEAD_BEEF), 4);
    assert_eq!(write_u32(&mut bytes, 0xFFFF_FFFF), 4);
    assert_eq!(bytes, vec![0xAB, 0x34, 0x12, 0xEF, 0xBE, 0xAD, 0xDE, 0xFF, 0xFF, 0xFF, 0xFF]);
    assert_eq!(peek_u8(&bytes, 0), 0xAB);
    assert_eq!(peek_u16(&bytes, 1), 0x1234);
    assert_eq!(peek_u32(&bytes, 3), 0xDEAD_BEEF);
    assert_eq!(peek_i32(&bytes, 3), 0xDEAD_BEEFu32 as i32);
    assert_eq!(peek_i32(&bytes, 7), -1);
    let mut position = 0;
    assert_eq!(read_u8(&bytes, &mut position), Ok(0xAB));
    assert_eq!(read_u16(&bytes, &mut position), Ok(0x1234));
    assert_eq!(read_u32(&bytes, &mut position), Ok(0xDEAD_BEEF));
    assert_eq!(read_i32(&bytes, &mut position), Ok(-1));
    assert_eq!(position, 11);
    assert_eq!(read_u8(&bytes, &mut position), Err(ParseError::UnexpectedEof));
    assert_eq!(position, 11);
    position = 9;
    assert_eq!(read_u32(&bytes, &mut position), Err(ParseError::UnexpectedEof));
    assert_eq!(read_u16(&bytes, &mut position), Ok(0xFFFF));
    assert_eq!(read_u16(&bytes, &mut position), Err(ParseError::UnexpectedEof));
    assert_eq!(peek_i32(&[0xFF, 0xFF, 0xFF, 0x7F], 0), i32::MAX);
    assert_eq!(peek_i32(&[0x00, 0x00, 0x00, 0x80], 0), i32::MIN);
}

#[test]
fn bounds_are_checked_without_overflow() {
    let bytes = [0u8; 10];
    assert!(available(&bytes, 0, 10));
    assert!(available(&bytes, 10, 0));
    assert!(!available(&bytes, 0, 11));
    assert!(!available(&bytes, 11, 0));
    assert!(!available(&bytes, 5, u64::MAX));
    assert!(!available(&bytes, usize::MAX, 1));
    assert_eq!(skip_header(&bytes, 8, 0, 8), Some(8));
    assert_eq!(skip_header(&bytes, 8, 0, 4), Some(8));
    assert_eq!(skip_header(&bytes, 8, 0, 10), Some(10));
    assert_eq!(skip_header(&bytes, 8, 0, 11), None);
    assert_eq!(skip_header(&bytes, 9, 1, 9), Some(10));
    assert_eq!(skip_header(&bytes, 11, 0, 8), None);
    assert_eq!(skip_header(&bytes, 2, 4, 3), Some(7));
    assert_eq!(skip_header(&bytes, 2, 4, 7), None);
    assert_eq!(skip_header(&bytes, 2, 12, 0), None);
}

#[test]
fn bytes_zeros_and_units() {
    let mut bytes = vec![9];
    assert_eq!(write_bytes(&mut bytes, &[1, 2, 3]), 3);
    assert_eq!(write_zeros(&mut bytes, 2), 2);
    assert_eq!(write_zeros(&mut bytes, 0), 0);
    assert_eq!(write_units(&mut bytes, &vec![0x0102, 0xFFFE]), 4);
    assert_eq!(bytes, vec![9, 1, 2, 3, 0, 0, 0x02, 0x01, 0xFE, 0xFF]);
}

#[test]
fn padding_brings_to_a_multiple_of_four() {
    assert_eq!(padding(0), 0);
    assert_eq!(padding(1), 3);
    assert_eq!(padding(2), 2);
    assert_eq!(padding(3), 1);
    assert_eq!(padding(4), 0);
    assert_eq!(padding(5), 3);
    assert_eq!(padding(64), 0);
    assert_eq!(padding(usize::MAX), 1);
}

#[test]
fn utf16_writes_surrogate_pairs() {
    assert_eq!(arsc::text::utf16_units("a€𝄞"), vec![0x0061, 0x20AC, 0xD834, 0xDD1E]);
    assert_eq!(arsc::text::utf16_units("\u{FFFF}\u{10000}\u{10FFFF}"), vec![
        0xFFFF, 0xD800, 0xDC00, 0xDBFF, 0xDFFF
    ]);
    assert!(arsc::text::utf16_units("").is_empty());
    let mut bytes = Vec::new();
    assert_eq!(write_string_utf16(&mut bytes, "a€𝄞"), 8);
    assert_eq!(bytes, vec![0x61, 0x00, 0xAC, 0x20, 0x34, 0xD8, 0x1E, 0xDD]);
    let mut field = bytes.clone();
    field.extend_from_slice(&[0, 0, 0x62, 0]);
    let read = |size: usize, at: usize| {
        let mut position = at;
        let result = match size {
            1 => read_string_utf16::<1>(&field, &mut position),
            2 => read_string_utf16::<2>(&field, &mut position),
            3 => read_string_utf16::<3>(&field, &mut position),
            4 => read_string_utf16::<4>(&field, &mut position),
            6 => read_string_utf16::<6>(&field, &mut position),
            _ => read_string_utf16::<7>(&field, &mut position),
        };
        (result, position)
    };
    // the place moves behind the whole field, however short the string
    assert_eq!(read(6, 0), (Ok("a€𝄞".to_string()), 12));
    assert_eq!(read(4, 0), (Ok("a€𝄞".to_string()), 8));
    assert_eq!(read(3, 0), (Err(ParseError::InvalidString), 0));
    assert_eq!(read(7, 0), (Err(ParseError::UnexpectedEof), 0));
    assert_eq!(read(2, 8), (Ok(String::new()), 12));
    assert_eq!(read(1, 10), (Ok("b".to_string()), 12));
}

#[test]
fn utf8_length_boundary() {
    let short = "a".repeat(0x7F);
    let long = "a".repeat(0x80);
    assert_eq!(StringPool::utf8_string_size(&short), Some(1 + 1 + 0x7F + 1));
    assert_eq!(StringPool::utf8_string_size(&long), Some(2 + 2 + 0x80 + 1));
    let mut bytes = Vec::new();
    assert_eq!(StringPool::write_utf8_length(&mut bytes, 0x7F), 1);
    assert_eq!(StringPool::write_utf8_length(&mut bytes, 0x80), 2);
    assert_eq!(StringPool::write_utf8_length(&mut bytes, 0x7FFF), 2);
    assert_eq!(StringPool::write_utf8_length(&mut bytes, 0), 1);
    assert_eq!(bytes, vec![0x7F, 0x80, 0x80, 0xFF, 0xFF, 0x00]);
    assert_eq!(StringPool::utf8_length(&bytes, 0), Ok((0x7F, 1)));
    assert_eq!(StringPool::utf8_length(&bytes, 1), Ok((0x80, 3)));
    assert_eq!(StringPool::utf8_length(&bytes, 3), Ok((0x7FFF, 5)));
    assert_eq!(StringPool::utf8_length(&bytes, 5), Ok((0, 6)));
    assert_eq!(StringPool::utf8_length(&bytes, 6), Err(ParseError::UnexpectedEof));
    assert_eq!(StringPool::utf8_length(&[0x81], 0), Err(ParseError::UnexpectedEof));
    // the long form of a small length is read as that length
    assert_eq!(StringPool::utf8_length(&[0x80, 0x05], 0), Ok((5, 2)));
    assert_eq!(StringPool::utf8_string_size(&"a".repeat(0x7FFF)), Some(2 + 2 + 0x7FFF + 1));
    assert_eq!(StringPool::utf8_string_size(&"a".repeat(0x8000)), None);
    // three bytes for each character: the bytes are too many before the characters are
    assert_eq!(StringPool::utf8_string_size(&"€".repeat(0x2AAA)), Some(2 + 2 + 0x7FFE + 1));
    assert_eq!(StringPool::utf8_string_size(&"€".repeat(0x2AAB)), None);
}

#[test]
fn utf16_length_boundary() {
    let short = "a".repeat(0x7FFF);
    let long = "a".repeat(0x8000);
    assert_eq!(StringPool::utf16_string_size(&short), Some(2 + 2 * 0x7FFF + 2));
    assert_eq!(StringPool::utf16_string_size(&long), Some(4 + 2 * 0x8000 + 2));
    // a character beyond U+FFFF counts as two units
    assert_eq!(StringPool::utf16_string_size("𝄞"), Some(2 + 4 + 2));
    let mut bytes = Vec::new();
    assert_eq!(StringPool::write_utf16_length(&mut bytes, 0x7FFF), 2);
    assert_eq!(StringPool::write_utf16_length(&mut bytes, 0x8000), 4);
    assert_eq!(StringPool::write_utf16_length(&mut bytes, 0x0001_2345), 4);
    assert_eq!(StringPool::write_utf16_length(&mut bytes, 0x7FFF_FFFF), 4);
    assert_eq!(
        bytes,
        vec![
            0xFF, 0x7F, // 0x7FFF
            0x00, 0x80, 0x01, 0x00, // 0x8000: low 15 bits 0, then 1
            0x45, 0xA3, 0x02, 0x00, // 0x12345: low 15 bits 0x2345, then 2
            0xFF, 0xFF, 0xFF, 0xFF, // 0x7FFFFFFF
        ]
    );
    assert_eq!(StringPool::utf16_length(&bytes, 0), Ok((0x7FFF, 2)));
    assert_eq!(StringPool::utf16_length(&bytes, 2), Ok((0x8000, 6)));
    assert_eq!(StringPool::utf16_length(&bytes, 6), Ok((0x0001_2345, 10)));
    assert_eq!(StringPool::utf16_length(&bytes, 10), Ok((0x7FFF_FFFF, 14)));
    assert_eq!(StringPool::utf16_length(&bytes, 13), Err(ParseError::UnexpectedEof));
    assert_eq!(StringPool::utf16_length(&[0x00, 0x80, 0x01], 0), Err(ParseError::UnexpectedEof));
    // the long form of a small length is read as that length
    assert_eq!(StringPool::utf16_length(&[0x05, 0x80, 0x00, 0x00], 0), Ok((5, 4)));
}

#[test]
fn long_strings_come_back_in_both_encodings() {
    for flags in [0u32, 0x100] {
        let pool = pool_of(
            flags,
            vec!["a".repeat(0x7F), "b".repeat(0x80), "ç".repeat(0x7FFF / 2), "𝄞x".to_string()],
        );
        let size = pool.size().expect("the pool fits");
        let mut bytes = Vec::new();
        assert_eq!(pool.write(&mut bytes), size);
        assert_eq!(bytes.len(), size);
        assert_eq!(size % 4, 0);
        let (read, end) = StringPool::parse(&bytes, 0).expect("the pool is read back");
        assert_eq!(end, size);
        assert_eq!(read, pool);
        let mut again = Vec::new();
        read.write(&mut again);
        assert_eq!(again, bytes);
    }
    let pool = pool_of(0, vec!["z".repeat(0x8000)]);
    let mut bytes = Vec::new();
    pool.write(&mut bytes);
    assert_eq!(&bytes[32..36], &[0x00, 0x80, 0x01, 0x00]);
    assert_eq!(StringPool::parse(&bytes, 0), Ok((pool, 28 + 4 + 4 + 2 * 0x8000 + 2 + 2)));
}

#[test]
fn string_offsets_lead_to_the_strings() {
    let pool = StringPool {
        flags: 0x100,
        strings: vec!["one".to_string(), "".to_string(), "três".to_string()],
        styles: vec![
            Style { spans: vec![StyleSpan { name: 2, start: 0, end: 2 }] },
            Style { spans: vec![] },
            Style {
                spans: vec![
                    StyleSpan { name: 0, start: 1, end: 1 },
                    StyleSpan { name: 1, start: 2, end: 3 },
                ],
            },
        ],
    };
    let mut bytes = Vec::new();
    let written = pool.write(&mut bytes);
    assert_eq!(Some(written), pool.size());
    assert_eq!(pool.strings_length(), 6 + 3 + 8);
    let strings_start = peek_u32(&bytes, 20) as usize;
    let styles_start = peek_u32(&bytes, 24) as usize;
    assert_eq!(strings_start, 28 + 12 + 12);
    assert_eq!(styles_start, strings_start + 17 + 3);
    let offsets: Vec<usize> = (0..3).map(|i| peek_u32(&bytes, 28 + 4 * i) as usize).collect();
    assert_eq!(offsets, vec![0, 6, 9]);
    for (i, offset) in offsets.iter().enumerate() {
        let (text, _) = StringPool::read_utf8_string_item(&bytes, strings_start + offset).unwrap();
        assert_eq!(text, pool.strings[i]);
    }
    let style_offsets: Vec<usize> = (0..3).map(|i| peek_u32(&bytes, 40 + 4 * i) as usize).collect();
    assert_eq!(style_offsets, vec![0, 16, 20]);
    for (i, offset) in style_offsets.iter().enumerate() {
        let (style, _) = Style::parse(&bytes, styles_start + offset).unwrap();
        assert_eq!(style, pool.styles[i]);
    }
    assert_eq!(&bytes[bytes.len() - 8..], &[0xFF; 8]);
    assert_eq!(written, styles_start + 16 + 4 + 28 + 8);
    assert_eq!(StringPool::parse(&bytes, 0), Ok((pool, written)));
}

#[test]
fn pool_is_read_at_any_place_and_with_a_longer_header() {
    let pool = pool_of(0x100, vec!["hi".to_string()]);
    let mut bytes = vec![0xEE; 5];
    pool.write(&mut bytes);
    bytes.extend_from_slice(&[0xDD; 3]);
    assert_eq!(StringPool::parse(&bytes, 5), Ok((pool, 45)));
    // a header of 0x20 bytes: four more bytes before the offsets
    let longer: Vec<u8> = vec![
        0x01, 0x00, 0x20, 0x00, 0x2C, 0x00, 0x00, 0x00, 0x01, 0x00, 0x00, 0x00, 0x00, 0x00, 0x00,
        0x00, 0x00, 0x01, 0x00, 0x00, 0x24, 0x00, 0x00, 0x00, 0x00, 0x00, 0x00, 0x00, 0xAA, 0xAA,
        0xAA, 0xAA, 0x00, 0x00, 0x00, 0x00, 0x02, 0x02, 0x68, 0x69, 0x00, 0x00, 0x00, 0x00,
    ];
    assert_eq!(StringPool::parse(&longer, 0), Ok((pool_of(0x100, vec!["hi".to_string()]), 44)));
}

#[test]
fn utf8_text_ends_at_a_zero_byte() {
    let bytes = [0x03, 0x03, b'a', 0x00, b'c', 0x00];
    assert_eq!(StringPool::read_utf8_string_item(&bytes, 0), Ok(("a".to_string(), 6)));
    assert_eq!(
        StringPool::read_utf8_string_item(&bytes[..5], 0),
        Err(ParseError::UnexpectedEof)
    );
    assert_eq!(
        StringPool::read_utf8_string_item(&[0x01, 0x01, 0xFF, 0x00], 0),
        Err(ParseError::InvalidString)
    );
    assert_eq!(
        StringPool::read_utf16_string_item(&[0x01, 0x00, 0x00, 0xD8, 0x00, 0x00], 0),
        Err(ParseError::InvalidString)
    );
    assert_eq!(
        StringPool::read_utf16_string_item(&[0x01, 0x00, 0x41, 0x00, 0x00, 0x00], 0),
        Ok(("A".to_string(), 6))
    );
    assert_eq!(
        StringPool::read_utf16_string_item(&[0x01, 0x00, 0x41, 0x00, 0x00], 0),
        Err(ParseError::UnexpectedEof)
    );
}

#[test]
fn header_tags() {
    let header = Header { resource_type: ResourceType::TableTypeSpec, header_size: 0x10, size: 20 };
    let mut bytes = Vec::new();
    assert_eq!(header.write(&mut bytes), 8);
    assert_eq!(bytes, vec![0x02, 0x02, 0x10, 0x00, 0x14, 0x00, 0x00, 0x00]);
    assert_eq!(Header::parse(&bytes, 0), Ok(header));
    assert_eq!(Header::parse(&bytes[..7], 0), Err(ParseError::UnexpectedEof));
    assert_eq!(Header::parse(&[0x04, 0x00], 0), Err(ParseError::UnknownChunkType));
    assert_eq!(Header::parse(&[0x04], 0), Err(ParseError::UnexpectedEof));
    let kinds = [
        (ResourceType::Null, 0x0000),
        (ResourceType::StringPool, 0x0001),
        (ResourceType::Table, 0x0002),
        (ResourceType::TablePackage, 0x0200),
        (ResourceType::TableType, 0x0201),
        (ResourceType::TableTypeSpec, 0x0202),
        (ResourceType::TableLibrary, 0x0203),
    ];
    for (kind, code) in kinds {
        assert_eq!(kind.code(), code);
        assert_eq!(ResourceType::from_code(code), Some(kind));
    }
    assert_eq!(ResourceType::from_code(3), None);
    assert_eq!(ResourceType::from_code(0x0204), None);
}

#[test]
fn fixed_header_sizes() {
    let pool = pool_of(0, vec![]);
    assert_eq!(pool.get_header_size(), 0x1C);
    assert_eq!(
        pool.header(),
        Header { resource_type: ResourceType::StringPool, header_size: 0x1C, size: 28 }
    );
    let specs = Specs { type_id: 1, res0: 0, res1: 0, specs: vec![Spec::new(1, 0)] };
    assert_eq!(specs.get_header_size(), 0x10);
    assert_eq!(specs.header().size, 20);
    let config = Config {
        type_id: 1,
        res0: 0,
        res1: 0,
        entry_count: 0,
        id: vec![4, 0, 0, 0],
        resources: BTreeMap::new(),
    };
    assert_eq!(config.get_header_size(), 0x54);
    assert_eq!(config.header().resource_type, ResourceType::TableType);
    let table = Arsc { packages: vec![], global_string_pool: pool };
    assert_eq!(table.get_header_size(), 0x0C);
    assert_eq!(table.header().size, 40);
}

#[test]
fn model_helpers() {
    assert!(pool_of(0x100, vec![]).use_utf8());
    assert!(pool_of(0x101, vec![]).use_utf8());
    assert!(!pool_of(0x001, vec![]).use_utf8());
    assert_eq!(Type::with_id(7), Type { id: 7, specs: None, configs: vec![] });
    assert_eq!(Spec::new(9, 3), Spec { flags: 9, id: 3, name_index: 0 });
    assert_eq!(Spec::new(9, 3).size(), 4);
    let mut specs = Specs { type_id: 1, res0: 0, res1: 0, specs: vec![Spec::new(1, 0), Spec::new(2, 1)] };
    specs.set_name_index(1, 42);
    assert_eq!(specs.specs, vec![Spec::new(1, 0), Spec { flags: 2, id: 1, name_index: 42 }]);
    let value = Value { size: 8, zero: 0, data_type: 3, data_index: 0 };
    assert!(value.is_string());
    assert!(Value { data_type: 1, ..value }.is_string());
    assert!(!Value { data_type: 0x10, ..value }.is_string());
    assert_eq!(value.size(), Some(8));
    let entry = ResourceEntry { flags: 2, spec_id: 0, name_index: 0, value: ResourceValue::Plain(value) };
    assert!(!entry.is_bag());
    assert_eq!(entry.size(), Some(16));
    // flags that announce a bag over a plain value do not fit the format
    assert_eq!(ResourceEntry { flags: 1, ..entry }.size(), None);
}

#[test]
fn value_and_spec_bytes() {
    let value = Value { size: 8, zero: 0, data_type: 0x10, data_index: 0x0102_0304 };
    let mut bytes = Vec::new();
    assert_eq!(value.write(&mut bytes), 8);
    assert_eq!(bytes, vec![8, 0, 0, 0x10, 4, 3, 2, 1]);
    assert_eq!(Value::parse(&bytes, 0), Ok((value, 8)));
    assert_eq!(Value::parse(&bytes, 1), Err(ParseError::UnexpectedEof));
    let mut flags = Vec::new();
    assert_eq!(Spec::new(0x4000_0004, 0).write(&mut flags), 4);
    assert_eq!(flags, vec![4, 0, 0, 0x40]);
    let specs = Specs { type_id: 2, res0: 7, res1: 0x0908, specs: vec![Spec::new(5, 0), Spec::new(6, 1)] };
    let mut chunk = Vec::new();
    assert_eq!(specs.write(&mut chunk), 24);
    assert_eq!(
        chunk,
        vec![
            0x02, 0x02, 0x10, 0x00, 0x18, 0x00, 0x00, 0x00, 2, 7, 8, 9, 2, 0, 0, 0, 5, 0, 0, 0, 6,
            0, 0, 0
        ]
    );
    let header = Header::parse(&chunk, 0).unwrap();
    assert_eq!(Specs::parse(&chunk, 0, header), Ok((specs, 24)));
}

#[test]
fn parser_keeps_its_place() {
    let pool = pool_of(0x100, vec!["hi".to_string()]);
    let mut bytes = vec![7, 0, 0, 0];
    pool.write(&mut bytes);
    let mut parser = Parser::new(&bytes);
    assert_eq!(parser.position, 0);
    assert_eq!(parser.read_u32(), Ok(7));
    assert_eq!(parser.parse_string_pool(), Ok(pool));
    assert_eq!(parser.position, 44);
    assert_eq!(parser.read_u8(), Err(ParseError::UnexpectedEof));
    assert_eq!(parser.position, 44);
    parser.position = 0;
    assert_eq!(parser.read_u16(), Ok(7));
    assert_eq!(parser.read_i32(), Ok(0x0001_0000));
    assert_eq!(parser.parse_string_pool(), Err(ParseError::UnknownChunkType));
    assert_eq!(parser.position, 6);
    assert_eq!(parser.parse(), Err(ParseError::UnknownChunkType));
    assert_eq!(parser.position, 0);
}

#[test]
fn parser_reads_chunks_behind_their_tags() {
    let specs = Specs { type_id: 1, res0: 0, res1: 0, specs: vec![Spec::new(3, 0)] };
    let mut config = Config {
        type_id: 1,
        res0: 0,
        res1: 0,
        entry_count: 1,
        id: vec![4, 0, 0, 0],
        resources: BTreeMap::new(),
    };
    config.resources.insert(
        0,
        ResourceEntry {
            flags: 0,
            spec_id: 0,
            name_index: 6,
            value: ResourceValue::Plain(Value { size: 8, zero: 0, data_type: 1, data_index: 2 }),
        },
    );
    let mut bytes = Vec::new();
    specs.write(&mut bytes);
    let mut short = config.clone();
    short.id = vec![0u8; 64];
    short.id[0] = 64;
    short.write(&mut bytes);
    let mut types = vec![Type::with_id(1)];
    let mut parser = Parser::new(&bytes);
    let header = Header::parse(&bytes, 0).unwrap();
    assert_eq!(parser.parse_specs(header, &mut types), Err(ParseError::UnexpectedEof));
    parser.position = 8;
    assert_eq!(parser.parse_specs(header, &mut types), Ok(()));
    assert_eq!(parser.position, 20);
    assert_eq!(types[0].specs, Some(specs));
    parser.position = 28;
    let header = Header::parse(&bytes, 20).unwrap();
    assert_eq!(parser.parse_config(header, &mut types), Ok(()));
    assert_eq!(parser.position, bytes.len());
    assert_eq!(types[0].configs, vec![short]);
    parser.position = 40;
    assert_eq!(parser.parse_config_id(), Ok(types[0].configs[0].id.clone()));
    assert_eq!(parser.position, 104);
    let resources = parser.parse_config_resources(1).unwrap();
    assert_eq!(resources, types[0].configs[0].resources);
    assert_eq!(parser.position, bytes.len());
    parser.position = 108;
    assert_eq!(parser.parse_res_entry(0), Ok(types[0].configs[0].resources[&0].clone()));
    assert_eq!(parser.parse_res_entry(0), Err(ParseError::UnexpectedEof));
    assert_eq!(parser.parse_config_resources(usize::MAX), Err(ParseError::UnexpectedEof));
    assert_eq!(
        Config::parse_config_resources(&bytes, 104, 1),
        Ok((types[0].configs[0].resources.clone(), bytes.len()))
    );
    assert_eq!(Config::parse_config_resources(&bytes, 104, 6), Err(ParseError::UnexpectedEof));
    assert_eq!(Config::parse_config_resources(&bytes, 200, 0), Err(ParseError::UnexpectedEof));
    assert_eq!(Config::parse_config_resources(&bytes, 124, 0), Ok((BTreeMap::new(), 124)));
    parser.position = 3;
    assert_eq!(parser.parse_config(header, &mut types), Err(ParseError::UnexpectedEof));
}

#[test]
fn writer_counts_what_it_writes() {
    let table = Arsc { packages: vec![], global_string_pool: pool_of(0, vec![]) };
    let mut writer = Writer::new(vec![1, 2]);
    assert_eq!(writer.position(), 0);
    assert_eq!(writer.write(&table), Ok(40));
    assert_eq!(writer.position(), 40);
    assert_eq!(writer.write(&table), Ok(80));
    let bytes = writer.into_inner();
    assert_eq!(bytes.len(), 82);
    assert_eq!(&bytes[2..42], &bytes[42..82]);
    let mut refused = Writer::new(vec![]);
    let broken = Arsc {
        packages: vec![],
        global_string_pool: pool_of(0x100, vec!["a".repeat(0x8000)]),
    };
    assert_eq!(refused.write(&broken), Err(WriteError::NotRepresentable));
    assert_eq!(refused.position(), 0);
    assert!(refused.into_inner().is_empty());
    let mut output = Vec::new();
    assert_eq!(arsc::writer::write(&table, &mut output), Ok(40));
    assert_eq!(arsc::parser::parse(&output), Ok(table));
}
