use kernel_core::kallsyms::decoder::{decode_symbol_name, SymbolIterator, TokenTable};
use kernel_core::kallsyms::SymbolType;

/// A token table of 256 single-character tokens (printable ASCII for
/// itself, `?` otherwise) followed by its index.
fn create_mock_token_data() -> Vec<u8> {
    let mut token_table = Vec::new();
    let mut token_index = Vec::new();

    for i in 0u8..=255 {
        token_index.extend_from_slice(&(token_table.len() as u16).to_le_bytes());
        if i >= 32 && i < 127 {
            token_table.push(i);
        } else {
            token_table.push(b'?');
        }
        token_table.push(0);
    }

    let mut data = token_table;
    data.extend_from_slice(&token_index);
    data
}

#[test]
fn test_token_table_parse() {
    let data = create_mock_token_data();
    let table_offset = 0;
    let index_offset = 512;

    let result = TokenTable::parse(&data, table_offset, index_offset);
    assert!(result.is_ok());

    let table = result.unwrap();
    assert_eq!(table.len(), 256);
}

#[test]
fn test_token_table_expand_simple() {
    let data = create_mock_token_data();
    let table = TokenTable::parse(&data, 0, 512).unwrap();

    let mut output = String::new();
    let result = table.expand(65, &mut output, 0);
    assert!(result.is_ok());
    assert_eq!(output, "A");
}

#[test]
fn test_token_table_expand_multiple() {
    let data = create_mock_token_data();
    let table = TokenTable::parse(&data, 0, 512).unwrap();

    let mut output = String::new();
    table.expand(72, &mut output, 0).unwrap();
    table.expand(101, &mut output, 0).unwrap();
    table.expand(108, &mut output, 0).unwrap();
    table.expand(108, &mut output, 0).unwrap();
    table.expand(111, &mut output, 0).unwrap();

    assert_eq!(output, "Hello");
}

#[test]
fn test_token_table_expand_recursive() {
    let mut data = vec![0u8; 2048];
    let table_offset = 0;
    let index_offset = 1024;

    let mut current_table_ptr = 0;
    for i in 0..256 {
        let start = current_table_ptr;
        data[start] = i as u8;
        data[start + 1] = 0;
        current_table_ptr += 2;
        data[index_offset + i * 2..index_offset + i * 2 + 2]
            .copy_from_slice(&(start as u16).to_le_bytes());
    }

    let off201 = current_table_ptr;
    data[off201..off201 + 4].copy_from_slice(&[70, 111, 111, 0]);
    current_table_ptr += 4;
    data[index_offset + 201 * 2..index_offset + 201 * 2 + 2]
        .copy_from_slice(&(off201 as u16).to_le_bytes());

    let off202 = current_table_ptr;
    data[off202..off202 + 4].copy_from_slice(&[66, 97, 114, 0]);
    current_table_ptr += 4;
    data[index_offset + 202 * 2..index_offset + 202 * 2 + 2]
        .copy_from_slice(&(off202 as u16).to_le_bytes());

    let off200 = current_table_ptr;
    data[off200..off200 + 3].copy_from_slice(&[201, 202, 0]);
    data[index_offset + 200 * 2..index_offset + 200 * 2 + 2]
        .copy_from_slice(&(off200 as u16).to_le_bytes());

    let table = TokenTable::parse(&data, table_offset, index_offset).unwrap();
    let mut output = String::new();
    table.expand(200, &mut output, 0).unwrap();

    assert_eq!(output, "FooBar");
}

#[test]
fn test_decode_symbol_name_zero_length() {
    let mut data = create_mock_token_data();
    let names_offset = data.len();
    data.push(0);

    let table = TokenTable::parse(&data, 0, 512).unwrap();
    let result = decode_symbol_name(&data, names_offset, 0, &table);
    assert!(result.is_err());

    let err = result.unwrap_err();
    assert!(err.message().contains("zero-length") || err.message().contains("InvalidSymbolName"));
}

#[test]
fn test_decode_symbol_name_eof() {
    let mut data = create_mock_token_data();
    let names_offset = data.len();
    data.push(10);
    data.extend_from_slice(&[65, 66, 67]);

    let table = TokenTable::parse(&data, 0, 512).unwrap();
    let result = decode_symbol_name(&data, names_offset, 0, &table);
    assert!(result.is_err());
}

#[test]
fn test_decode_symbol_name_valid() {
    let mut data = create_mock_token_data();
    let names_offset = data.len();
    data.push(4);
    data.push(84);
    data.push(102);
    data.push(111);
    data.push(111);

    let table = TokenTable::parse(&data, 0, 512).unwrap();
    let result = decode_symbol_name(&data, names_offset, 0, &table);
    assert!(result.is_ok());

    let (name, sym_type) = result.unwrap();
    assert_eq!(name, "foo");
    assert_eq!(sym_type, SymbolType::Text);
}

#[test]
fn test_symbol_iterator_empty() {
    let data = create_mock_token_data();
    let table = TokenTable::parse(&data, 0, 512).unwrap();

    let addresses: Vec<u64> = vec![];
    let names_offset = data.len();

    let mut iter = SymbolIterator::new(&data, &addresses, names_offset, &table);
    assert!(iter.next().is_none());
}

#[test]
fn test_symbol_iterator_single_symbol() {
    let mut data = create_mock_token_data();
    let names_offset = data.len();
    data.push(3);
    data.push(84);
    data.push(97);
    data.push(98);

    let table = TokenTable::parse(&data, 0, 512).unwrap();
    let addresses = vec![0xFFFF_8000_1000_0000u64];

    let mut iter = SymbolIterator::new(&data, &addresses, names_offset, &table);

    let sym = iter.next();
    assert!(sym.is_some());

    let sym = sym.unwrap();
    assert_eq!(sym.address, 0xFFFF_8000_1000_0000);
    assert_eq!(sym.name, "ab");
    assert_eq!(sym.sym_type, SymbolType::Text);

    assert!(iter.next().is_none());
}

#[test]
fn test_symbol_iterator_skips_zero_length() {
    let mut data = create_mock_token_data();
    let names_offset = data.len();

    data.push(0);

    data.push(2);
    data.push(84);
    data.push(120);

    let table = TokenTable::parse(&data, 0, 512).unwrap();
    let addresses = vec![0x1000, 0x2000];

    let mut iter = SymbolIterator::new(&data, &addresses, names_offset, &table);

    let sym = iter.next();
    assert!(sym.is_some());
    let sym = sym.unwrap();
    assert_eq!(sym.address, 0x2000);
    assert_eq!(sym.name, "x");
}

#[test]
fn test_symbol_iterator_multiple_symbols() {
    let mut data = create_mock_token_data();
    let names_offset = data.len();

    data.push(2);
    data.push(84);
    data.push(97);

    data.push(2);
    data.push(68);
    data.push(98);

    data.push(2);
    data.push(82);
    data.push(99);

    let table = TokenTable::parse(&data, 0, 512).unwrap();
    let addresses = vec![0x1000, 0x2000, 0x3000];

    let mut iter = SymbolIterator::new(&data, &addresses, names_offset, &table);
    let symbols: Vec<_> = iter.collect_remaining();

    assert_eq!(symbols.len(), 3);
    assert_eq!(symbols[0].name, "a");
    assert_eq!(symbols[1].name, "b");
    assert_eq!(symbols[2].name, "c");
    assert_eq!(symbols[0].sym_type, SymbolType::Text);
    assert_eq!(symbols[1].sym_type, SymbolType::Data);
    assert_eq!(symbols[2].sym_type, SymbolType::Rodata);
}

#[test]
fn test_symbol_iterator_calculates_size() {
    let mut data = create_mock_token_data();
    let names_offset = data.len();

    data.push(2);
    data.push(84);
    data.push(97);
    data.push(2);
    data.push(84);
    data.push(98);

    let table = TokenTable::parse(&data, 0, 512).unwrap();
    let addresses = vec![0x1000, 0x1100];

    let mut iter = SymbolIterator::new(&data, &addresses, names_offset, &table);
    let symbols: Vec<_> = iter.collect_remaining();

    assert_eq!(symbols.len(), 2);
    assert_eq!(symbols[0].size, Some(0x100));
    assert_eq!(symbols[1].size, None);
}

#[test]
fn decode_second_symbol_seeks_past_first() {
    let mut data = create_mock_token_data();
    let names_offset = data.len();
    data.extend_from_slice(&[2, 84, 97]);
    data.extend_from_slice(&[3, 100, 120, 121]);
    let table = TokenTable::parse(&data, 0, 512).unwrap();
    let (name, ty) = decode_symbol_name(&data, names_offset, 1, &table).unwrap();
    assert_eq!(name, "xy");
    assert_eq!(ty, SymbolType::DataLocal);
}

#[test]
fn token_index_past_end_is_reported() {
    let data = create_mock_token_data();
    // The index would start past the data.
    let result = TokenTable::parse(&data, 0, 1000);
    assert!(result.is_err());
    assert_eq!(
        result.err().unwrap().message(),
        "Kallsyms not found: Unexpected end of data at offset 0x3e8, needed 2 bytes"
    );
}

#[test]
fn symbol_walk_skips_indices_and_stays_exhausted() {
    let mut data = create_mock_token_data();
    let names_offset = data.len();

    data.push(2);
    data.push(84);
    data.push(97);
    data.push(0);
    data.push(2);
    data.push(84);
    data.push(98);
    // A truncated record ends the walk.
    data.push(9);
    data.push(84);

    let table = TokenTable::parse(&data, 0, 512).unwrap();
    let addresses = vec![0x1000, 0x1800, 0x2000, 0x2400];

    let mut iter = SymbolIterator::new(&data, &addresses, names_offset, &table);
    let first = iter.next().unwrap();
    assert_eq!((first.address, first.name.as_str(), first.size), (0x1000, "a", Some(0x800)));
    let second = iter.next().unwrap();
    assert_eq!((second.address, second.name.as_str(), second.size), (0x2000, "b", Some(0x400)));
    assert!(iter.next().is_none());
    assert!(iter.next().is_none());
    assert!(iter.collect_remaining().is_empty());
}
