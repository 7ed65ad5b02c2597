use cbx::cbor_parser::{CborParser, ParsedCbor};
use cbx::scanner::{CborScanner, ScanMode};
use cbx::CborValue;

#[test]
fn test_scan_embedded_cbor() {
    // Garbage, a map, garbage, an array, garbage; 0xFF never starts an item.
    let mut data = Vec::new();
    data.extend_from_slice(&[0xFF; 10]);
    // {"a": 1}
    let map_bytes = vec![0xA1, 0x61, 0x61, 0x01];
    data.extend_from_slice(&map_bytes);
    data.extend_from_slice(&[0xFF; 5]);
    // [1, 2, 3, 4, 5]
    let array_bytes = vec![0x85, 0x01, 0x02, 0x03, 0x04, 0x05];
    data.extend_from_slice(&array_bytes);
    data.extend_from_slice(&[0xFF]);

    let scanner = CborScanner::new(&data);
    let chunks = scanner.scan_for_cbor_sequences(ScanMode::Auto);

    assert_eq!(chunks.len(), 2, "Should find 2 CBOR chunks");

    // The map scores higher than the array, so it comes first.
    let chunk1 = &chunks[0];
    assert!(chunk1.score > 0);
    assert_eq!(chunk1.items.len(), 1);
    if let CborValue::Mapping(m) = &chunk1.items[0].value {
        assert_eq!(m.len(), 1);
    }

    let chunk2 = &chunks[1];
    assert!(chunk2.score > 0);
    assert_eq!(chunk2.items.len(), 1);
    if let CborValue::Array(a) = &chunk2.items[0].value {
        assert_eq!(a.len(), 5);
    }
}

#[test]
fn test_truncated_data() {
    // A text string of length 5 with only one byte of it present.
    let data = vec![0x65, 0x41];
    let scanner = CborScanner::new(&data);
    let chunks = scanner.scan_for_cbor_sequences(ScanMode::Auto);
    assert_eq!(chunks.len(), 0, "Should not find valid CBOR in truncated data");
}

#[test]
fn test_score_calculation() {
    let mut data = Vec::new();
    // {"a": {"b": {"c": "d"}}}
    let complex_map = vec![
        0xA1, 0x61, 0x61, //
        0xA1, 0x61, 0x62, //
        0xA1, 0x61, 0x63, //
        0x61, 0x64,
    ];
    data.extend_from_slice(&complex_map);

    let scanner = CborScanner::new(&data);
    let chunks = scanner.scan_for_cbor_sequences(ScanMode::Auto);

    assert_eq!(chunks.len(), 1);
    let chunk = &chunks[0];
    assert_eq!(chunk.score, 470, "Score should be exactly 470 for this nested structure");
}

#[test]
fn test_range_offset() {
    let mut data = Vec::new();
    data.extend_from_slice(&[0xFF; 10]);
    // {"a": 1}, four bytes
    let map_bytes = vec![0xA1, 0x61, 0x61, 0x01];
    data.extend_from_slice(&map_bytes);

    let scanner = CborScanner::new(&data);
    let chunks = scanner.scan_for_cbor_sequences(ScanMode::Auto);

    assert_eq!(chunks.len(), 1);
    let chunk = &chunks[0];
    assert_eq!(chunk.offset, 10);
    let item = &chunk.items[0];
    println!("Item range: {:?}", item.range);
    assert_eq!(item.range, 10..14);
}

fn two_equal_maps() -> Vec<u8> {
    // {"a": 1} twice, with garbage before, between and after.
    let mut data = vec![0xFF; 3];
    data.extend_from_slice(&[0xA1, 0x61, 0x61, 0x01]);
    data.extend_from_slice(&[0xFF; 4]);
    data.extend_from_slice(&[0xA1, 0x61, 0x61, 0x01]);
    data.push(0xFF);
    data
}

#[test]
fn equal_scores_keep_the_order_found() {
    let data = two_equal_maps();
    let chunks = CborScanner::new(&data).scan_for_cbor_sequences(ScanMode::Auto);
    assert_eq!(chunks.len(), 2);
    assert_eq!(chunks[0].score, chunks[1].score);
    assert_eq!(chunks[0].offset, 3);
    assert_eq!(chunks[1].offset, 11);
}

#[test]
fn every_found_item_parses_where_it_starts() {
    let data = two_equal_maps();
    let chunks = CborScanner::new(&data).scan_for_cbor_sequences(ScanMode::Auto);
    for c in chunks.iter() {
        assert!(!c.items.is_empty());
        assert_eq!(c.items[0].range.start, c.offset);
        for w in c.items.windows(2) {
            assert_eq!(w[0].range.end, w[1].range.start);
        }
        for it in c.items.iter() {
            let mut p = CborParser::new(&data[it.range.start..]);
            let again = p.parse().unwrap();
            assert_eq!(again.range.end + it.range.start, it.range.end);
        }
    }
}

#[test]
fn single_mode_finds_one_run_at_most() {
    let data = two_equal_maps();
    let chunks = CborScanner::new(&data).scan_for_cbor_sequences(ScanMode::Single);
    assert!(chunks.len() <= 1);
    let chunks = CborScanner::new(&[0x01, 0x02, 0xFF, 0x03]).scan_for_cbor_sequences(ScanMode::Single);
    assert_eq!(chunks.len(), 1);
    assert_eq!(chunks[0].items.len(), 2);
}

#[test]
fn adjusting_moves_every_range() {
    let leaf = ParsedCbor { value: CborValue::Integer(1), range: 7..5, children: Vec::new() };
    let mut item = ParsedCbor { value: CborValue::Array(Vec::new()), range: 4..8, children: vec![leaf] };
    CborScanner::adjust_ranges(&mut item, 10);
    assert_eq!(item.range, 14..18);
    assert_eq!(item.children[0].range, 17..15);
    CborScanner::adjust_ranges(&mut item, 3);
    assert_eq!(item.range, 17..21);
    assert_eq!(item.children[0].range, 20..18);
}

fn score_of(bytes: &[u8]) -> usize {
    let mut p = CborParser::new(bytes);
    let item = p.parse().unwrap();
    CborScanner::new(bytes).calculate_score(&item)
}

#[test]
fn text_keys_score_higher() {
    // {"a": 1} against {1: 1}
    let text_key = score_of(&[0xA1, 0x61, 0x61, 0x01]);
    let int_key = score_of(&[0xA1, 0x01, 0x01]);
    assert!(text_key >= int_key + 80);
}

#[test]
fn more_children_score_higher() {
    let two = score_of(&[0x82, 0x01, 0x02]);
    let three = score_of(&[0x83, 0x01, 0x02, 0x03]);
    assert!(three >= two + 10);
    // one more element deep inside: [[1], 2] against [[1, 1], 2]
    let shallow = score_of(&[0x82, 0x81, 0x01, 0x02]);
    let deeper = score_of(&[0x82, 0x82, 0x01, 0x01, 0x02]);
    assert!(deeper >= shallow + 10);
}

#[test]
fn two_moves_make_one() {
    let bytes = [0x82, 0x81, 0x01, 0x02];
    let mut once = CborParser::new(&bytes).parse().unwrap();
    let mut twice = CborParser::new(&bytes).parse().unwrap();
    CborScanner::adjust_ranges(&mut once, 12);
    CborScanner::adjust_ranges(&mut twice, 5);
    CborScanner::adjust_ranges(&mut twice, 7);
    assert_eq!(once.range, twice.range);
    assert_eq!(once.children[0].range, twice.children[0].range);
    assert_eq!(once.children[0].children[0].range, twice.children[0].children[0].range);
    assert_eq!(once.children[1].range, twice.children[1].range);
    assert_eq!(twice.children[0].children[0].range, 14..15);
}
