use cbx::cbor_parser::{CborParser, ParsedCbor};
use cbx::cbor_tree::{value_to_key_string, CborNode, CborType, PathSegment};
use cbx::CborValue;

fn parse(bytes: &[u8]) -> ParsedCbor {
    let mut p = CborParser::new(bytes);
    p.parse().expect("the bytes hold a CBOR item")
}

fn node(bytes: &[u8]) -> CborNode {
    let item = parse(bytes);
    assert!(item.is_buildable(0));
    item.to_node(None, 0, Vec::new())
}

#[test]
fn integer_node_shows_decimal() {
    let n = node(&[0x18, 0x64]);
    assert_eq!(n.value_type, CborType::Integer);
    assert_eq!(n.value_preview, "100");
    assert_eq!(n.full_value, "100");
    assert!(!n.expanded);
    assert_eq!(n.range, 0..2);
    assert_eq!(n.path.len(), 1);
    assert_eq!(n.path[0].name, "root");
    assert_eq!(n.path[0].depth, 0);
}

#[test]
fn negative_integer_node() {
    let n = node(&[0x20]);
    assert_eq!(n.value_preview, "-1");
}

#[test]
fn array_of_integers_lists_them_in_hex() {
    let n = node(&[0x82, 0x01, 0x18, 0xFF]);
    assert_eq!(n.value_type, CborType::Array);
    assert_eq!(n.value_preview, "[2 items]");
    assert_eq!(n.full_value, "[0x1, 0xFF]");
    assert!(n.expanded);
    assert_eq!(n.children.len(), 2);
    assert_eq!(n.children[0].key.as_deref(), Some("[0]"));
    assert_eq!(n.children[1].key.as_deref(), Some("[1]"));
    assert_eq!(n.children[1].value_preview, "255");
    assert_eq!(n.children[1].depth, 1);
    assert_eq!(n.children[1].range, 2..4);
    assert_eq!(n.children[1].path[1].name, "[1]");
    assert_eq!(n.children[1].path[1].depth, 1);
}

#[test]
fn negative_integers_show_their_bit_pattern() {
    let n = node(&[0x81, 0x20]);
    assert_eq!(n.full_value, "[0xFFFFFFFFFFFFFFFFFFFFFFFFFFFFFFFF]");
}

#[test]
fn mixed_array_is_summarised() {
    let n = node(&[0x82, 0x01, 0x61, 0x61]);
    assert_eq!(n.full_value, "Array with 2 items");
}

#[test]
fn long_integer_list_is_cut() {
    let mut bytes = vec![0x98, 0x64];
    for _ in 0..100 {
        bytes.extend_from_slice(&[0x18, 0xAB]);
    }
    let n = node(&bytes);
    assert!(n.full_value.ends_with("...]"));
    // "[" then 0xAB repeated with ", " between: 6 characters each after the first
    let shown = n.full_value.matches("0xAB").count();
    assert_eq!(shown, 22);
}

#[test]
fn map_entries_are_keyed_and_cover_their_key() {
    // {"a": 1}
    let n = node(&[0xA1, 0x61, 0x61, 0x01]);
    assert_eq!(n.value_type, CborType::Mapping);
    assert_eq!(n.value_preview, "{1 entries}");
    assert_eq!(n.full_value, "Map with 1 entries");
    assert_eq!(n.children.len(), 1);
    let c = &n.children[0];
    assert_eq!(c.key.as_deref(), Some("a"));
    assert_eq!(c.range, 1..4);
    assert_eq!(c.value_preview, "1");
    assert_eq!(c.path.len(), 2);
    assert_eq!(c.path[1].name, "a");
}

#[test]
fn map_keys_of_other_kinds() {
    // {1: true, h'0aff': null, [] : 0}
    let n = node(&[0xA3, 0x01, 0xF5, 0x42, 0x0A, 0xFF, 0xF6, 0x80, 0x00]);
    assert_eq!(n.children[0].key.as_deref(), Some("1"));
    assert_eq!(n.children[0].value_preview, "true");
    assert_eq!(n.children[1].key.as_deref(), Some("0x0aff"));
    assert_eq!(n.children[1].value_preview, "null");
    assert_eq!(n.children[2].key.as_deref(), Some("?"));
}

#[test]
fn nodes_below_level_two_start_closed() {
    // [[[1]]]
    let n = node(&[0x81, 0x81, 0x81, 0x01]);
    assert!(n.expanded);
    assert!(n.children[0].expanded);
    assert!(!n.children[0].children[0].expanded);
}

#[test]
fn tag_node_holds_its_item_as_root() {
    // 1(2)
    let n = node(&[0xC1, 0x02]);
    assert_eq!(n.value_type, CborType::Tag);
    assert_eq!(n.value_preview, "tag(1)");
    assert_eq!(n.full_value, "Tag 1");
    assert!(n.expanded);
    assert_eq!(n.children.len(), 1);
    assert_eq!(n.children[0].key, None);
    assert_eq!(n.children[0].path[1].name, "root");
}

#[test]
fn short_text_is_quoted() {
    let n = node(&[0x63, b'a', b'b', b'c']);
    assert_eq!(n.value_type, CborType::TextString);
    assert_eq!(n.value_preview, "\"abc\"");
    assert_eq!(n.full_value, "abc");
}

#[test]
fn long_text_preview_is_cut_at_37_bytes() {
    let text = "x".repeat(50);
    let mut bytes = vec![0x78, 50];
    bytes.extend_from_slice(text.as_bytes());
    let n = node(&bytes);
    assert_eq!(n.value_preview, format!("\"{}...\" (50 chars)", "x".repeat(37)));
    assert_eq!(n.full_value, text);
}

#[test]
fn very_long_text_is_cut_at_a_character_boundary() {
    // 127 ASCII bytes, then a two-byte character straddling byte 128
    let mut text = "y".repeat(127);
    text.push('é');
    text.push_str("zz");
    let mut bytes = vec![0x78, text.len() as u8];
    bytes.extend_from_slice(text.as_bytes());
    let n = node(&bytes);
    assert_eq!(n.full_value, format!("{}...", "y".repeat(127)));
}

#[test]
fn text_not_cuttable_at_37_cannot_be_shown() {
    // 36 ASCII bytes, then a two-byte character over bytes 36 and 37
    let mut text = "w".repeat(36);
    text.push('é');
    text.push_str(&"w".repeat(10));
    let mut bytes = vec![0x78, text.len() as u8];
    bytes.extend_from_slice(text.as_bytes());
    let item = parse(&bytes);
    assert!(!item.is_buildable(0));
}

#[test]
fn short_byte_string_is_dumped() {
    let n = node(&[0x43, 0x00, 0x0A, 0xFF]);
    assert_eq!(n.value_type, CborType::ByteString);
    assert_eq!(n.value_preview, "00 0a ff");
    assert_eq!(n.full_value, "00 0a ff");
}

#[test]
fn longer_byte_string_preview_shows_eight_bytes() {
    let mut bytes = vec![0x54];
    bytes.extend((0u8..20).collect::<Vec<u8>>());
    let n = node(&bytes);
    assert_eq!(n.value_preview, "00 01 02 03 04 05 06 07 ... (20 bytes)");
    assert_eq!(n.full_value.len(), 20 * 3 - 1);
}

#[test]
fn huge_byte_string_dump_is_cut_after_43_bytes() {
    let mut bytes = vec![0x58, 50];
    bytes.extend(vec![0x11u8; 50]);
    let n = node(&bytes);
    assert_eq!(n.full_value, format!("{}...", vec!["11"; 43].join(" ")));
}

#[test]
fn float_shows_six_decimals_and_shortest_form() {
    // 1.5 as a half-precision float
    let n = node(&[0xF9, 0x3E, 0x00]);
    assert_eq!(n.value_type, CborType::Float);
    assert_eq!(n.value_preview, "1.500000");
    assert_eq!(n.full_value, "1.5");
}

#[test]
fn parsed_value_is_decoded() {
    let item = parse(&[0x82, 0x01, 0x02]);
    match &item.value {
        CborValue::Array(a) => assert_eq!(a.len(), 2),
        _ => panic!("an array"),
    }
    assert_eq!(item.children.len(), 2);
    assert_eq!(item.children[1].range, 2..3);
}

#[test]
fn key_strings() {
    assert_eq!(value_to_key_string(&CborValue::Text("k".to_string())), "k");
    assert_eq!(value_to_key_string(&CborValue::Integer(-42)), "-42");
    assert_eq!(value_to_key_string(&CborValue::Bytes(vec![0x0a, 0xff])), "0x0aff");
    assert_eq!(value_to_key_string(&CborValue::Bool(true)), "?");
}

#[test]
fn type_names() {
    assert_eq!(CborType::Mapping.name(), "map");
    assert_eq!(CborType::ByteString.name(), "bytes");
    assert_eq!(CborType::Integer.name(), "int");
}

#[test]
fn child_path_extends_parent_path() {
    let item = parse(&[0x01]);
    let parent = vec![PathSegment { name: "root".to_string(), depth: 0 }];
    let n = item.to_node(Some("k".to_string()), 1, parent);
    assert_eq!(n.path.len(), 2);
    assert_eq!(n.path[1].name, "k");
    assert_eq!(n.depth, 1);
}
