use cbx::cbor_tree::ConfidenceLevel;
use cbx::theme::Color;
use cbx::util::{get_confidence_appearance, get_confidence_level, ConfidenceColors};
use cbx::cbor_parser::CborParser;
use cbx::display::{depth_color_index, value_display};

fn node(bytes: &[u8]) -> cbx::cbor_tree::CborNode {
    let mut p = CborParser::new(bytes);
    p.parse().unwrap().to_node(None, 0, Vec::new())
}

#[test]
fn depth_colours_walk_backwards() {
    assert_eq!(depth_color_index(0, 8), 7);
    assert_eq!(depth_color_index(1, 8), 6);
    assert_eq!(depth_color_index(7, 8), 0);
    assert_eq!(depth_color_index(8, 8), 7);
    assert_eq!(depth_color_index(0, 3), 0);
}

#[test]
fn integers_in_hex_when_asked() {
    let n = node(&[0x18, 0xFF]);
    assert_eq!(value_display(&n, false, false), "255");
    assert_eq!(value_display(&n, true, false), "0xff");
    let m = node(&[0x20]);
    assert_eq!(value_display(&m, true, true), format!("0x{:x}", -1i128));
}

#[test]
fn tags_keep_their_text() {
    let n = node(&[0xC1, 0x02]);
    assert_eq!(value_display(&n, true, false), "tag(1)");
    assert_eq!(value_display(&n, true, true), "Tag 1");
}

#[test]
fn details_quote_texts() {
    let n = node(&[0x62, b'h', b'i']);
    assert_eq!(value_display(&n, false, true), "\"hi\"");
    assert_eq!(value_display(&n, false, false), "\"hi\"");
}

#[test]
fn confidence_marks() {
    let colors = ConfidenceColors { highest: Color::Green, high: Color::Yellow, low: Color::Gray, garbage: Color::Red };
    assert_eq!(get_confidence_appearance(ConfidenceLevel::Highest, &colors), ("● ".to_string(), Color::Green));
    assert_eq!(get_confidence_appearance(ConfidenceLevel::High, &colors), ("◎ ".to_string(), Color::Yellow));
    assert_eq!(get_confidence_appearance(ConfidenceLevel::Low, &colors), ("○ ".to_string(), Color::Gray));
    assert_eq!(get_confidence_appearance(ConfidenceLevel::Garbage, &colors), ("× ".to_string(), Color::Red));
    assert_eq!(get_confidence_level(500), ConfidenceLevel::Highest);
    assert_eq!(get_confidence_level(499), ConfidenceLevel::High);
    assert_eq!(get_confidence_level(100), ConfidenceLevel::Low);
    assert_eq!(get_confidence_level(99), ConfidenceLevel::Garbage);
}
