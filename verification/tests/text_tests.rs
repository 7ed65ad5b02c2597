use cbx::config::{resolve_key, KeyAction};
use cbx::input::{KeyCode, KeyEvent, KeyModifiers, Rect};
use cbx::size::{parse_size, try_parse_size};
use cbx::text::{int_string, push_hex_byte, push_hex_upper_i128};
use cbx::ui::details::{calculate_popup_position, truncate_string};
use cbx::util::{get_byte_type, get_confidence_level, ByteType};
use cbx::cbor_tree::ConfidenceLevel;
use cbx::ui::mouse_is_inside;

fn key(code: KeyCode) -> KeyEvent {
    KeyEvent { code, modifiers: KeyModifiers::empty() }
}

#[test]
fn decimal_texts() {
    assert_eq!(int_string(0), "0");
    assert_eq!(int_string(-1234), "-1234");
    assert_eq!(int_string(i128::MIN), i128::MIN.to_string());
}

#[test]
fn hex_texts() {
    let mut s = String::new();
    push_hex_byte(&mut s, 0xA7);
    assert_eq!(s, "a7");
    let mut u = String::new();
    push_hex_upper_i128(&mut u, 255);
    assert_eq!(u, "FF");
    let mut v = String::new();
    push_hex_upper_i128(&mut v, -2);
    assert_eq!(v, format!("{:X}", -2i128));
}

#[test]
fn readme_key_bindings() {
    assert_eq!(resolve_key(key(KeyCode::Char('?'))), KeyAction::Help);
    assert_eq!(resolve_key(key(KeyCode::Char('q'))), KeyAction::Quit);
    assert_eq!(resolve_key(key(KeyCode::Tab)), KeyAction::SwitchFocus);
    assert_eq!(resolve_key(key(KeyCode::Char('t'))), KeyAction::ThemeSelect);
    assert_eq!(resolve_key(key(KeyCode::Char('/'))), KeyAction::Search);
    assert_eq!(resolve_key(key(KeyCode::Char('n'))), KeyAction::Next);
    assert_eq!(resolve_key(key(KeyCode::Char('N'))), KeyAction::Prev);
    assert_eq!(resolve_key(key(KeyCode::Char(':'))), KeyAction::Goto);
    assert_eq!(resolve_key(key(KeyCode::Char('m'))), KeyAction::Mode);
    assert_eq!(resolve_key(key(KeyCode::Char('s'))), KeyAction::Sort);
    assert_eq!(resolve_key(key(KeyCode::Char('x'))), KeyAction::ToggleHexInt);
    assert_eq!(resolve_key(key(KeyCode::Char('e'))), KeyAction::ExpandAll);
    assert_eq!(resolve_key(key(KeyCode::Char('c'))), KeyAction::CollapseAll);
    assert_eq!(resolve_key(key(KeyCode::Char('j'))), KeyAction::Down);
    assert_eq!(resolve_key(key(KeyCode::Down)), KeyAction::Down);
    assert_eq!(resolve_key(key(KeyCode::Char('k'))), KeyAction::Up);
    assert_eq!(resolve_key(key(KeyCode::Char('h'))), KeyAction::Left);
    assert_eq!(resolve_key(key(KeyCode::Char('l'))), KeyAction::Right);
    assert_eq!(resolve_key(key(KeyCode::Char('g'))), KeyAction::Top);
    assert_eq!(resolve_key(key(KeyCode::Home)), KeyAction::Top);
    assert_eq!(resolve_key(key(KeyCode::Char('G'))), KeyAction::Bottom);
    assert_eq!(resolve_key(key(KeyCode::End)), KeyAction::Bottom);
    assert_eq!(resolve_key(key(KeyCode::Char('z'))), KeyAction::Zoom);
    assert_eq!(resolve_key(key(KeyCode::Char(' '))), KeyAction::Expand);
}

#[test]
fn earlier_bindings_win() {
    // Enter and Right are bound to Expand too, but earlier bindings take them.
    assert_eq!(resolve_key(key(KeyCode::Enter)), KeyAction::Enter);
    assert_eq!(resolve_key(key(KeyCode::Right)), KeyAction::Right);
    assert_eq!(resolve_key(key(KeyCode::Esc)), KeyAction::Esc);
    assert_eq!(resolve_key(key(KeyCode::Backspace)), KeyAction::Backspace);
    assert_eq!(resolve_key(key(KeyCode::Char('a'))), KeyAction::Char('a'));
    assert_eq!(resolve_key(key(KeyCode::F(3))), KeyAction::NoAction);
}

#[test]
fn modifier_sets() {
    let mut m = KeyModifiers::empty();
    m.insert(KeyModifiers::shift());
    m.insert(KeyModifiers::control());
    assert!(m.contains(KeyModifiers::shift()));
    assert!(m.contains(KeyModifiers::control()));
    assert!(!m.contains(KeyModifiers::alt()));
}

#[test]
fn byte_types() {
    assert_eq!(get_byte_type(0), ByteType::Null);
    assert_eq!(get_byte_type(b'a'), ByteType::AsciiPrintable);
    assert_eq!(get_byte_type(b' '), ByteType::AsciiPrintable);
    assert_eq!(get_byte_type(b'\n'), ByteType::AsciiWhitespace);
    assert_eq!(get_byte_type(0x7F), ByteType::AsciiOther);
    assert_eq!(get_byte_type(0x80), ByteType::NonAscii);
}

#[test]
fn confidence_levels() {
    assert_eq!(get_confidence_level(500), ConfidenceLevel::Highest);
    assert_eq!(get_confidence_level(499), ConfidenceLevel::High);
    assert_eq!(get_confidence_level(300), ConfidenceLevel::High);
    assert_eq!(get_confidence_level(299), ConfidenceLevel::Low);
    assert_eq!(get_confidence_level(100), ConfidenceLevel::Low);
    assert_eq!(get_confidence_level(99), ConfidenceLevel::Garbage);
}

#[test]
fn sizes() {
    assert_eq!(parse_size("500kb"), 512000);
    assert_eq!(parse_size("10MB"), 10 * 1024 * 1024);
    assert_eq!(parse_size("1gb"), 1024 * 1024 * 1024);
    assert_eq!(parse_size("64b"), 64);
    assert_eq!(parse_size("4096"), 4096);
    assert_eq!(try_parse_size("lots"), None);
    assert_eq!(try_parse_size("kb"), None);
    assert_eq!(try_parse_size("18446744073709551615kb"), None);
    assert_eq!(try_parse_size("+7b"), Some(7));
}

#[test]
fn truncation() {
    assert_eq!(truncate_string("hello world", 8), "hello...");
    assert_eq!(truncate_string("hello", 8), "hello");
    assert_eq!(truncate_string("hello", 2), "he");
}

#[test]
fn popup_in_tree_sits_below_the_cursor() {
    let frame = Rect { x: 0, y: 0, width: 100, height: 40 };
    let parent = Rect { x: 0, y: 0, width: 30, height: 38 };
    let (x, y, w, h) = calculate_popup_position(frame, parent, true, 3, 0, 0, 2);
    assert_eq!((w, h), (50, 10));
    assert_eq!(y, 0 + 1 + 3 + 2);
    assert_eq!(x, 0);
}

#[test]
fn popup_in_hex_view_moves_up_when_low() {
    let frame = Rect { x: 0, y: 0, width: 100, height: 20 };
    let parent = Rect { x: 30, y: 0, width: 70, height: 18 };
    // byte 0x95: row 9, column 5
    let (x, y, w, h) = calculate_popup_position(frame, parent, false, 0, 0, 0x95, 12);
    assert_eq!((w, h), (50, 20));
    assert_eq!(y, (1 + 9) - 20i32.min(10) as u16);
    assert_eq!(x, 100 - 51);
}

#[test]
fn mouse_in_rect() {
    let r = Rect { x: 2, y: 3, width: 4, height: 5 };
    assert!(mouse_is_inside(r, 2, 3));
    assert!(mouse_is_inside(r, 5, 7));
    assert!(!mouse_is_inside(r, 6, 3));
    assert!(!mouse_is_inside(r, 2, 8));
}

#[test]
fn trimming_removes_unicode_white_space_only() {
    assert_eq!(cbx::search::trim_text("\u{3000} ab\u{a0}\t\u{2029}"), "ab");
    assert_eq!(cbx::search::trim_text("\u{85}a b\u{202f}"), "a b");
    assert_eq!(cbx::search::trim_text("\u{200b}ab"), "\u{200b}ab");
}

#[test]
fn trimming_agrees_with_std_on_every_character() {
    for u in 0u32..0x3100 {
        if let Some(c) = char::from_u32(u) {
            let s = format!("{c}x{c}");
            assert_eq!(cbx::search::trim_text(&s), s.trim(), "U+{u:04X}");
        }
    }
}
