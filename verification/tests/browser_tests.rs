use cbx::app::{App, Focus, PopupMode};
use cbx::browser::{key_event_from_name, key_from_name, on_key};
use cbx::config_store::AppConfig;
use cbx::input::KeyCode;

fn app() -> App {
    let mut data = vec![0xFF; 10];
    data.extend_from_slice(&[0xA1, 0x61, 0x61, 0x01]);
    App::new(data, "page.bin".to_string(), AppConfig::default()).unwrap()
}

#[test]
fn special_key_names() {
    assert_eq!(key_from_name("Enter"), Some(KeyCode::Enter));
    assert_eq!(key_from_name("Backspace"), Some(KeyCode::Backspace));
    assert_eq!(key_from_name("ArrowUp"), Some(KeyCode::Up));
    assert_eq!(key_from_name("ArrowDown"), Some(KeyCode::Down));
    assert_eq!(key_from_name("ArrowLeft"), Some(KeyCode::Left));
    assert_eq!(key_from_name("ArrowRight"), Some(KeyCode::Right));
    assert_eq!(key_from_name("Tab"), Some(KeyCode::Tab));
    assert_eq!(key_from_name("Delete"), Some(KeyCode::Delete));
    assert_eq!(key_from_name("Home"), Some(KeyCode::Home));
    assert_eq!(key_from_name("End"), Some(KeyCode::End));
    assert_eq!(key_from_name("PageUp"), Some(KeyCode::PageUp));
    assert_eq!(key_from_name("PageDown"), Some(KeyCode::PageDown));
    assert_eq!(key_from_name("Escape"), Some(KeyCode::Esc));
    assert_eq!(key_from_name(" "), Some(KeyCode::Char(' ')));
}

#[test]
fn one_byte_names_are_typed_characters() {
    assert_eq!(key_from_name("q"), Some(KeyCode::Char('q')));
    assert_eq!(key_from_name("?"), Some(KeyCode::Char('?')));
    assert_eq!(key_from_name("é"), None);
    assert_eq!(key_from_name("Shift"), None);
    assert_eq!(key_from_name(""), None);
}

#[test]
fn held_modifiers_are_recorded() {
    let e = key_event_from_name("c", true, false, false).unwrap();
    assert_eq!(e.code, KeyCode::Char('c'));
    assert_eq!(e.modifiers.bits, 2);
    let e = key_event_from_name("C", true, true, true).unwrap();
    assert_eq!(e.modifiers.bits, 7);
    let e = key_event_from_name("Tab", false, true, false).unwrap();
    assert_eq!(e.modifiers.bits, 4);
    assert!(key_event_from_name("F1", false, false, false).is_none());
}

#[test]
fn page_keys_drive_the_application() {
    let mut a = app();
    assert!(on_key(&mut a, "Tab", false, false, false));
    assert_eq!(a.focus, Focus::Hex);
    assert!(on_key(&mut a, "?", false, false, true));
    assert_eq!(a.popups, PopupMode::Help);
    assert!(on_key(&mut a, "Escape", false, false, false));
    assert_eq!(a.popups, PopupMode::Closed);
    assert!(!on_key(&mut a, "Control", true, false, false));
    assert!(on_key(&mut a, "q", false, false, false));
    assert!(a.should_quit);
}

#[test]
fn control_c_interrupts() {
    let e = key_event_from_name("c", true, false, false).unwrap();
    assert!(e.is_interrupt());
    let e = key_event_from_name("c", false, false, false).unwrap();
    assert!(!e.is_interrupt());
    let e = key_event_from_name("x", true, false, false).unwrap();
    assert!(!e.is_interrupt());
}

use cbx::browser::{draw_cells, write_color, write_cursor_position, TermCell};
use cbx::theme::Color;

fn color_text(c: Color, bg: bool) -> String {
    let mut s = String::new();
    write_color(&mut s, c, bg);
    s
}

#[test]
fn colour_sequences() {
    assert_eq!(color_text(Color::Reset, false), "");
    assert_eq!(color_text(Color::Black, false), "\x1b[30m");
    assert_eq!(color_text(Color::Red, true), "\x1b[41m");
    assert_eq!(color_text(Color::Gray, false), "\x1b[37m");
    assert_eq!(color_text(Color::DarkGray, false), "\x1b[90m");
    assert_eq!(color_text(Color::White, true), "\x1b[107m");
    assert_eq!(color_text(Color::Rgb(26, 27, 138), false), "\x1b[38;2;26;27;138m");
    assert_eq!(color_text(Color::Rgb(0, 255, 7), true), "\x1b[48;2;0;255;7m");
    assert_eq!(color_text(Color::Indexed(162), true), "\x1b[48;5;162m");
}

fn cell(x: u16, y: u16, symbol: &str) -> TermCell {
    TermCell {
        x,
        y,
        symbol: symbol.to_string(),
        fg: Color::Reset,
        bg: Color::Reset,
        bold: false,
        underlined: false,
        reversed: false,
    }
}

#[test]
fn cells_move_the_cursor_only_when_they_skip() {
    let mut c2 = cell(4, 0, "b");
    c2.fg = Color::Blue;
    c2.bold = true;
    let cells = vec![cell(3, 0, "a"), c2, cell(0, 1, "c")];
    let mut s = String::new();
    draw_cells(&mut s, &cells);
    assert_eq!(
        s,
        "\x1b[1;4H\x1b[0ma\x1b[0m\x1b[34m\x1b[1mb\x1b[2;1H\x1b[0mc"
    );
}

#[test]
fn the_first_cell_always_places_the_cursor() {
    let cells = vec![cell(1, 0, "x")];
    let mut s = String::new();
    draw_cells(&mut s, &cells);
    assert_eq!(s, "\x1b[1;2H\x1b[0mx");
    let mut p = String::from(">");
    write_cursor_position(&mut p, 9, 19);
    assert_eq!(p, ">\x1b[20;10H");
}
