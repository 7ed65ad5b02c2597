use cbx::app::{App, Focus, PopupMode, SortMode};
use cbx::config_store::{AppConfig, ConfigStore};
use cbx::input::{KeyCode, KeyEvent, KeyModifiers, MouseButton, MouseEvent, MouseEventKind, Rect};
use cbx::scanner::ScanMode;
use cbx::ui::checks::{can_handle_input, handle_input_checked, handle_mouse_checked};
use cbx::ui::notification::{outlived, Notification, NotificationSeverity};
use cbx::ui::{handle_input, theme};
use cbx::zoom::Zoomable;

fn embedded() -> Vec<u8> {
    let mut data = vec![0xFF; 10];
    data.extend_from_slice(&[0xA1, 0x61, 0x61, 0x01]);
    data.extend_from_slice(&[0xFF; 5]);
    data.extend_from_slice(&[0x85, 0x01, 0x02, 0x03, 0x04, 0x05]);
    data.push(0xFF);
    data
}

fn app() -> App {
    App::new(embedded(), "embedded.bin".to_string(), AppConfig::default()).unwrap()
}

fn key(code: KeyCode) -> KeyEvent {
    KeyEvent { code, modifiers: KeyModifiers::empty() }
}

fn type_text(a: &mut App, text: &str) {
    for c in text.chars() {
        a.enter_char(c);
    }
}

#[test]
fn opening_scans_for_a_single_run() {
    let a = app();
    assert_eq!(a.scan_mode, ScanMode::Single);
    assert_eq!(a.sort_mode, SortMode::Score);
    assert_eq!(a.chunks.len(), 1);
    assert!(a.parse_error.is_none());
    let t = a.tree.as_ref().unwrap();
    assert_eq!(t.key, None);
    assert_eq!(t.value_preview, "{1 entries}");
    assert_eq!(t.range, 10..14);
    assert_eq!(a.theme, "Tokyo Night");
    assert_eq!(a.themes.len(), 10);
    assert_eq!(a.focus, Focus::Tree);
}

#[test]
fn configured_theme_is_used() {
    let config = AppConfig { theme: "Nord".to_string(), show_hex_integers: true };
    let a = App::new(embedded(), "f".to_string(), config).unwrap();
    assert_eq!(a.theme, "Nord");
    assert!(a.show_hex_integers);
}

#[test]
fn opening_garbage_reports_no_data() {
    let a = App::new(vec![0x65, 0x41], "t".to_string(), AppConfig::default()).unwrap();
    assert!(a.tree.is_none());
    assert_eq!(a.parse_error.as_deref(), Some("No valid CBOR data found"));
}

#[test]
fn auto_mode_shows_a_root_over_the_chunks() {
    let mut a = app();
    a.toggle_scan_mode();
    assert_eq!(a.scan_mode, ScanMode::Auto);
    assert_eq!(a.chunks.len(), 2);
    let t = a.tree.as_ref().unwrap();
    assert_eq!(t.key.as_deref(), Some("Found CBOR Data (Mode: Auto, Sorted by Score)"));
    assert_eq!(t.value_preview, "2 chunks found");
    assert_eq!(t.full_value, "Found 2 CBOR data chunks");
    assert_eq!(t.range, 0..26);
    let c = &t.children[0];
    assert!(c.key.as_deref().unwrap().starts_with("Chunk #1 (Score: "));
    assert_eq!(c.value_preview, "offset 0xA, 1 items");
    assert!(c.expanded);
    assert!(!t.children[1].expanded);
    assert_eq!(c.children[0].key.as_deref(), Some("Item 0"));
    assert_eq!(c.children[0].depth, 2);
    assert_eq!(c.children[0].path[1].name, "Chunk #1");
}

#[test]
fn sorting_by_offset() {
    let mut a = app();
    a.toggle_scan_mode();
    a.tree_selected = 3;
    a.toggle_sort();
    assert_eq!(a.sort_mode, SortMode::Offset);
    assert_eq!(a.tree_selected, 0);
    assert_eq!(a.chunks[0].offset, 10);
    assert_eq!(a.chunks[1].offset, 19);
    let t = a.tree.as_ref().unwrap();
    assert_eq!(t.key.as_deref(), Some("Found CBOR Data (Mode: Auto, Sorted by Offset)"));
    assert_eq!(t.children[1].value_preview, "offset 0x13, 1 items");
}

#[test]
fn search_finds_and_selects() {
    let mut a = app();
    a.toggle_scan_mode();
    a.execute_search("MAP WITH", true);
    assert!(a.search_error.is_none());
    assert_eq!(a.focus, Focus::Tree);
    // the first visible node starting where the map starts is the chunk
    assert_eq!(a.tree_selected, 1);
}

#[test]
fn search_reports_nothing_found() {
    let mut a = app();
    a.execute_search("zzz", true);
    assert_eq!(a.search_error.as_deref(), Some("'zzz' not found"));
}

#[test]
fn search_backward_wraps_round() {
    let mut a = app();
    a.toggle_scan_mode();
    a.execute_search("item 0", false);
    assert!(a.search_error.is_none());
    let sel = a.get_selected_node().unwrap();
    assert!(sel.range.start == 10 || sel.range.start == 19);
}

#[test]
fn submitted_search_is_remembered() {
    let mut a = app();
    a.open_search();
    type_text(&mut a, "entries");
    a.submit_input();
    assert_eq!(a.last_search_query.as_deref(), Some("entries"));
    assert_eq!(a.popups, PopupMode::Closed);
    a.find_next();
    assert!(a.search_error.is_none());
}

#[test]
fn goto_moves_the_hex_cursor_and_the_tree() {
    let mut a = app();
    a.toggle_scan_mode();
    a.open_goto();
    type_text(&mut a, " 0xB ");
    a.submit_input();
    assert_eq!(a.popups, PopupMode::Closed);
    assert_eq!(a.focus, Focus::Hex);
    assert_eq!(a.hex_selected, 11);
    let sel = a.get_selected_node().unwrap();
    assert_eq!(sel.key.as_deref(), Some("a"));
    assert_eq!(sel.range, 11..14);
}

#[test]
fn goto_decimal() {
    let mut a = app();
    a.open_goto();
    type_text(&mut a, "+12");
    a.submit_input();
    assert_eq!(a.hex_selected, 12);
}

#[test]
fn goto_errors() {
    let mut a = app();
    a.open_goto();
    type_text(&mut a, "zz");
    a.submit_input();
    assert_eq!(a.search_error.as_deref(), Some("Invalid number"));
    assert_eq!(a.popups, PopupMode::GotoOffset);
    a.open_goto();
    type_text(&mut a, "999");
    a.submit_input();
    assert_eq!(a.search_error.as_deref(), Some("Offset out of bounds"));
    a.open_goto();
    a.submit_input();
    assert_eq!(a.popups, PopupMode::Closed);
}

#[test]
fn editing_the_input() {
    let mut a = app();
    a.open_search();
    type_text(&mut a, "ab");
    assert_eq!(a.search_cursor_position, 2);
    a.move_cursor_left();
    a.delete_char();
    assert_eq!(a.search_input, "b");
    assert_eq!(a.search_cursor_position, 0);
    a.move_cursor_right();
    a.enter_char('c');
    assert_eq!(a.search_input, "bc");
    a.close_popup();
    a.enter_char('x');
    assert_eq!(a.search_input, "bc");
}

#[test]
fn zooming_in_and_out() {
    let mut a = app();
    a.hex_selected = 15;
    a.zoom_in();
    assert!(a.is_zoomed);
    assert_eq!(a.chunks.len(), 1);
    assert_eq!(a.chunks[0].offset, 19);
    assert_eq!(a.chunks[0].items[0].range, 19..25);
    assert_eq!(a.hex_selected, 19);
    let n = a.notification.as_ref().unwrap();
    assert_eq!(n.message, "Zoomed in at offset 0x13 (skipped 4 bytes of garbage)");
    assert_eq!(n.severity, NotificationSeverity::Warning);
    a.zoom_toggle();
    assert!(!a.is_zoomed);
    assert_eq!(a.scan_mode, ScanMode::Auto);
    assert_eq!(a.chunks.len(), 2);
    assert_eq!(a.notification.as_ref().unwrap().message, "Zoomed out to full file");
}

#[test]
fn zooming_in_where_nothing_follows() {
    let mut a = app();
    a.hex_selected = 25;
    a.zoom_in();
    assert!(!a.is_zoomed);
    let n = a.notification.as_ref().unwrap();
    assert_eq!(n.message, "No valid CBOR sequence found starting from cursor");
    assert_eq!(n.severity, NotificationSeverity::Error);
}

#[test]
fn theme_dialog_previews_and_cancels() {
    let mut a = app();
    theme::open(&mut a);
    assert_eq!(a.popups, PopupMode::ThemeSelect);
    assert_eq!(a.theme_index, 0);
    handle_input(&mut a, key(KeyCode::Down));
    assert_eq!(a.theme, "Dracula");
    handle_input(&mut a, key(KeyCode::Esc));
    assert_eq!(a.theme, "Tokyo Night");
    assert_eq!(a.popups, PopupMode::Closed);
}

#[test]
fn theme_dialog_confirms() {
    let mut a = app();
    theme::open(&mut a);
    handle_input(&mut a, key(KeyCode::Char('j')));
    handle_input(&mut a, key(KeyCode::Enter));
    assert_eq!(a.config.theme, "Dracula");
    assert!(a.save_pending);
    assert!(a.take_save_request());
    assert!(!a.save_pending);
    assert!(!a.take_save_request());
}

#[test]
fn keys_drive_the_views() {
    let mut a = app();
    a.toggle_scan_mode();
    assert!(handle_input_checked(&mut a, key(KeyCode::Char('j'))));
    assert_eq!(a.tree_selected, 1);
    assert_eq!(a.hex_selected, 10);
    assert!(handle_input_checked(&mut a, key(KeyCode::Char('G'))));
    assert_eq!(a.tree_selected, a.tree.as_ref().unwrap().flatten().len() - 1);
    assert!(handle_input_checked(&mut a, key(KeyCode::Tab)));
    assert_eq!(a.focus, Focus::Hex);
    assert!(handle_input_checked(&mut a, key(KeyCode::Char('g'))));
    assert_eq!(a.hex_selected, 0);
    assert_eq!(a.hex_offset, 0);
    assert!(handle_input_checked(&mut a, key(KeyCode::Char('l'))));
    assert_eq!(a.hex_selected, 1);
    assert!(handle_input_checked(&mut a, key(KeyCode::Char('x'))));
    assert!(a.show_hex_integers);
    assert!(a.config.show_hex_integers);
    assert!(handle_input_checked(&mut a, key(KeyCode::Char('?'))));
    assert_eq!(a.popups, PopupMode::Help);
    assert!(handle_input_checked(&mut a, key(KeyCode::Esc)));
    assert_eq!(a.popups, PopupMode::Closed);
    assert!(can_handle_input(&a, key(KeyCode::Char('q'))));
    assert!(handle_input_checked(&mut a, key(KeyCode::Char('q'))));
    assert!(a.should_quit);
}

#[test]
fn tree_keys_open_and_close_nodes() {
    let mut a = app();
    a.toggle_scan_mode();
    let before = a.tree.as_ref().unwrap().flatten().len();
    handle_input(&mut a, key(KeyCode::Char('c')));
    assert_eq!(a.tree.as_ref().unwrap().flatten().len(), 1);
    handle_input(&mut a, key(KeyCode::Enter));
    assert_eq!(a.tree.as_ref().unwrap().flatten().len(), 3);
    handle_input(&mut a, key(KeyCode::Char(' ')));
    assert_eq!(a.tree.as_ref().unwrap().flatten().len(), 1);
    handle_input(&mut a, key(KeyCode::Char(' ')));
    assert_eq!(a.tree.as_ref().unwrap().flatten().len(), 3);
    handle_input(&mut a, key(KeyCode::Char('e')));
    assert!(a.tree.as_ref().unwrap().flatten().len() > before);
}

#[test]
fn mouse_focuses_and_scrolls() {
    let mut a = app();
    a.tree_area = Rect { x: 0, y: 0, width: 30, height: 20 };
    a.hex_area = Rect { x: 30, y: 0, width: 70, height: 20 };
    let click = MouseEvent {
        kind: MouseEventKind::Down(MouseButton::Left),
        column: 40,
        row: 5,
        modifiers: KeyModifiers::empty(),
    };
    assert!(handle_mouse_checked(&mut a, click));
    assert_eq!(a.focus, Focus::Hex);
    let wheel = MouseEvent { kind: MouseEventKind::ScrollDown, column: 40, row: 5, modifiers: KeyModifiers::empty() };
    assert!(handle_mouse_checked(&mut a, wheel));
    assert_eq!(a.hex_selected, 16);
}

#[test]
fn settings_store_without_files() {
    let store = ConfigStore::new().unwrap();
    let c = store.load();
    assert_eq!(c.theme, "Rosé Pine Moon");
    assert!(!c.show_hex_integers);
    store.save(&c);
}

#[test]
fn notifications_expire_after_their_duration() {
    let n = Notification::new("hi".to_string(), NotificationSeverity::Info, 1000);
    assert!(!n.is_expired());
    assert!(outlived(5_000_000_001, 5));
    assert!(!outlived(5_000_000_000, 5));
    let mut a = app();
    a.set_notification("x".to_string(), NotificationSeverity::Info, 1000);
    a.tick();
    assert!(a.notification.is_some());
}

#[test]
fn key_table_of_the_readme() {
    let mut a = app();
    // m: scan mode, s: sort
    assert!(handle_input_checked(&mut a, key(KeyCode::Char('m'))));
    assert_eq!(a.scan_mode, ScanMode::Auto);
    assert!(handle_input_checked(&mut a, key(KeyCode::Char('s'))));
    assert_eq!(a.sort_mode, SortMode::Offset);
    assert!(handle_input_checked(&mut a, key(KeyCode::Char('s'))));
    assert_eq!(a.sort_mode, SortMode::Score);
    // j / Down, k / Up in the tree
    assert!(handle_input_checked(&mut a, key(KeyCode::Down)));
    assert_eq!(a.tree_selected, 1);
    assert!(handle_input_checked(&mut a, key(KeyCode::Char('k'))));
    assert_eq!(a.tree_selected, 0);
    // End / Home
    assert!(handle_input_checked(&mut a, key(KeyCode::End)));
    assert_eq!(a.tree_selected, a.tree.as_ref().unwrap().flatten().len() - 1);
    assert!(handle_input_checked(&mut a, key(KeyCode::Home)));
    assert_eq!(a.tree_selected, 0);
    // h / l and arrows in the hex view
    assert!(handle_input_checked(&mut a, key(KeyCode::Tab)));
    assert_eq!(a.focus, Focus::Hex);
    assert!(handle_input_checked(&mut a, key(KeyCode::Right)));
    assert_eq!(a.hex_selected, 1);
    assert!(handle_input_checked(&mut a, key(KeyCode::Char('h'))));
    assert_eq!(a.hex_selected, 0);
    assert!(handle_input_checked(&mut a, key(KeyCode::Down)));
    assert_eq!(a.hex_selected, 16);
    // / opens the search, Esc closes it
    assert!(handle_input_checked(&mut a, key(KeyCode::Char('/'))));
    assert_eq!(a.popups, PopupMode::Search);
    assert!(handle_input_checked(&mut a, key(KeyCode::Esc)));
    assert_eq!(a.popups, PopupMode::Closed);
    // : opens the offset prompt
    assert!(handle_input_checked(&mut a, key(KeyCode::Char(':'))));
    assert_eq!(a.popups, PopupMode::GotoOffset);
    for c in "0x13".chars() {
        assert!(handle_input_checked(&mut a, key(KeyCode::Char(c))));
    }
    assert!(handle_input_checked(&mut a, key(KeyCode::Enter)));
    assert_eq!(a.popups, PopupMode::Closed);
    assert_eq!(a.hex_selected, 19);
    // t opens the themes
    assert!(handle_input_checked(&mut a, key(KeyCode::Char('t'))));
    assert_eq!(a.popups, PopupMode::ThemeSelect);
    assert!(handle_input_checked(&mut a, key(KeyCode::Esc)));
    assert_eq!(a.popups, PopupMode::Closed);
    // n / N repeat the last search, in both directions
    a.open_search();
    type_text(&mut a, "offset 0x");
    a.submit_input();
    assert!(a.search_error.is_none());
    let first = a.get_selected_node().unwrap().range.start;
    assert!(handle_input_checked(&mut a, key(KeyCode::Char('n'))));
    assert!(a.search_error.is_none());
    let second = a.get_selected_node().unwrap().range.start;
    assert_ne!(first, second);
    assert!(first == 10 || first == 19);
    assert!(second == 10 || second == 19);
    assert!(handle_input_checked(&mut a, key(KeyCode::Char('N'))));
    assert_eq!(a.get_selected_node().unwrap().range.start, first);
}

#[test]
fn toggles_undo_themselves() {
    let mut a = app();
    let before_popup = a.show_popup;
    a.toggle_popup();
    assert_ne!(a.show_popup, before_popup);
    a.toggle_popup();
    assert_eq!(a.show_popup, before_popup);

    let before_hex = a.show_hex_integers;
    assert!(handle_input_checked(&mut a, key(KeyCode::Char('x'))));
    assert!(handle_input_checked(&mut a, key(KeyCode::Char('x'))));
    assert_eq!(a.show_hex_integers, before_hex);
    assert_eq!(a.config.show_hex_integers, before_hex);
    assert!(a.save_pending);

    assert!(handle_input_checked(&mut a, key(KeyCode::Char('?'))));
    assert_eq!(a.popups, PopupMode::Help);
    assert!(handle_input_checked(&mut a, key(KeyCode::Char('?'))));
    assert_eq!(a.popups, PopupMode::Closed);

    let focus = a.focus;
    assert!(handle_input_checked(&mut a, key(KeyCode::Tab)));
    assert_ne!(a.focus, focus);
    assert!(handle_input_checked(&mut a, key(KeyCode::Tab)));
    assert_eq!(a.focus, focus);
}

#[test]
fn theme_browsing_then_cancel_keeps_the_theme() {
    let mut a = app();
    let before = a.theme.clone();
    assert!(handle_input_checked(&mut a, key(KeyCode::Char('t'))));
    assert!(handle_input_checked(&mut a, key(KeyCode::Down)));
    assert!(handle_input_checked(&mut a, key(KeyCode::Down)));
    assert!(handle_input_checked(&mut a, key(KeyCode::Up)));
    assert_eq!(a.theme, "Dracula");
    assert_eq!(a.original_theme.as_deref(), Some(before.as_str()));
    assert!(handle_input_checked(&mut a, key(KeyCode::Esc)));
    assert_eq!(a.theme, before);
    assert_eq!(a.popups, PopupMode::Closed);
}

#[test]
fn cursors_stay_within_their_views() {
    let mut a = app();
    a.toggle_scan_mode();
    let last_node = a.tree.as_ref().unwrap().flatten().len() - 1;
    assert!(handle_input_checked(&mut a, key(KeyCode::End)));
    assert!(handle_input_checked(&mut a, key(KeyCode::Down)));
    assert!(handle_input_checked(&mut a, key(KeyCode::PageDown)));
    assert_eq!(a.tree_selected, last_node);
    assert!(handle_input_checked(&mut a, key(KeyCode::Home)));
    assert!(handle_input_checked(&mut a, key(KeyCode::Up)));
    assert!(handle_input_checked(&mut a, key(KeyCode::PageUp)));
    assert_eq!(a.tree_selected, 0);

    assert!(handle_input_checked(&mut a, key(KeyCode::Tab)));
    let last_byte = a.raw_bytes.len() - 1;
    assert!(handle_input_checked(&mut a, key(KeyCode::End)));
    assert_eq!(a.hex_selected, last_byte);
    assert!(handle_input_checked(&mut a, key(KeyCode::Right)));
    assert!(handle_input_checked(&mut a, key(KeyCode::Down)));
    assert!(handle_input_checked(&mut a, key(KeyCode::PageDown)));
    assert_eq!(a.hex_selected, last_byte);
    assert!(handle_input_checked(&mut a, key(KeyCode::Home)));
    assert!(handle_input_checked(&mut a, key(KeyCode::Left)));
    assert!(handle_input_checked(&mut a, key(KeyCode::Up)));
    assert!(handle_input_checked(&mut a, key(KeyCode::PageUp)));
    assert_eq!(a.hex_selected, 0);
}

#[test]
fn hex_cursor_selects_the_node_under_it() {
    let mut a = app();
    assert!(handle_input_checked(&mut a, key(KeyCode::Tab)));
    assert_eq!(a.hex_selected, 10);
    for _ in 0..3 {
        assert!(handle_input_checked(&mut a, key(KeyCode::Right)));
    }
    assert_eq!(a.hex_selected, 13);
    let n = a.get_selected_node().unwrap();
    assert_eq!(n.range, 11..14);
    assert!(handle_input_checked(&mut a, key(KeyCode::Left)));
    assert!(handle_input_checked(&mut a, key(KeyCode::Left)));
    assert!(handle_input_checked(&mut a, key(KeyCode::Left)));
    assert_eq!(a.hex_selected, 10);
    assert_eq!(a.get_selected_node().unwrap().range, 10..14);
    assert!(handle_input_checked(&mut a, key(KeyCode::Left)));
    assert_eq!(a.hex_selected, 9);
    assert_eq!(a.get_selected_node().unwrap().range, 10..14);
}

#[test]
fn deleting_undoes_typing() {
    let mut a = app();
    a.open_search();
    type_text(&mut a, "abc");
    a.move_cursor_left();
    let (text, cursor) = (a.search_input.clone(), a.search_cursor_position);
    assert_eq!(cursor, 2);
    a.enter_char('x');
    assert_eq!(a.search_input, "abxc");
    a.delete_char();
    assert_eq!(a.search_input, text);
    assert_eq!(a.search_cursor_position, cursor);
    a.enter_char('ü');
    assert_eq!(a.search_input, "abüc");
    a.delete_char();
    assert_eq!(a.search_input, text);
    assert_eq!(a.search_cursor_position, cursor);
}
