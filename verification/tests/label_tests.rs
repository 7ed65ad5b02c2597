use cbx::app::App;
use cbx::config_store::AppConfig;
use cbx::ui::labels::{
    expand_icon_text, hex_title_text, indent_text, key_label_text, path_text, range_text, tree_title_text,
};
use cbx::zoom::Zoomable;

fn app() -> App {
    let mut data = vec![0xFF; 10];
    data.extend_from_slice(&[0xA1, 0x61, 0x61, 0x01]);
    data.extend_from_slice(&[0xFF; 5]);
    data.extend_from_slice(&[0x85, 0x01, 0x02, 0x03, 0x04, 0x05]);
    data.push(0xFF);
    App::new(data, "embedded.bin".to_string(), AppConfig::default()).unwrap()
}

#[test]
fn tree_line_parts() {
    assert_eq!(indent_text(0), "");
    assert_eq!(indent_text(3), "      ");
    let a = app();
    let root = a.tree.as_ref().unwrap();
    assert_eq!(key_label_text(root), "");
    let child = &root.children[0];
    assert_eq!(key_label_text(child), "a: ");
    assert_eq!(expand_icon_text(child), "  ");
    if root.expanded {
        assert_eq!(expand_icon_text(root), "▼ ");
    } else {
        assert_eq!(expand_icon_text(root), "▶ ");
    }
}

#[test]
fn status_path_is_joined_by_arrows() {
    let mut a = app();
    a.toggle_scan_mode();
    let root = a.tree.as_ref().unwrap();
    let item = &root.children[0].children[0];
    assert_eq!(path_text(item), "root → Chunk #1 → Item 0");
    assert_eq!(path_text(root), "");
}

#[test]
fn view_titles() {
    let mut a = app();
    assert_eq!(tree_title_text("f.cbor"), " CBOR Tree - f.cbor ");
    assert_eq!(hex_title_text(&a), " Hex View - 26 bytes ");
    a.hex_selected = 15;
    a.zoom_in();
    assert_eq!(hex_title_text(&a), " Hex View (Zoomed at 0x13) - 26 bytes ");
}

#[test]
fn byte_range_of_a_node() {
    let a = app();
    let root = a.tree.as_ref().unwrap();
    assert_eq!(range_text(root), "10..14 (4 bytes)");
}
