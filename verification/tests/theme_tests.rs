use cbx::app::App;
use cbx::cbor_tree::CborNode;
use cbx::config_store::AppConfig;
use cbx::theme::{byte_cell_colors, highlight_depth, printable_char, Color, Theme};

#[test]
fn themes_are_found_by_name() {
    let t = Theme::named("Nord");
    assert_eq!(t.name, "Nord");
    assert_eq!(t.bg, Color::Rgb(46, 52, 64));
    assert_eq!(t.depth_colors.len(), 8);
    let t = Theme::named("GitHub Light");
    assert_eq!(t.name, "GitHub Light");
    assert_eq!(t.popup_bg, Color::Rgb(255, 255, 255));
}

#[test]
fn unknown_names_give_the_first_theme() {
    let t = Theme::named("Rosé Pine Moon");
    assert_eq!(t.name, "Tokyo Night");
    assert_eq!(t.popup_bg, Color::Reset);
    assert_eq!(t.byte_colors.ascii_other, Color::Indexed(162));
    let d = Theme::default();
    assert_eq!(d.name, "Tokyo Night");
}

#[test]
fn depth_colours_run_backwards() {
    let t = Theme::tokyo_night();
    assert_eq!(t.get_depth_color(0), Color::Rgb(0, 191, 255));
    assert_eq!(t.get_depth_color(7), Color::Rgb(255, 215, 0));
    assert_eq!(t.get_depth_color(8), Color::Rgb(0, 191, 255));
    assert_eq!(t.get_depth_color(9), Color::Rgb(30, 144, 255));
}

#[test]
fn missing_depth_colours_fall_back_to_the_first() {
    let mut t = Theme::dracula();
    t.depth_colors.truncate(3);
    assert_eq!(t.get_depth_color(0), Color::Rgb(255, 121, 198));
    assert_eq!(t.get_depth_color(5), Color::Rgb(139, 233, 253));
}

#[test]
fn every_listed_theme_has_its_palette() {
    let all = [
        Theme::tokyo_night(),
        Theme::dracula(),
        Theme::solarized(),
        Theme::monokai(),
        Theme::nord(),
        Theme::gruvbox(),
        Theme::one_dark(),
        Theme::catppuccin(),
        Theme::github_light(),
        Theme::github_dark(),
    ];
    for t in all.iter() {
        let again = Theme::named(&t.name);
        assert_eq!(again.name, t.name);
        assert_eq!(again.bg, t.bg);
        assert_eq!(again.depth_colors, t.depth_colors);
        assert_eq!(again.byte_colors, t.byte_colors);
    }
}

#[test]
fn bytes_are_coloured_by_kind() {
    let t = Theme::tokyo_night();
    assert_eq!(byte_cell_colors(&t, 0x00, true, None, false, false), (Color::DarkGray, t.bg));
    assert_eq!(byte_cell_colors(&t, b'a', true, None, false, false), (Color::Blue, t.bg));
    assert_eq!(byte_cell_colors(&t, b'\n', true, None, false, false), (Color::Rgb(67, 205, 128), t.bg));
    assert_eq!(byte_cell_colors(&t, 0x01, true, None, false, false), (Color::Indexed(162), t.bg));
    assert_eq!(byte_cell_colors(&t, 0xA1, true, None, false, false), (Color::Red, t.bg));
    assert_eq!(byte_cell_colors(&t, b'a', false, None, false, false), (Color::DarkGray, t.bg));
}

#[test]
fn highlight_and_cursor_colours() {
    let t = Theme::tokyo_night();
    assert_eq!(byte_cell_colors(&t, b'a', true, Some(0), false, false), (Color::Rgb(0, 191, 255), t.bg));
    assert_eq!(byte_cell_colors(&t, b'a', true, Some(0), false, true), (Color::Black, Color::Rgb(0, 191, 255)));
    assert_eq!(byte_cell_colors(&t, b'a', true, Some(1), true, true), (t.selection_bg, t.selection_fg));
}

#[test]
fn text_column_characters() {
    assert_eq!(printable_char(b'a'), 'a');
    assert_eq!(printable_char(b' '), ' ');
    assert_eq!(printable_char(b'~'), '~');
    assert_eq!(printable_char(b'\n'), '.');
    assert_eq!(printable_char(0x7F), '.');
    assert_eq!(printable_char(0xC3), '.');
}

#[test]
fn the_first_covering_node_gives_the_highlight() {
    let mut data = vec![0xFF; 10];
    data.extend_from_slice(&[0xA1, 0x61, 0x61, 0x01]);
    let a = App::new(data, "h".to_string(), AppConfig::default()).unwrap();
    let tree = a.tree.as_ref().unwrap();
    let path = tree.get_path_to_offset(13);
    assert!(path.len() >= 2);
    let deepest_first: Vec<&CborNode> = path.into_iter().rev().collect();
    let d = highlight_depth(&deepest_first, 13).unwrap();
    assert_eq!(d, deepest_first[0].depth);
    assert!(d > 0);
    assert_eq!(highlight_depth(&deepest_first, 3), None);
    let empty: Vec<&CborNode> = Vec::new();
    assert_eq!(highlight_depth(&empty, 13), None);
}
