//! The colour themes: each names the colours of every part of the screen.
use vstd::prelude::*;
use crate::app::theme_names;
use crate::text::same_text;
use crate::cbor_tree::{CborNode, covers, refs_view};
use crate::display::{depth_color_index, depth_color_pos};
use crate::util::{ByteType, byte_type_of, get_byte_type};

verus! {

/// A colour of the terminal: its own default, one of its sixteen named
/// colours, an entry of its 256-colour table, or a 24-bit colour.
#[derive(Debug, Clone, Copy, PartialEq, Eq, Structural)]
pub enum Color {
    Reset,
    Black,
    Red,
    Green,
    Yellow,
    Blue,
    Magenta,
    Cyan,
    Gray,
    DarkGray,
    LightRed,
    LightGreen,
    LightYellow,
    LightBlue,
    LightMagenta,
    LightCyan,
    White,
    Rgb(u8, u8, u8),
    Indexed(u8),
}

/// The colours of the bytes in the hex view, by kind of byte.
#[derive(Debug, Clone, Copy, PartialEq, Eq, Structural)]
pub struct ByteColors {
    pub null: Color,
    pub ascii_printable: Color,
    pub ascii_whitespace: Color,
    pub ascii_other: Color,
    pub non_ascii: Color,
}

/// A named set of colours for the screen; `depth_colors` colour the
/// nesting depths of the tree.
#[derive(Debug)]
pub struct Theme {
    pub name: String,
    pub bg: Color,
    pub fg: Color,
    pub selection_bg: Color,
    pub selection_fg: Color,
    pub border_focused: Color,
    pub border_unfocused: Color,
    pub header_fg: Color,
    pub depth_colors: Vec<Color>,
    pub byte_colors: ByteColors,
    pub popup_border: Color,
    pub popup_bg: Color,
}

/// The colours of the theme "Tokyo Night".
pub open spec fn is_tokyo_night(t: &Theme) -> bool {
    &&& t.name@ == "Tokyo Night"@
    &&& t.bg == Color::Rgb(26, 27, 38)
    &&& t.fg == Color::Rgb(169, 177, 214)
    &&& t.selection_bg == Color::Rgb(51, 70, 124)
    &&& t.selection_fg == Color::Rgb(192, 202, 245)
    &&& t.border_focused == Color::Rgb(122, 162, 247)
    &&& t.border_unfocused == Color::Rgb(86, 95, 137)
    &&& t.header_fg == Color::Rgb(122, 162, 247)
    &&& t.depth_colors@ == seq![
        Color::Rgb(255, 215, 0),
        Color::Rgb(255, 165, 0),
        Color::Rgb(255, 99, 71),
        Color::Rgb(199, 21, 133),
        Color::Rgb(138, 43, 226),
        Color::Rgb(65, 105, 225),
        Color::Rgb(30, 144, 255),
        Color::Rgb(0, 191, 255),
    ]
    &&& t.byte_colors == (ByteColors {
        null: Color::DarkGray,
        ascii_printable: Color::Blue,
        ascii_whitespace: Color::Rgb(67, 205, 128),
        ascii_other: Color::Indexed(162),
        non_ascii: Color::Red,
    })
    &&& t.popup_border == Color::Rgb(122, 162, 247)
    &&& t.popup_bg == Color::Reset
}

/// The colours of the theme "Dracula".
pub open spec fn is_dracula(t: &Theme) -> bool {
    &&& t.name@ == "Dracula"@
    &&& t.bg == Color::Rgb(40, 42, 54)
    &&& t.fg == Color::Rgb(248, 248, 242)
    &&& t.selection_bg == Color::Rgb(68, 71, 90)
    &&& t.selection_fg == Color::Rgb(255, 255, 255)
    &&& t.border_focused == Color::Rgb(189, 147, 249)
    &&& t.border_unfocused == Color::Rgb(98, 114, 164)
    &&& t.header_fg == Color::Rgb(80, 250, 123)
    &&& t.depth_colors@ == seq![
        Color::Rgb(255, 121, 198),
        Color::Rgb(189, 147, 249),
        Color::Rgb(139, 233, 253),
        Color::Rgb(80, 250, 123),
        Color::Rgb(241, 250, 140),
        Color::Rgb(255, 184, 108),
        Color::Rgb(255, 85, 85),
        Color::Rgb(98, 114, 164),
    ]
    &&& t.byte_colors == (ByteColors {
        null: Color::DarkGray,
        ascii_printable: Color::Rgb(139, 233, 253),
        ascii_whitespace: Color::Rgb(80, 250, 123),
        ascii_other: Color::Rgb(255, 184, 108),
        non_ascii: Color::Rgb(255, 85, 85),
    })
    &&& t.popup_border == Color::Rgb(189, 147, 249)
    &&& t.popup_bg == Color::Rgb(40, 42, 54)
}

/// The colours of the theme "Solarized".
pub open spec fn is_solarized(t: &Theme) -> bool {
    &&& t.name@ == "Solarized"@
    &&& t.bg == Color::Rgb(0, 43, 54)
    &&& t.fg == Color::Rgb(131, 148, 150)
    &&& t.selection_bg == Color::Rgb(7, 54, 66)
    &&& t.selection_fg == Color::Rgb(147, 161, 161)
    &&& t.border_focused == Color::Rgb(38, 139, 210)
    &&& t.border_unfocused == Color::Rgb(88, 110, 117)
    &&& t.header_fg == Color::Rgb(133, 153, 0)
    &&& t.depth_colors@ == seq![
        Color::Rgb(181, 137, 0),
        Color::Rgb(203, 75, 22),
        Color::Rgb(220, 50, 47),
        Color::Rgb(211, 54, 130),
        Color::Rgb(108, 113, 196),
        Color::Rgb(38, 139, 210),
        Color::Rgb(42, 161, 152),
        Color::Rgb(133, 153, 0),
    ]
    &&& t.byte_colors == (ByteColors {
        null: Color::Rgb(88, 110, 117),
        ascii_printable: Color::Rgb(38, 139, 210),
        ascii_whitespace: Color::Rgb(133, 153, 0),
        ascii_other: Color::Rgb(203, 75, 22),
        non_ascii: Color::Rgb(220, 50, 47),
    })
    &&& t.popup_border == Color::Rgb(38, 139, 210)
    &&& t.popup_bg == Color::Rgb(0, 43, 54)
}

/// The colours of the theme "Monokai".
pub open spec fn is_monokai(t: &Theme) -> bool {
    &&& t.name@ == "Monokai"@
    &&& t.bg == Color::Rgb(39, 40, 34)
    &&& t.fg == Color::Rgb(248, 248, 242)
    &&& t.selection_bg == Color::Rgb(73, 72, 62)
    &&& t.selection_fg == Color::Rgb(248, 248, 242)
    &&& t.border_focused == Color::Rgb(166, 226, 46)
    &&& t.border_unfocused == Color::Rgb(117, 113, 94)
    &&& t.header_fg == Color::Rgb(102, 217, 239)
    &&& t.depth_colors@ == seq![
        Color::Rgb(253, 151, 31),
        Color::Rgb(166, 226, 46),
        Color::Rgb(102, 217, 239),
        Color::Rgb(174, 129, 255),
        Color::Rgb(249, 38, 114),
        Color::Rgb(253, 151, 31),
        Color::Rgb(166, 226, 46),
        Color::Rgb(102, 217, 239),
    ]
    &&& t.byte_colors == (ByteColors {
        null: Color::Rgb(117, 113, 94),
        ascii_printable: Color::Rgb(166, 226, 46),
        ascii_whitespace: Color::Rgb(249, 38, 114),
        ascii_other: Color::Rgb(174, 129, 255),
        non_ascii: Color::Rgb(253, 151, 31),
    })
    &&& t.popup_border == Color::Rgb(166, 226, 46)
    &&& t.popup_bg == Color::Rgb(39, 40, 34)
}

/// The colours of the theme "Nord".
pub open spec fn is_nord(t: &Theme) -> bool {
    &&& t.name@ == "Nord"@
    &&& t.bg == Color::Rgb(46, 52, 64)
    &&& t.fg == Color::Rgb(236, 239, 244)
    &&& t.selection_bg == Color::Rgb(67, 76, 94)
    &&& t.selection_fg == Color::Rgb(236, 239, 244)
    &&& t.border_focused == Color::Rgb(136, 192, 208)
    &&& t.border_unfocused == Color::Rgb(76, 86, 106)
    &&& t.header_fg == Color::Rgb(143, 188, 187)
    &&& t.depth_colors@ == seq![
        Color::Rgb(191, 97, 106),
        Color::Rgb(208, 135, 112),
        Color::Rgb(235, 203, 139),
        Color::Rgb(163, 190, 140),
        Color::Rgb(180, 142, 173),
        Color::Rgb(136, 192, 208),
        Color::Rgb(129, 161, 193),
        Color::Rgb(94, 129, 172),
    ]
    &&& t.byte_colors == (ByteColors {
        null: Color::Rgb(76, 86, 106),
        ascii_printable: Color::Rgb(163, 190, 140),
        ascii_whitespace: Color::Rgb(235, 203, 139),
        ascii_other: Color::Rgb(208, 135, 112),
        non_ascii: Color::Rgb(191, 97, 106),
    })
    &&& t.popup_border == Color::Rgb(136, 192, 208)
    &&& t.popup_bg == Color::Rgb(46, 52, 64)
}

/// The colours of the theme "Gruvbox".
pub open spec fn is_gruvbox(t: &Theme) -> bool {
    &&& t.name@ == "Gruvbox"@
    &&& t.bg == Color::Rgb(40, 40, 40)
    &&& t.fg == Color::Rgb(235, 219, 178)
    &&& t.selection_bg == Color::Rgb(60, 56, 54)
    &&& t.selection_fg == Color::Rgb(251, 241, 199)
    &&& t.border_focused == Color::Rgb(254, 128, 25)
    &&& t.border_unfocused == Color::Rgb(146, 131, 116)
    &&& t.header_fg == Color::Rgb(184, 187, 38)
    &&& t.depth_colors@ == seq![
        Color::Rgb(251, 73, 52),
        Color::Rgb(254, 128, 25),
        Color::Rgb(250, 189, 47),
        Color::Rgb(184, 187, 38),
        Color::Rgb(131, 165, 152),
        Color::Rgb(211, 134, 155),
        Color::Rgb(142, 192, 124),
        Color::Rgb(254, 128, 25),
    ]
    &&& t.byte_colors == (ByteColors {
        null: Color::Rgb(146, 131, 116),
        ascii_printable: Color::Rgb(184, 187, 38),
        ascii_whitespace: Color::Rgb(250, 189, 47),
        ascii_other: Color::Rgb(131, 165, 152),
        non_ascii: Color::Rgb(251, 73, 52),
    })
    &&& t.popup_border == Color::Rgb(254, 128, 25)
    &&& t.popup_bg == Color::Rgb(40, 40, 40)
}

/// The colours of the theme "One Dark".
pub open spec fn is_one_dark(t: &Theme) -> bool {
    &&& t.name@ == "One Dark"@
    &&& t.bg == Color::Rgb(40, 44, 52)
    &&& t.fg == Color::Rgb(171, 178, 191)
    &&& t.selection_bg == Color::Rgb(62, 68, 81)
    &&& t.selection_fg == Color::Rgb(220, 223, 228)
    &&& t.border_focused == Color::Rgb(97, 175, 239)
    &&& t.border_unfocused == Color::Rgb(92, 99, 112)
    &&& t.header_fg == Color::Rgb(152, 195, 121)
    &&& t.depth_colors@ == seq![
        Color::Rgb(224, 108, 117),
        Color::Rgb(209, 154, 102),
        Color::Rgb(229, 192, 123),
        Color::Rgb(152, 195, 121),
        Color::Rgb(86, 182, 194),
        Color::Rgb(97, 175, 239),
        Color::Rgb(198, 120, 221),
        Color::Rgb(224, 108, 117),
    ]
    &&& t.byte_colors == (ByteColors {
        null: Color::Rgb(92, 99, 112),
        ascii_printable: Color::Rgb(152, 195, 121),
        ascii_whitespace: Color::Rgb(229, 192, 123),
        ascii_other: Color::Rgb(86, 182, 194),
        non_ascii: Color::Rgb(224, 108, 117),
    })
    &&& t.popup_border == Color::Rgb(97, 175, 239)
    &&& t.popup_bg == Color::Rgb(40, 44, 52)
}

/// The colours of the theme "Catppuccin".
pub open spec fn is_catppuccin(t: &Theme) -> bool {
    &&& t.name@ == "Catppuccin"@
    &&& t.bg == Color::Rgb(30, 30, 46)
    &&& t.fg == Color::Rgb(205, 214, 244)
    &&& t.selection_bg == Color::Rgb(50, 50, 70)
    &&& t.selection_fg == Color::Rgb(205, 214, 244)
    &&& t.border_focused == Color::Rgb(137, 180, 250)
    &&& t.border_unfocused == Color::Rgb(88, 91, 112)
    &&& t.header_fg == Color::Rgb(166, 227, 161)
    &&& t.depth_colors@ == seq![
        Color::Rgb(243, 139, 168),
        Color::Rgb(250, 179, 135),
        Color::Rgb(249, 226, 175),
        Color::Rgb(166, 227, 161),
        Color::Rgb(137, 220, 235),
        Color::Rgb(137, 180, 250),
        Color::Rgb(203, 166, 247),
        Color::Rgb(245, 194, 231),
    ]
    &&& t.byte_colors == (ByteColors {
        null: Color::Rgb(88, 91, 112),
        ascii_printable: Color::Rgb(166, 227, 161),
        ascii_whitespace: Color::Rgb(249, 226, 175),
        ascii_other: Color::Rgb(137, 220, 235),
        non_ascii: Color::Rgb(243, 139, 168),
    })
    &&& t.popup_border == Color::Rgb(137, 180, 250)
    &&& t.popup_bg == Color::Rgb(30, 30, 46)
}

/// The colours of the theme "GitHub Light".
pub open spec fn is_github_light(t: &Theme) -> bool {
    &&& t.name@ == "GitHub Light"@
    &&& t.bg == Color::Rgb(255, 255, 255)
    &&& t.fg == Color::Rgb(36, 41, 47)
    &&& t.selection_bg == Color::Rgb(235, 240, 244)
    &&& t.selection_fg == Color::Rgb(36, 41, 47)
    &&& t.border_focused == Color::Rgb(9, 105, 218)
    &&& t.border_unfocused == Color::Rgb(175, 184, 193)
    &&& t.header_fg == Color::Rgb(26, 127, 55)
    &&& t.depth_colors@ == seq![
        Color::Rgb(207, 34, 46),
        Color::Rgb(188, 76, 0),
        Color::Rgb(191, 135, 0),
        Color::Rgb(26, 127, 55),
        Color::Rgb(9, 105, 218),
        Color::Rgb(130, 80, 223),
        Color::Rgb(207, 34, 46),
        Color::Rgb(188, 76, 0),
    ]
    &&& t.byte_colors == (ByteColors {
        null: Color::Rgb(175, 184, 193),
        ascii_printable: Color::Rgb(26, 127, 55),
        ascii_whitespace: Color::Rgb(191, 135, 0),
        ascii_other: Color::Rgb(9, 105, 218),
        non_ascii: Color::Rgb(207, 34, 46),
    })
    &&& t.popup_border == Color::Rgb(9, 105, 218)
    &&& t.popup_bg == Color::Rgb(255, 255, 255)
}

/// The colours of the theme "GitHub Dark".
pub open spec fn is_github_dark(t: &Theme) -> bool {
    &&& t.name@ == "GitHub Dark"@
    &&& t.bg == Color::Rgb(13, 17, 23)
    &&& t.fg == Color::Rgb(201, 209, 217)
    &&& t.selection_bg == Color::Rgb(22, 27, 34)
    &&& t.selection_fg == Color::Rgb(240, 246, 252)
    &&& t.border_focused == Color::Rgb(88, 166, 255)
    &&& t.border_unfocused == Color::Rgb(48, 54, 61)
    &&& t.header_fg == Color::Rgb(63, 185, 80)
    &&& t.depth_colors@ == seq![
        Color::Rgb(255, 123, 114),
        Color::Rgb(210, 153, 34),
        Color::Rgb(210, 153, 34),
        Color::Rgb(63, 185, 80),
        Color::Rgb(88, 166, 255),
        Color::Rgb(188, 139, 255),
        Color::Rgb(255, 123, 114),
        Color::Rgb(210, 153, 34),
    ]
    &&& t.byte_colors == (ByteColors {
        null: Color::Rgb(48, 54, 61),
        ascii_printable: Color::Rgb(63, 185, 80),
        ascii_whitespace: Color::Rgb(210, 153, 34),
        ascii_other: Color::Rgb(88, 166, 255),
        non_ascii: Color::Rgb(255, 123, 114),
    })
    &&& t.popup_border == Color::Rgb(88, 166, 255)
    &&& t.popup_bg == Color::Rgb(13, 17, 23)
}

/// `t` is the theme of the name `name`.
pub open spec fn is_theme_named(t: &Theme, name: Seq<char>) -> bool {
    if name == "Tokyo Night"@ {
        is_tokyo_night(t)
    } else if name == "Dracula"@ {
        is_dracula(t)
    } else if name == "Solarized"@ {
        is_solarized(t)
    } else if name == "Monokai"@ {
        is_monokai(t)
    } else if name == "Nord"@ {
        is_nord(t)
    } else if name == "Gruvbox"@ {
        is_gruvbox(t)
    } else if name == "One Dark"@ {
        is_one_dark(t)
    } else if name == "Catppuccin"@ {
        is_catppuccin(t)
    } else if name == "GitHub Light"@ {
        is_github_light(t)
    } else if name == "GitHub Dark"@ {
        is_github_dark(t)
    } else {
        false
    }
}

/// The theme names are exactly the ten listed.
proof fn lemma_theme_names_contains(name: Seq<char>)
    ensures
        theme_names().contains(name) <==> (
        name == "Tokyo Night"@
        || name == "Dracula"@
        || name == "Solarized"@
        || name == "Monokai"@
        || name == "Nord"@
        || name == "Gruvbox"@
        || name == "One Dark"@
        || name == "Catppuccin"@
        || name == "GitHub Light"@
        || name == "GitHub Dark"@
        ),
{
    assert(theme_names()[0] == "Tokyo Night"@);
    assert(theme_names()[1] == "Dracula"@);
    assert(theme_names()[2] == "Solarized"@);
    assert(theme_names()[3] == "Monokai"@);
    assert(theme_names()[4] == "Nord"@);
    assert(theme_names()[5] == "Gruvbox"@);
    assert(theme_names()[6] == "One Dark"@);
    assert(theme_names()[7] == "Catppuccin"@);
    assert(theme_names()[8] == "GitHub Light"@);
    assert(theme_names()[9] == "GitHub Dark"@);
    if theme_names().contains(name) {
        let i = choose|i: int| 0 <= i < theme_names().len() && theme_names()[i] == name;
        if i == 0 {
            assert(theme_names()[0] == "Tokyo Night"@);
        } else if i == 1 {
            assert(theme_names()[1] == "Dracula"@);
        } else if i == 2 {
            assert(theme_names()[2] == "Solarized"@);
        } else if i == 3 {
            assert(theme_names()[3] == "Monokai"@);
        } else if i == 4 {
            assert(theme_names()[4] == "Nord"@);
        } else if i == 5 {
            assert(theme_names()[5] == "Gruvbox"@);
        } else if i == 6 {
            assert(theme_names()[6] == "One Dark"@);
        } else if i == 7 {
            assert(theme_names()[7] == "Catppuccin"@);
        } else if i == 8 {
            assert(theme_names()[8] == "GitHub Light"@);
        } else if i == 9 {
            assert(theme_names()[9] == "GitHub Dark"@);
        }
    }
}

impl Theme {
    pub fn tokyo_night() -> (r: Self)
        ensures
            is_tokyo_night(&r),
    {
        let mut depth_colors: Vec<Color> = Vec::new();
        depth_colors.push(Color::Rgb(255, 215, 0));
        depth_colors.push(Color::Rgb(255, 165, 0));
        depth_colors.push(Color::Rgb(255, 99, 71));
        depth_colors.push(Color::Rgb(199, 21, 133));
        depth_colors.push(Color::Rgb(138, 43, 226));
        depth_colors.push(Color::Rgb(65, 105, 225));
        depth_colors.push(Color::Rgb(30, 144, 255));
        depth_colors.push(Color::Rgb(0, 191, 255));
        assert(depth_colors@ =~= seq![Color::Rgb(255, 215, 0), Color::Rgb(255, 165, 0), Color::Rgb(255, 99, 71), Color::Rgb(199, 21, 133), Color::Rgb(138, 43, 226), Color::Rgb(65, 105, 225), Color::Rgb(30, 144, 255), Color::Rgb(0, 191, 255)]);
        Theme {
            name: "Tokyo Night".to_owned(),
            bg: Color::Rgb(26, 27, 38),
            fg: Color::Rgb(169, 177, 214),
            selection_bg: Color::Rgb(51, 70, 124),
            selection_fg: Color::Rgb(192, 202, 245),
            border_focused: Color::Rgb(122, 162, 247),
            border_unfocused: Color::Rgb(86, 95, 137),
            header_fg: Color::Rgb(122, 162, 247),
            depth_colors,
            byte_colors: ByteColors {
                null: Color::DarkGray,
                ascii_printable: Color::Blue,
                ascii_whitespace: Color::Rgb(67, 205, 128),
                ascii_other: Color::Indexed(162),
                non_ascii: Color::Red,
            },
            popup_border: Color::Rgb(122, 162, 247),
            popup_bg: Color::Reset,
        }
    }

    pub fn dracula() -> (r: Self)
        ensures
            is_dracula(&r),
    {
        let mut depth_colors: Vec<Color> = Vec::new();
        depth_colors.push(Color::Rgb(255, 121, 198));
        depth_colors.push(Color::Rgb(189, 147, 249));
        depth_colors.push(Color::Rgb(139, 233, 253));
        depth_colors.push(Color::Rgb(80, 250, 123));
        depth_colors.push(Color::Rgb(241, 250, 140));
        depth_colors.push(Color::Rgb(255, 184, 108));
        depth_colors.push(Color::Rgb(255, 85, 85));
        depth_colors.push(Color::Rgb(98, 114, 164));
        assert(depth_colors@ =~= seq![Color::Rgb(255, 121, 198), Color::Rgb(189, 147, 249), Color::Rgb(139, 233, 253), Color::Rgb(80, 250, 123), Color::Rgb(241, 250, 140), Color::Rgb(255, 184, 108), Color::Rgb(255, 85, 85), Color::Rgb(98, 114, 164)]);
        Theme {
            name: "Dracula".to_owned(),
            bg: Color::Rgb(40, 42, 54),
            fg: Color::Rgb(248, 248, 242),
            selection_bg: Color::Rgb(68, 71, 90),
            selection_fg: Color::Rgb(255, 255, 255),
            border_focused: Color::Rgb(189, 147, 249),
            border_unfocused: Color::Rgb(98, 114, 164),
            header_fg: Color::Rgb(80, 250, 123),
            depth_colors,
            byte_colors: ByteColors {
                null: Color::DarkGray,
                ascii_printable: Color::Rgb(139, 233, 253),
                ascii_whitespace: Color::Rgb(80, 250, 123),
                ascii_other: Color::Rgb(255, 184, 108),
                non_ascii: Color::Rgb(255, 85, 85),
            },
            popup_border: Color::Rgb(189, 147, 249),
            popup_bg: Color::Rgb(40, 42, 54),
        }
    }

    pub fn solarized() -> (r: Self)
        ensures
            is_solarized(&r),
    {
        let mut depth_colors: Vec<Color> = Vec::new();
        depth_colors.push(Color::Rgb(181, 137, 0));
        depth_colors.push(Color::Rgb(203, 75, 22));
        depth_colors.push(Color::Rgb(220, 50, 47));
        depth_colors.push(Color::Rgb(211, 54, 130));
        depth_colors.push(Color::Rgb(108, 113, 196));
        depth_colors.push(Color::Rgb(38, 139, 210));
        depth_colors.push(Color::Rgb(42, 161, 152));
        depth_colors.push(Color::Rgb(133, 153, 0));
        assert(depth_colors@ =~= seq![Color::Rgb(181, 137, 0), Color::Rgb(203, 75, 22), Color::Rgb(220, 50, 47), Color::Rgb(211, 54, 130), Color::Rgb(108, 113, 196), Color::Rgb(38, 139, 210), Color::Rgb(42, 161, 152), Color::Rgb(133, 153, 0)]);
        Theme {
            name: "Solarized".to_owned(),
            bg: Color::Rgb(0, 43, 54),
            fg: Color::Rgb(131, 148, 150),
            selection_bg: Color::Rgb(7, 54, 66),
            selection_fg: Color::Rgb(147, 161, 161),
            border_focused: Color::Rgb(38, 139, 210),
            border_unfocused: Color::Rgb(88, 110, 117),
            header_fg: Color::Rgb(133, 153, 0),
            depth_colors,
            byte_colors: ByteColors {
                null: Color::Rgb(88, 110, 117),
                ascii_printable: Color::Rgb(38, 139, 210),
                ascii_whitespace: Color::Rgb(133, 153, 0),
                ascii_other: Color::Rgb(203, 75, 22),
                non_ascii: Color::Rgb(220, 50, 47),
            },
            popup_border: Color::Rgb(38, 139, 210),
            popup_bg: Color::Rgb(0, 43, 54),
        }
    }

    pub fn monokai() -> (r: Self)
        ensures
            is_monokai(&r),
    {
        let mut depth_colors: Vec<Color> = Vec::new();
        depth_colors.push(Color::Rgb(253, 151, 31));
        depth_colors.push(Color::Rgb(166, 226, 46));
        depth_colors.push(Color::Rgb(102, 217, 239));
        depth_colors.push(Color::Rgb(174, 129, 255));
        depth_colors.push(Color::Rgb(249, 38, 114));
        depth_colors.push(Color::Rgb(253, 151, 31));
        depth_colors.push(Color::Rgb(166, 226, 46));
        depth_colors.push(Color::Rgb(102, 217, 239));
        assert(depth_colors@ =~= seq![Color::Rgb(253, 151, 31), Color::Rgb(166, 226, 46), Color::Rgb(102, 217, 239), Color::Rgb(174, 129, 255), Color::Rgb(249, 38, 114), Color::Rgb(253, 151, 31), Color::Rgb(166, 226, 46), Color::Rgb(102, 217, 239)]);
        Theme {
            name: "Monokai".to_owned(),
            bg: Color::Rgb(39, 40, 34),
            fg: Color::Rgb(248, 248, 242),
            selection_bg: Color::Rgb(73, 72, 62),
            selection_fg: Color::Rgb(248, 248, 242),
            border_focused: Color::Rgb(166, 226, 46),
            border_unfocused: Color::Rgb(117, 113, 94),
            header_fg: Color::Rgb(102, 217, 239),
            depth_colors,
            byte_colors: ByteColors {
                null: Color::Rgb(117, 113, 94),
                ascii_printable: Color::Rgb(166, 226, 46),
                ascii_whitespace: Color::Rgb(249, 38, 114),
                ascii_other: Color::Rgb(174, 129, 255),
                non_ascii: Color::Rgb(253, 151, 31),
            },
            popup_border: Color::Rgb(166, 226, 46),
            popup_bg: Color::Rgb(39, 40, 34),
        }
    }

    pub fn nord() -> (r: Self)
        ensures
            is_nord(&r),
    {
        let mut depth_colors: Vec<Color> = Vec::new();
        depth_colors.push(Color::Rgb(191, 97, 106));
        depth_colors.push(Color::Rgb(208, 135, 112));
        depth_colors.push(Color::Rgb(235, 203, 139));
        depth_colors.push(Color::Rgb(163, 190, 140));
        depth_colors.push(Color::Rgb(180, 142, 173));
        depth_colors.push(Color::Rgb(136, 192, 208));
        depth_colors.push(Color::Rgb(129, 161, 193));
        depth_colors.push(Color::Rgb(94, 129, 172));
        assert(depth_colors@ =~= seq![Color::Rgb(191, 97, 106), Color::Rgb(208, 135, 112), Color::Rgb(235, 203, 139), Color::Rgb(163, 190, 140), Color::Rgb(180, 142, 173), Color::Rgb(136, 192, 208), Color::Rgb(129, 161, 193), Color::Rgb(94, 129, 172)]);
        Theme {
            name: "Nord".to_owned(),
            bg: Color::Rgb(46, 52, 64),
            fg: Color::Rgb(236, 239, 244),
            selection_bg: Color::Rgb(67, 76, 94),
            selection_fg: Color::Rgb(236, 239, 244),
            border_focused: Color::Rgb(136, 192, 208),
            border_unfocused: Color::Rgb(76, 86, 106),
            header_fg: Color::Rgb(143, 188, 187),
            depth_colors,
            byte_colors: ByteColors {
                null: Color::Rgb(76, 86, 106),
                ascii_printable: Color::Rgb(163, 190, 140),
                ascii_whitespace: Color::Rgb(235, 203, 139),
                ascii_other: Color::Rgb(208, 135, 112),
                non_ascii: Color::Rgb(191, 97, 106),
            },
            popup_border: Color::Rgb(136, 192, 208),
            popup_bg: Color::Rgb(46, 52, 64),
        }
    }

    pub fn gruvbox() -> (r: Self)
        ensures
            is_gruvbox(&r),
    {
        let mut depth_colors: Vec<Color> = Vec::new();
        depth_colors.push(Color::Rgb(251, 73, 52));
        depth_colors.push(Color::Rgb(254, 128, 25));
        depth_colors.push(Color::Rgb(250, 189, 47));
        depth_colors.push(Color::Rgb(184, 187, 38));
        depth_colors.push(Color::Rgb(131, 165, 152));
        depth_colors.push(Color::Rgb(211, 134, 155));
        depth_colors.push(Color::Rgb(142, 192, 124));
        depth_colors.push(Color::Rgb(254, 128, 25));
        assert(depth_colors@ =~= seq![Color::Rgb(251, 73, 52), Color::Rgb(254, 128, 25), Color::Rgb(250, 189, 47), Color::Rgb(184, 187, 38), Color::Rgb(131, 165, 152), Color::Rgb(211, 134, 155), Color::Rgb(142, 192, 124), Color::Rgb(254, 128, 25)]);
        Theme {
            name: "Gruvbox".to_owned(),
            bg: Color::Rgb(40, 40, 40),
            fg: Color::Rgb(235, 219, 178),
            selection_bg: Color::Rgb(60, 56, 54),
            selection_fg: Color::Rgb(251, 241, 199),
            border_focused: Color::Rgb(254, 128, 25),
            border_unfocused: Color::Rgb(146, 131, 116),
            header_fg: Color::Rgb(184, 187, 38),
            depth_colors,
            byte_colors: ByteColors {
                null: Color::Rgb(146, 131, 116),
                ascii_printable: Color::Rgb(184, 187, 38),
                ascii_whitespace: Color::Rgb(250, 189, 47),
                ascii_other: Color::Rgb(131, 165, 152),
                non_ascii: Color::Rgb(251, 73, 52),
            },
            popup_border: Color::Rgb(254, 128, 25),
            popup_bg: Color::Rgb(40, 40, 40),
        }
    }

    pub fn one_dark() -> (r: Self)
        ensures
            is_one_dark(&r),
    {
        let mut depth_colors: Vec<Color> = Vec::new();
        depth_colors.push(Color::Rgb(224, 108, 117));
        depth_colors.push(Color::Rgb(209, 154, 102));
        depth_colors.push(Color::Rgb(229, 192, 123));
        depth_colors.push(Color::Rgb(152, 195, 121));
        depth_colors.push(Color::Rgb(86, 182, 194));
        depth_colors.push(Color::Rgb(97, 175, 239));
        depth_colors.push(Color::Rgb(198, 120, 221));
        depth_colors.push(Color::Rgb(224, 108, 117));
        assert(depth_colors@ =~= seq![Color::Rgb(224, 108, 117), Color::Rgb(209, 154, 102), Color::Rgb(229, 192, 123), Color::Rgb(152, 195, 121), Color::Rgb(86, 182, 194), Color::Rgb(97, 175, 239), Color::Rgb(198, 120, 221), Color::Rgb(224, 108, 117)]);
        Theme {
            name: "One Dark".to_owned(),
            bg: Color::Rgb(40, 44, 52),
            fg: Color::Rgb(171, 178, 191),
            selection_bg: Color::Rgb(62, 68, 81),
            selection_fg: Color::Rgb(220, 223, 228),
            border_focused: Color::Rgb(97, 175, 239),
            border_unfocused: Color::Rgb(92, 99, 112),
            header_fg: Color::Rgb(152, 195, 121),
            depth_colors,
            byte_colors: ByteColors {
                null: Color::Rgb(92, 99, 112),
                ascii_printable: Color::Rgb(152, 195, 121),
                ascii_whitespace: Color::Rgb(229, 192, 123),
                ascii_other: Color::Rgb(86, 182, 194),
                non_ascii: Color::Rgb(224, 108, 117),
            },
            popup_border: Color::Rgb(97, 175, 239),
            popup_bg: Color::Rgb(40, 44, 52),
        }
    }

    pub fn catppuccin() -> (r: Self)
        ensures
            is_catppuccin(&r),
    {
        let mut depth_colors: Vec<Color> = Vec::new();
        depth_colors.push(Color::Rgb(243, 139, 168));
        depth_colors.push(Color::Rgb(250, 179, 135));
        depth_colors.push(Color::Rgb(249, 226, 175));
        depth_colors.push(Color::Rgb(166, 227, 161));
        depth_colors.push(Color::Rgb(137, 220, 235));
        depth_colors.push(Color::Rgb(137, 180, 250));
        depth_colors.push(Color::Rgb(203, 166, 247));
        depth_colors.push(Color::Rgb(245, 194, 231));
        assert(depth_colors@ =~= seq![Color::Rgb(243, 139, 168), Color::Rgb(250, 179, 135), Color::Rgb(249, 226, 175), Color::Rgb(166, 227, 161), Color::Rgb(137, 220, 235), Color::Rgb(137, 180, 250), Color::Rgb(203, 166, 247), Color::Rgb(245, 194, 231)]);
        Theme {
            name: "Catppuccin".to_owned(),
            bg: Color::Rgb(30, 30, 46),
            fg: Color::Rgb(205, 214, 244),
            selection_bg: Color::Rgb(50, 50, 70),
            selection_fg: Color::Rgb(205, 214, 244),
            border_focused: Color::Rgb(137, 180, 250),
            border_unfocused: Color::Rgb(88, 91, 112),
            header_fg: Color::Rgb(166, 227, 161),
            depth_colors,
            byte_colors: ByteColors {
                null: Color::Rgb(88, 91, 112),
                ascii_printable: Color::Rgb(166, 227, 161),
                ascii_whitespace: Color::Rgb(249, 226, 175),
                ascii_other: Color::Rgb(137, 220, 235),
                non_ascii: Color::Rgb(243, 139, 168),
            },
            popup_border: Color::Rgb(137, 180, 250),
            popup_bg: Color::Rgb(30, 30, 46),
        }
    }

    pub fn github_light() -> (r: Self)
        ensures
            is_github_light(&r),
    {
        let mut depth_colors: Vec<Color> = Vec::new();
        depth_colors.push(Color::Rgb(207, 34, 46));
        depth_colors.push(Color::Rgb(188, 76, 0));
        depth_colors.push(Color::Rgb(191, 135, 0));
        depth_colors.push(Color::Rgb(26, 127, 55));
        depth_colors.push(Color::Rgb(9, 105, 218));
        depth_colors.push(Color::Rgb(130, 80, 223));
        depth_colors.push(Color::Rgb(207, 34, 46));
        depth_colors.push(Color::Rgb(188, 76, 0));
        assert(depth_colors@ =~= seq![Color::Rgb(207, 34, 46), Color::Rgb(188, 76, 0), Color::Rgb(191, 135, 0), Color::Rgb(26, 127, 55), Color::Rgb(9, 105, 218), Color::Rgb(130, 80, 223), Color::Rgb(207, 34, 46), Color::Rgb(188, 76, 0)]);
        Theme {
            name: "GitHub Light".to_owned(),
            bg: Color::Rgb(255, 255, 255),
            fg: Color::Rgb(36, 41, 47),
            selection_bg: Color::Rgb(235, 240, 244),
            selection_fg: Color::Rgb(36, 41, 47),
            border_focused: Color::Rgb(9, 105, 218),
            border_unfocused: Color::Rgb(175, 184, 193),
            header_fg: Color::Rgb(26, 127, 55),
            depth_colors,
            byte_colors: ByteColors {
                null: Color::Rgb(175, 184, 193),
                ascii_printable: Color::Rgb(26, 127, 55),
                ascii_whitespace: Color::Rgb(191, 135, 0),
                ascii_other: Color::Rgb(9, 105, 218),
                non_ascii: Color::Rgb(207, 34, 46),
            },
            popup_border: Color::Rgb(9, 105, 218),
            popup_bg: Color::Rgb(255, 255, 255),
        }
    }

    pub fn github_dark() -> (r: Self)
        ensures
            is_github_dark(&r),
    {
        let mut depth_colors: Vec<Color> = Vec::new();
        depth_colors.push(Color::Rgb(255, 123, 114));
        depth_colors.push(Color::Rgb(210, 153, 34));
        depth_colors.push(Color::Rgb(210, 153, 34));
        depth_colors.push(Color::Rgb(63, 185, 80));
        depth_colors.push(Color::Rgb(88, 166, 255));
        depth_colors.push(Color::Rgb(188, 139, 255));
        depth_colors.push(Color::Rgb(255, 123, 114));
        depth_colors.push(Color::Rgb(210, 153, 34));
        assert(depth_colors@ =~= seq![Color::Rgb(255, 123, 114), Color::Rgb(210, 153, 34), Color::Rgb(210, 153, 34), Color::Rgb(63, 185, 80), Color::Rgb(88, 166, 255), Color::Rgb(188, 139, 255), Color::Rgb(255, 123, 114), Color::Rgb(210, 153, 34)]);
        Theme {
            name: "GitHub Dark".to_owned(),
            bg: Color::Rgb(13, 17, 23),
            fg: Color::Rgb(201, 209, 217),
            selection_bg: Color::Rgb(22, 27, 34),
            selection_fg: Color::Rgb(240, 246, 252),
            border_focused: Color::Rgb(88, 166, 255),
            border_unfocused: Color::Rgb(48, 54, 61),
            header_fg: Color::Rgb(63, 185, 80),
            depth_colors,
            byte_colors: ByteColors {
                null: Color::Rgb(48, 54, 61),
                ascii_printable: Color::Rgb(63, 185, 80),
                ascii_whitespace: Color::Rgb(210, 153, 34),
                ascii_other: Color::Rgb(88, 166, 255),
                non_ascii: Color::Rgb(255, 123, 114),
            },
            popup_border: Color::Rgb(88, 166, 255),
            popup_bg: Color::Rgb(13, 17, 23),
        }
    }

    /// The theme of a known name, else the first theme.
    pub fn named(name: &str) -> (r: Self)
        ensures
            is_theme_named(&r, if theme_names().contains(name@) { name@ } else { theme_names()[0] }),
    {
        proof {
            reveal_strlit("Tokyo Night");
            reveal_strlit("Dracula");
            reveal_strlit("Solarized");
            reveal_strlit("Monokai");
            reveal_strlit("Nord");
            reveal_strlit("Gruvbox");
            reveal_strlit("One Dark");
            reveal_strlit("Catppuccin");
            reveal_strlit("GitHub Light");
            reveal_strlit("GitHub Dark");
            lemma_theme_names_contains(name@);
            assert("Tokyo Night"@[0] == 'T' && "Dracula"@[0] == 'D' && "Solarized"@[0] == 'S'
                && "Monokai"@[0] == 'M');
        }
        if same_text(name, "Dracula") {
            Theme::dracula()
        } else if same_text(name, "Solarized") {
            Theme::solarized()
        } else if same_text(name, "Monokai") {
            Theme::monokai()
        } else if same_text(name, "Nord") {
            Theme::nord()
        } else if same_text(name, "Gruvbox") {
            Theme::gruvbox()
        } else if same_text(name, "One Dark") {
            Theme::one_dark()
        } else if same_text(name, "Catppuccin") {
            Theme::catppuccin()
        } else if same_text(name, "GitHub Light") {
            Theme::github_light()
        } else if same_text(name, "GitHub Dark") {
            Theme::github_dark()
        } else {
            Theme::tokyo_night()
        }
    }

    /// The colour of a node `depth` levels from the selected one: the
    /// depth colours are walked backwards, and the first stands in for one
    /// that is missing.
    pub fn get_depth_color(&self, depth: usize) -> (r: Color)
        requires
            self.depth_colors@.len() > 0,
        ensures
            r == depth_color(self, depth as int),
    {
        self.depth_colors[depth_color_index(depth, self.depth_colors.len())]
    }
}

/// The colour of the nodes `depth` levels from the selected one.
pub open spec fn depth_color(t: &Theme, depth: int) -> Color {
    t.depth_colors@[depth_color_pos(depth, t.depth_colors@.len() as int)]
}

/// The colour of a byte of the kind `k`.
pub open spec fn kind_color(c: ByteColors, k: ByteType) -> Color {
    match k {
        ByteType::Null => c.null,
        ByteType::AsciiPrintable => c.ascii_printable,
        ByteType::AsciiWhitespace => c.ascii_whitespace,
        ByteType::AsciiOther => c.ascii_other,
        ByteType::NonAscii => c.non_ascii,
    }
}

/// The foreground and background of a byte in the hex view: coloured by
/// its kind, dimmed outside the zoomed range; a byte of a highlighted node
/// takes the colour of the node's depth (as its background in the text
/// column, on black); the cursor shows the selection colours swapped.
pub open spec fn cell_colors(
    t: &Theme,
    byte: u8,
    in_zoom: bool,
    highlight: Option<int>,
    is_cursor: bool,
    text_column: bool,
) -> (Color, Color) {
    if is_cursor {
        (t.selection_bg, t.selection_fg)
    } else {
        match highlight {
            Some(d) => if text_column {
                (Color::Black, depth_color(t, d))
            } else {
                (depth_color(t, d), t.bg)
            },
            None => (if in_zoom {
                kind_color(t.byte_colors, byte_type_of(byte))
            } else {
                t.byte_colors.null
            }, t.bg),
        }
    }
}

/// The foreground and background of a byte in the hex view (see
/// `cell_colors`).
pub fn byte_cell_colors(
    t: &Theme,
    byte: u8,
    in_zoom: bool,
    highlight: Option<usize>,
    is_cursor: bool,
    text_column: bool,
) -> (r: (Color, Color))
    requires
        highlight is Some ==> t.depth_colors@.len() > 0,
    ensures
        r == cell_colors(
            t,
            byte,
            in_zoom,
            match highlight {
                Some(d) => Some(d as int),
                None => None,
            },
            is_cursor,
            text_column,
        ),
{
    let base = if in_zoom {
        match get_byte_type(byte) {
            ByteType::Null => t.byte_colors.null,
            ByteType::AsciiPrintable => t.byte_colors.ascii_printable,
            ByteType::AsciiWhitespace => t.byte_colors.ascii_whitespace,
            ByteType::AsciiOther => t.byte_colors.ascii_other,
            ByteType::NonAscii => t.byte_colors.non_ascii,
        }
    } else {
        t.byte_colors.null
    };
    let mut fg = base;
    let mut bg = t.bg;
    if let Some(d) = highlight {
        if text_column {
            bg = t.get_depth_color(d);
            fg = Color::Black;
        } else {
            fg = t.get_depth_color(d);
        }
    }
    if is_cursor {
        bg = t.selection_fg;
        fg = t.selection_bg;
    }
    (fg, bg)
}

/// The depth of the first of `nodes` that covers byte `off`, if any: the
/// node whose colour a byte of the hex view takes.
pub fn highlight_depth(nodes: &Vec<&CborNode>, off: usize) -> (r: Option<usize>)
    ensures
        match r {
            Some(d) => exists|i: int|
                0 <= i < nodes@.len() && covers(#[trigger] refs_view(nodes@)[i], off as int)
                    && d == refs_view(nodes@)[i].depth && forall|j: int|
                    0 <= j < i ==> !covers(#[trigger] refs_view(nodes@)[j], off as int),
            None => forall|j: int| 0 <= j < nodes@.len() ==> !covers(#[trigger] refs_view(nodes@)[j], off as int),
        },
{
    let mut i: usize = 0;
    while i < nodes.len()
        invariant
            0 <= i <= nodes@.len(),
            forall|j: int| 0 <= j < i ==> !covers(#[trigger] refs_view(nodes@)[j], off as int),
        decreases nodes.len() - i,
    {
        let n = nodes[i];
        proof {
            assert(refs_view(nodes@)[i as int] == n@);
        }
        if n.range.start <= off && off < n.range.end {
            return Some(n.depth);
        }
        i += 1;
    }
    None
}

/// How a byte shows in the text column of the hex view: printable ASCII
/// and the space as themselves, anything else as a dot.
pub fn printable_char(byte: u8) -> (r: char)
    ensures
        r == if 0x20 <= byte <= 0x7E {
            byte as char
        } else {
            '.'
        },
{
    if 0x20 <= byte && byte <= 0x7E {
        byte as char
    } else {
        '.'
    }
}

impl Default for Theme {
    fn default() -> (r: Self)
        ensures
            is_tokyo_night(&r),
    {
        Theme::tokyo_night()
    }
}

} // verus!
