//! A terminal in a web page: the keys it reports, by the names the page
//! gives them, and the escape sequences that draw the screen's cells.
use vstd::prelude::*;
use crate::app::App;
use crate::input::{KeyCode, KeyEvent, KeyModifiers};
use crate::text::{decimal, push_decimal, same_text, str_chars};
use crate::theme::Color;
use crate::ui::{input_done, input_ok};

verus! {

/// The key that a web page names `name`, if the application knows it: the
/// names of the special keys, or a name of one byte (one ASCII character),
/// which is the character typed.
pub open spec fn named_key(name: Seq<char>) -> Option<KeyCode> {
    if name == "Enter"@ {
        Some(KeyCode::Enter)
    } else if name == "Backspace"@ {
        Some(KeyCode::Backspace)
    } else if name == "ArrowUp"@ {
        Some(KeyCode::Up)
    } else if name == "ArrowDown"@ {
        Some(KeyCode::Down)
    } else if name == "ArrowLeft"@ {
        Some(KeyCode::Left)
    } else if name == "ArrowRight"@ {
        Some(KeyCode::Right)
    } else if name == "Tab"@ {
        Some(KeyCode::Tab)
    } else if name == "Delete"@ {
        Some(KeyCode::Delete)
    } else if name == "Home"@ {
        Some(KeyCode::Home)
    } else if name == "End"@ {
        Some(KeyCode::End)
    } else if name == "PageUp"@ {
        Some(KeyCode::PageUp)
    } else if name == "PageDown"@ {
        Some(KeyCode::PageDown)
    } else if name == "Escape"@ {
        Some(KeyCode::Esc)
    } else if name == " "@ {
        Some(KeyCode::Char(' '))
    } else if name.len() == 1 && (name[0] as u32) < 0x80 {
        Some(KeyCode::Char(name[0]))
    } else {
        None
    }
}

/// The modifier bits of a key press with Control, Alt and Shift held as
/// given.
pub open spec fn held_modifiers(ctrl: bool, alt: bool, shift: bool) -> u8 {
    ((if ctrl { 2u8 } else { 0u8 }) + (if alt { 4u8 } else { 0u8 }) + (if shift { 1u8 } else { 0u8 })) as u8
}

/// The key press that a web page reports, if the application knows its key.
pub open spec fn named_key_event(name: Seq<char>, ctrl: bool, alt: bool, shift: bool) -> Option<KeyEvent> {
    match named_key(name) {
        Some(code) => Some(KeyEvent { code, modifiers: KeyModifiers { bits: held_modifiers(ctrl, alt, shift) } }),
        None => None,
    }
}

/// The key that a web page names `name`, if the application knows it.
pub fn key_from_name(name: &str) -> (r: Option<KeyCode>)
    ensures
        r == named_key(name@),
{
    if same_text(name, "Enter") {
        Some(KeyCode::Enter)
    } else if same_text(name, "Backspace") {
        Some(KeyCode::Backspace)
    } else if same_text(name, "ArrowUp") {
        Some(KeyCode::Up)
    } else if same_text(name, "ArrowDown") {
        Some(KeyCode::Down)
    } else if same_text(name, "ArrowLeft") {
        Some(KeyCode::Left)
    } else if same_text(name, "ArrowRight") {
        Some(KeyCode::Right)
    } else if same_text(name, "Tab") {
        Some(KeyCode::Tab)
    } else if same_text(name, "Delete") {
        Some(KeyCode::Delete)
    } else if same_text(name, "Home") {
        Some(KeyCode::Home)
    } else if same_text(name, "End") {
        Some(KeyCode::End)
    } else if same_text(name, "PageUp") {
        Some(KeyCode::PageUp)
    } else if same_text(name, "PageDown") {
        Some(KeyCode::PageDown)
    } else if same_text(name, "Escape") {
        Some(KeyCode::Esc)
    } else if same_text(name, " ") {
        Some(KeyCode::Char(' '))
    } else {
        let cs = str_chars(name);
        if cs.len() == 1 && (cs[0] as u32) < 0x80 {
            Some(KeyCode::Char(cs[0]))
        } else {
            None
        }
    }
}

/// The key press that a web page reports, if the application knows its key.
pub fn key_event_from_name(name: &str, ctrl: bool, alt: bool, shift: bool) -> (r: Option<KeyEvent>)
    ensures
        r == named_key_event(name@, ctrl, alt, shift),
{
    let code = match key_from_name(name) {
        Some(c) => c,
        None => return None,
    };
    let ctrl_bit: u8 = if ctrl { 2 } else { 0 };
    let alt_bit: u8 = if alt { 4 } else { 0 };
    let shift_bit: u8 = if shift { 1 } else { 0 };
    let modifiers = KeyModifiers { bits: ctrl_bit + alt_bit + shift_bit };
    Some(KeyEvent { code, modifiers })
}

/// Hands a key press reported by a web page to the application: a key it
/// does not know is ignored, and one it knows is handled where it can be.
/// Tells whether the state was handed the key.
pub fn on_key(app: &mut App, name: &str, ctrl: bool, alt: bool, shift: bool) -> (r: bool)
    ensures
        match named_key_event(name@, ctrl, alt, shift) {
            Some(event) => {
                &&& r == input_ok(*old(app), event)
                &&& r ==> input_done(*old(app), *final(app), event)
                &&& !r ==> *final(app) == *old(app)
            },
            None => !r && *final(app) == *old(app),
        },
{
    match key_event_from_name(name, ctrl, alt, shift) {
        Some(event) => crate::ui::checks::handle_input_checked(app, event),
        None => false,
    }
}

/// The start of a terminal control sequence: escape, then `[`.
pub open spec fn csi() -> Seq<char> {
    seq!['\x1b', '[']
}

/// A colour sequence for the text (`3`, `9` or `38`) or its background
/// (`4`, `10` or `48`).
pub open spec fn color_prefix(bg: bool, bright: bool) -> Seq<char> {
    if bright {
        if bg {
            seq!['1', '0']
        } else {
            seq!['9']
        }
    } else if bg {
        seq!['4']
    } else {
        seq!['3']
    }
}

/// The sequence that selects a named colour `n` (`0` to `7`) of the normal
/// or bright set.
pub open spec fn named_color_code(bg: bool, bright: bool, n: char) -> Seq<char> {
    csi() + color_prefix(bg, bright) + seq![n, 'm']
}

/// The sequence that selects colour `c` for the text, or with `bg` for its
/// background; none for the terminal's default, which a reset restores.
pub open spec fn color_code(c: Color, bg: bool) -> Seq<char> {
    let ext = if bg {
        seq!['4', '8']
    } else {
        seq!['3', '8']
    };
    match c {
        Color::Reset => Seq::empty(),
        Color::Black => named_color_code(bg, false, '0'),
        Color::Red => named_color_code(bg, false, '1'),
        Color::Green => named_color_code(bg, false, '2'),
        Color::Yellow => named_color_code(bg, false, '3'),
        Color::Blue => named_color_code(bg, false, '4'),
        Color::Magenta => named_color_code(bg, false, '5'),
        Color::Cyan => named_color_code(bg, false, '6'),
        Color::Gray => named_color_code(bg, false, '7'),
        Color::DarkGray => named_color_code(bg, true, '0'),
        Color::LightRed => named_color_code(bg, true, '1'),
        Color::LightGreen => named_color_code(bg, true, '2'),
        Color::LightYellow => named_color_code(bg, true, '3'),
        Color::LightBlue => named_color_code(bg, true, '4'),
        Color::LightMagenta => named_color_code(bg, true, '5'),
        Color::LightCyan => named_color_code(bg, true, '6'),
        Color::White => named_color_code(bg, true, '7'),
        Color::Rgb(r, g, b) => csi() + ext + seq![';', '2', ';'] + decimal(r as nat) + seq![';'] + decimal(
            g as nat,
        ) + seq![';'] + decimal(b as nat) + seq!['m'],
        Color::Indexed(i) => csi() + ext + seq![';', '5', ';'] + decimal(i as nat) + seq!['m'],
    }
}

fn push_csi(buffer: &mut String)
    ensures
        final(buffer)@ == old(buffer)@ + csi(),
{
    buffer.push('\x1b');
    buffer.push('[');
    assert(old(buffer)@.push('\x1b').push('[') =~= old(buffer)@ + csi());
}

fn push_named_color(buffer: &mut String, bg: bool, bright: bool, n: char)
    ensures
        final(buffer)@ == old(buffer)@ + named_color_code(bg, bright, n),
{
    let ghost start = buffer@;
    push_csi(buffer);
    if bright {
        if bg {
            buffer.push('1');
            buffer.push('0');
        } else {
            buffer.push('9');
        }
    } else if bg {
        buffer.push('4');
    } else {
        buffer.push('3');
    }
    buffer.push(n);
    buffer.push('m');
    assert(buffer@ =~= start + named_color_code(bg, bright, n));
}

/// Appends the sequence that selects colour `color` for the text, or with
/// `is_bg` for its background.
pub fn write_color(buffer: &mut String, color: Color, is_bg: bool)
    ensures
        final(buffer)@ == old(buffer)@ + color_code(color, is_bg),
{
    let ghost start = buffer@;
    match color {
        Color::Reset => {
            assert(buffer@ =~= start + color_code(color, is_bg));
        },
        Color::Black => push_named_color(buffer, is_bg, false, '0'),
        Color::Red => push_named_color(buffer, is_bg, false, '1'),
        Color::Green => push_named_color(buffer, is_bg, false, '2'),
        Color::Yellow => push_named_color(buffer, is_bg, false, '3'),
        Color::Blue => push_named_color(buffer, is_bg, false, '4'),
        Color::Magenta => push_named_color(buffer, is_bg, false, '5'),
        Color::Cyan => push_named_color(buffer, is_bg, false, '6'),
        Color::Gray => push_named_color(buffer, is_bg, false, '7'),
        Color::DarkGray => push_named_color(buffer, is_bg, true, '0'),
        Color::LightRed => push_named_color(buffer, is_bg, true, '1'),
        Color::LightGreen => push_named_color(buffer, is_bg, true, '2'),
        Color::LightYellow => push_named_color(buffer, is_bg, true, '3'),
        Color::LightBlue => push_named_color(buffer, is_bg, true, '4'),
        Color::LightMagenta => push_named_color(buffer, is_bg, true, '5'),
        Color::LightCyan => push_named_color(buffer, is_bg, true, '6'),
        Color::White => push_named_color(buffer, is_bg, true, '7'),
        Color::Rgb(r, g, b) => {
            push_csi(buffer);
            if is_bg {
                buffer.push('4');
            } else {
                buffer.push('3');
            }
            buffer.push('8');
            buffer.push(';');
            buffer.push('2');
            buffer.push(';');
            push_decimal(buffer, r as u128);
            buffer.push(';');
            push_decimal(buffer, g as u128);
            buffer.push(';');
            push_decimal(buffer, b as u128);
            buffer.push('m');
            assert(buffer@ =~= start + color_code(color, is_bg));
        },
        Color::Indexed(i) => {
            push_csi(buffer);
            if is_bg {
                buffer.push('4');
            } else {
                buffer.push('3');
            }
            buffer.push('8');
            buffer.push(';');
            buffer.push('5');
            buffer.push(';');
            push_decimal(buffer, i as u128);
            buffer.push('m');
            assert(buffer@ =~= start + color_code(color, is_bg));
        },
    }
}

/// One cell of the screen: where it is, what it shows and how.
pub struct TermCell {
    pub x: u16,
    pub y: u16,
    pub symbol: String,
    pub fg: Color,
    pub bg: Color,
    pub bold: bool,
    pub underlined: bool,
    pub reversed: bool,
}

/// The sequence that moves the cursor to column `x`, row `y` (counted
/// from zero).
pub open spec fn move_code(x: int, y: int) -> Seq<char> {
    csi() + decimal((y + 1) as nat) + seq![';'] + decimal((x + 1) as nat) + seq!['H']
}

/// `csi() + [d, 'm']` when `on`, else nothing.
pub open spec fn attribute_code(on: bool, d: char) -> Seq<char> {
    if on {
        csi() + seq![d, 'm']
    } else {
        Seq::empty()
    }
}

/// What a cell writes after the cursor is in place: a reset, its colours,
/// bold, underline and reverse where set, then its symbol.
pub open spec fn cell_code(c: TermCell) -> Seq<char> {
    csi() + seq!['0', 'm'] + color_code(c.fg, false) + color_code(c.bg, true) + attribute_code(c.bold, '1')
        + attribute_code(c.underlined, '4') + attribute_code(c.reversed, '7') + c.symbol@
}

/// What a run of cells writes, the cursor having been left after column
/// `last_x` of row `last_y` (when `moved`): a cell that does not follow the
/// one before on its row moves the cursor first.
pub open spec fn cells_code(cells: Seq<TermCell>, last_x: int, last_y: int, moved: bool) -> Seq<char>
    decreases cells.len(),
{
    if cells.len() == 0 {
        Seq::empty()
    } else {
        let c = cells[0];
        let jump = c.y != last_y || c.x != last_x + 1 || !moved;
        (if jump {
            move_code(c.x as int, c.y as int)
        } else {
            Seq::empty()
        }) + cell_code(c) + cells_code(cells.drop_first(), c.x as int, c.y as int, true)
    }
}

/// Appends the sequence that moves the cursor to column `x`, row `y`.
pub fn write_cursor_position(buffer: &mut String, x: u16, y: u16)
    ensures
        final(buffer)@ == old(buffer)@ + move_code(x as int, y as int),
{
    let ghost start = buffer@;
    push_csi(buffer);
    push_decimal(buffer, y as u128 + 1);
    buffer.push(';');
    push_decimal(buffer, x as u128 + 1);
    buffer.push('H');
    assert(buffer@ =~= start + move_code(x as int, y as int));
}

fn write_attribute(buffer: &mut String, on: bool, d: char)
    ensures
        final(buffer)@ == old(buffer)@ + attribute_code(on, d),
{
    let ghost start = buffer@;
    if on {
        push_csi(buffer);
        buffer.push(d);
        buffer.push('m');
    }
    assert(buffer@ =~= start + attribute_code(on, d));
}

fn write_cell(buffer: &mut String, c: &TermCell)
    ensures
        final(buffer)@ == old(buffer)@ + cell_code(*c),
{
    let ghost start = buffer@;
    push_csi(buffer);
    buffer.push('0');
    buffer.push('m');
    write_color(buffer, c.fg, false);
    write_color(buffer, c.bg, true);
    write_attribute(buffer, c.bold, '1');
    write_attribute(buffer, c.underlined, '4');
    write_attribute(buffer, c.reversed, '7');
    buffer.push_str(c.symbol.as_str());
    assert(buffer@ =~= start + cell_code(*c));
}

/// Appends what drawing `cells` writes to a terminal, in order.
pub fn draw_cells(buffer: &mut String, cells: &Vec<TermCell>)
    ensures
        final(buffer)@ == old(buffer)@ + cells_code(cells@, 0, 0, false),
{
    let ghost start = buffer@;
    let mut last_x: u16 = 0;
    let mut last_y: u16 = 0;
    let mut moved = false;
    let mut i: usize = 0;
    assert(cells@.skip(0) =~= cells@);
    while i < cells.len()
        invariant
            0 <= i <= cells@.len(),
            start + cells_code(cells@, 0, 0, false) == buffer@ + cells_code(
                cells@.skip(i as int),
                last_x as int,
                last_y as int,
                moved,
            ),
        decreases cells.len() - i,
    {
        let c = &cells[i];
        let ghost before = buffer@;
        let ghost rest = cells@.skip(i as int);
        assert(rest[0] == *c);
        assert(rest.drop_first() =~= cells@.skip(i + 1));
        let jump = c.y != last_y || (c.x as u32) != (last_x as u32) + 1 || !moved;
        if jump {
            write_cursor_position(buffer, c.x, c.y);
            moved = true;
        }
        last_x = c.x;
        last_y = c.y;
        write_cell(buffer, c);
        proof {
            let head = if jump {
                move_code(c.x as int, c.y as int)
            } else {
                Seq::empty()
            };
            assert(buffer@ =~= before + head + cell_code(*c));
            assert(before + (head + cell_code(*c) + cells_code(cells@.skip(i + 1), c.x as int, c.y as int, true))
                =~= buffer@ + cells_code(cells@.skip(i + 1), c.x as int, c.y as int, true));
        }
        i += 1;
    }
    assert(cells@.skip(i as int) =~= Seq::<TermCell>::empty());
    assert(buffer@ =~= start + cells_code(cells@, 0, 0, false));
}

} // verus!
