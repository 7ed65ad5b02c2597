//! Layout constants, score thresholds and the key bindings.
use vstd::prelude::*;
use crate::input::{KeyCode, KeyEvent};

verus! {

/// Chunk scores from which a chunk is rated by confidence.
pub const CONFIDENCE_HIGH: usize = 500;
pub const CONFIDENCE_MEDIUM: usize = 300;
pub const CONFIDENCE_LOW: usize = 100;

pub const BYTES_PER_ROW: usize = 16;
pub const LAYOUT_SPLIT_PERCENT: u16 = 30;
/// The top and bottom borders of a framed view.
pub const BORDER_HEIGHT_ADJUSTMENT: usize = 2;
pub const POPUP_MAX_WIDTH: u16 = 50;
pub const POPUP_MAX_HEIGHT: u16 = 20;

pub const MOUSE_SCROLL_LINES_HEX: usize = 1;
pub const MOUSE_SCROLL_LINES_TREE: usize = 1;

/// What a key press asks for.
#[derive(Debug, Clone, Copy, PartialEq, Eq, Structural)]
pub enum KeyAction {
    Quit,
    Help,
    SwitchFocus,
    ToggleHexInt,
    ThemeSelect,
    Search,
    Goto,
    Next,
    Prev,
    /// Shows or hides the details popup.
    TogglePopup,
    Sort,
    Mode,
    Zoom,
    Up,
    Down,
    Left,
    Right,
    Top,
    Bottom,
    PageUp,
    PageDown,
    Expand,
    ExpandAll,
    CollapseAll,
    Enter,
    Esc,
    Backspace,
    Char(char),
    NoAction,
}

/// The action a key press asks for. The bindings are tried in this order
/// and the first that holds the key decides; a character bound to nothing
/// types itself, and any other key does nothing. Space, like `Enter`, opens
/// or closes the selected node; no key shows or hides the details popup.
pub open spec fn key_action(code: KeyCode) -> KeyAction {
    if code == KeyCode::Enter {
        KeyAction::Enter
    } else if code == KeyCode::Esc {
        KeyAction::Esc
    } else if code == KeyCode::Char('q') {
        KeyAction::Quit
    } else if code == KeyCode::Char('?') {
        KeyAction::Help
    } else if code == KeyCode::Tab {
        KeyAction::SwitchFocus
    } else if code == KeyCode::Char('x') {
        KeyAction::ToggleHexInt
    } else if code == KeyCode::Char('t') {
        KeyAction::ThemeSelect
    } else if code == KeyCode::Char('/') {
        KeyAction::Search
    } else if code == KeyCode::Char(':') {
        KeyAction::Goto
    } else if code == KeyCode::Char('n') {
        KeyAction::Next
    } else if code == KeyCode::Char('N') {
        KeyAction::Prev
    } else if code == KeyCode::Char(' ') {
        KeyAction::Expand
    } else if code == KeyCode::Char('s') {
        KeyAction::Sort
    } else if code == KeyCode::Char('m') {
        KeyAction::Mode
    } else if code == KeyCode::Char('z') {
        KeyAction::Zoom
    } else if code == KeyCode::Up || code == KeyCode::Char('k') {
        KeyAction::Up
    } else if code == KeyCode::Down || code == KeyCode::Char('j') {
        KeyAction::Down
    } else if code == KeyCode::Left || code == KeyCode::Char('h') {
        KeyAction::Left
    } else if code == KeyCode::Right || code == KeyCode::Char('l') {
        KeyAction::Right
    } else if code == KeyCode::Home || code == KeyCode::Char('g') {
        KeyAction::Top
    } else if code == KeyCode::End || code == KeyCode::Char('G') {
        KeyAction::Bottom
    } else if code == KeyCode::PageUp {
        KeyAction::PageUp
    } else if code == KeyCode::PageDown {
        KeyAction::PageDown
    } else if code == KeyCode::Enter || code == KeyCode::Right {
        KeyAction::Expand
    } else if code == KeyCode::Char('e') {
        KeyAction::ExpandAll
    } else if code == KeyCode::Char('c') {
        KeyAction::CollapseAll
    } else if code == KeyCode::Backspace {
        KeyAction::Backspace
    } else {
        match code {
            KeyCode::Char(c) => KeyAction::Char(c),
            _ => KeyAction::NoAction,
        }
    }
}

pub fn resolve_key(key: KeyEvent) -> (r: KeyAction)
    ensures
        r == key_action(key.code),
{
    let code = key.code;
    let r = match code {
        KeyCode::Enter => KeyAction::Enter,
        KeyCode::Esc => KeyAction::Esc,
        KeyCode::Char('q') => KeyAction::Quit,
        KeyCode::Char('?') => KeyAction::Help,
        KeyCode::Tab => KeyAction::SwitchFocus,
        KeyCode::Char('x') => KeyAction::ToggleHexInt,
        KeyCode::Char('t') => KeyAction::ThemeSelect,
        KeyCode::Char('/') => KeyAction::Search,
        KeyCode::Char(':') => KeyAction::Goto,
        KeyCode::Char('n') => KeyAction::Next,
        KeyCode::Char('N') => KeyAction::Prev,
        KeyCode::Char(' ') => KeyAction::Expand,
        KeyCode::Char('s') => KeyAction::Sort,
        KeyCode::Char('m') => KeyAction::Mode,
        KeyCode::Char('z') => KeyAction::Zoom,
        KeyCode::Up | KeyCode::Char('k') => KeyAction::Up,
        KeyCode::Down | KeyCode::Char('j') => KeyAction::Down,
        KeyCode::Left | KeyCode::Char('h') => KeyAction::Left,
        KeyCode::Right | KeyCode::Char('l') => KeyAction::Right,
        KeyCode::Home | KeyCode::Char('g') => KeyAction::Top,
        KeyCode::End | KeyCode::Char('G') => KeyAction::Bottom,
        KeyCode::PageUp => KeyAction::PageUp,
        KeyCode::PageDown => KeyAction::PageDown,
        KeyCode::Char('e') => KeyAction::ExpandAll,
        KeyCode::Char('c') => KeyAction::CollapseAll,
        KeyCode::Backspace => KeyAction::Backspace,
        KeyCode::Char(c) => KeyAction::Char(c),
        _ => KeyAction::NoAction,
    };
    r
}

} // verus!
