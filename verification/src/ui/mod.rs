//! What the user's input does to the application state.
pub mod notification;
pub mod tree;
pub mod hex;
pub mod search;
pub mod help;
pub mod theme;
pub mod details;
pub mod checks;
pub mod labels;

use vstd::prelude::*;
use crate::app::{
    App,
    Focus,
    PopupMode,
    focus_toggle_ok,
    focus_toggled,
    other_scan_mode,
    other_sort_mode,
    rescanned,
    scan_showable,
    tree_of,
    tree_view,
};
use crate::config::{KeyAction, key_action, resolve_key};
use crate::config_store::AppConfig;
use crate::input::{KeyCode, KeyEvent, MouseButton, MouseEvent, MouseEventKind, Rect};
use crate::scanner::{chunk_key, chunk_shapes, sort_by_key, ScanMode};
use crate::search::{search_done, search_fits};
use crate::zoom::{Zoomable, zoomed_in, zoomed_out};

verus! {

/// A key can be handled: the checks of the popup or view it goes to hold.
pub open spec fn input_ok(a: App, key: KeyEvent) -> bool {
    let action = key_action(key.code);
    match a.popups {
        PopupMode::ThemeSelect => theme::theme_key_ok(a, action),
        PopupMode::Help => true,
        PopupMode::Search | PopupMode::GotoOffset => search::input_key_ok(a, key.code),
        PopupMode::Closed => match action {
            KeyAction::Quit | KeyAction::Help | KeyAction::ToggleHexInt | KeyAction::ThemeSelect
            | KeyAction::Search | KeyAction::Goto | KeyAction::TogglePopup => true,
            KeyAction::SwitchFocus => focus_toggle_ok(a),
            KeyAction::Sort => a.wf(),
            KeyAction::Mode => scan_showable(a.raw_bytes@, other_scan_mode(a.scan_mode)),
            KeyAction::Zoom => a.zoom_toggle_ready(),
            KeyAction::Next => a.last_search_query matches Some(q) ==> search_fits(a, q@, true),
            KeyAction::Prev => a.last_search_query matches Some(q) ==> search_fits(a, q@, false),
            _ => match a.focus {
                Focus::Tree => tree::tree_key_ok(a, action),
                Focus::Hex => hex::hex_key_ok(a, action),
            },
        },
    }
}

/// What a key does, when no popup is open, for the commands that act
/// before the focused view: `b` is `a` after it.
pub open spec fn command_done(a: App, b: App, action: KeyAction) -> bool {
    match action {
        KeyAction::Quit => b == (App { should_quit: true, ..a }),
        KeyAction::SwitchFocus => b == focus_toggled(a),
        KeyAction::Help => b == (App { popups: PopupMode::Help, ..a }),
        KeyAction::Sort => {
            &&& b.sort_mode == other_sort_mode(a.sort_mode)
            &&& chunk_shapes(b.chunks@) == sort_by_key(
                chunk_shapes(a.chunks@),
                chunk_key(other_sort_mode(a.sort_mode) == crate::app::SortMode::Score),
            )
            &&& tree_view(b.tree) == tree_of(
                chunk_shapes(b.chunks@),
                a.scan_mode,
                b.sort_mode,
                a.raw_bytes@.len() as int,
            )
            &&& b == (App {
                sort_mode: b.sort_mode,
                chunks: b.chunks,
                tree: b.tree,
                tree_selected: 0,
                tree_offset: 0,
                ..a
            })
        },
        KeyAction::Mode => rescanned(App { scan_mode: other_scan_mode(a.scan_mode), ..a }, b),
        KeyAction::ToggleHexInt => b == (App {
            show_hex_integers: !a.show_hex_integers,
            config: AppConfig { show_hex_integers: !a.show_hex_integers, ..a.config },
            save_pending: true,
            ..a
        }),
        KeyAction::ThemeSelect => b == theme::theme_opened(a),
        KeyAction::Search => b.search_input@.len() == 0 && b == (App {
            popups: PopupMode::Search,
            search_input: b.search_input,
            search_cursor_position: 0,
            search_error: None,
            ..a
        }),
        KeyAction::Goto => b.search_input@.len() == 0 && b == (App {
            popups: PopupMode::GotoOffset,
            search_input: b.search_input,
            search_cursor_position: 0,
            search_error: None,
            ..a
        }),
        KeyAction::Next => match a.last_search_query {
            Some(q) => search_done(a, b, q@, true),
            None => b == a,
        },
        KeyAction::Prev => match a.last_search_query {
            Some(q) => search_done(a, b, q@, false),
            None => b == a,
        },
        KeyAction::TogglePopup => b == (App { show_popup: !a.show_popup, ..a }),
        KeyAction::Zoom => if a.is_zoomed {
            zoomed_out(a, b)
        } else {
            zoomed_in(a, b)
        },
        _ => match a.focus {
            Focus::Tree => tree::tree_key_done(a, b, action),
            Focus::Hex => hex::hex_key_done(a, b, action),
        },
    }
}

/// What a key does: `b` is `a` after `key`.
pub open spec fn input_done(a: App, b: App, key: KeyEvent) -> bool {
    match a.popups {
        PopupMode::ThemeSelect => match key_action(key.code) {
            KeyAction::Up => theme::theme_up_done(a, b),
            KeyAction::Down => theme::theme_down_done(a, b),
            KeyAction::Enter => theme::theme_confirmed(a, b),
            KeyAction::Esc => b == theme::theme_cancelled(a),
            _ => b == a,
        },
        PopupMode::Help => b == if key.code == KeyCode::Char('?') || key.code == KeyCode::Esc
            || key.code == KeyCode::Char('q') {
            App { popups: PopupMode::Closed, ..a }
        } else {
            a
        },
        PopupMode::Search | PopupMode::GotoOffset => search::input_key_done(a, b, key.code),
        PopupMode::Closed => command_done(a, b, key_action(key.code)),
    }
}

/// Sends a key to the popup that is open, else to the global commands,
/// else to the focused view.
pub fn handle_input(app: &mut App, key: KeyEvent)
    requires
        input_ok(*old(app), key),
    ensures
        input_done(*old(app), *final(app), key),
{
    match app.popups {
        PopupMode::ThemeSelect => theme::handle_input(app, key),
        PopupMode::Help => help::handle_input(app, key),
        PopupMode::Search | PopupMode::GotoOffset => search::handle_input(app, key),
        PopupMode::Closed => {
            match resolve_key(key) {
                KeyAction::Quit => {
                    app.should_quit = true;
                    return;
                },
                KeyAction::SwitchFocus => {
                    app.toggle_focus();
                    return;
                },
                KeyAction::Help => {
                    app.toggle_help();
                    return;
                },
                KeyAction::Sort => {
                    app.toggle_sort();
                    return;
                },
                KeyAction::Mode => {
                    app.toggle_scan_mode();
                    return;
                },
                KeyAction::Zoom => {
                    app.zoom_toggle();
                    return;
                },
                KeyAction::ToggleHexInt => {
                    app.toggle_hex_integers();
                    return;
                },
                KeyAction::ThemeSelect => {
                    theme::open(app);
                    return;
                },
                KeyAction::Search => {
                    app.open_search();
                    return;
                },
                KeyAction::Goto => {
                    app.open_goto();
                    return;
                },
                KeyAction::Next => {
                    app.find_next();
                    return;
                },
                KeyAction::Prev => {
                    app.find_previous();
                    return;
                },
                KeyAction::TogglePopup => {
                    app.toggle_popup();
                    return;
                },
                _ => {},
            }
            match app.focus {
                Focus::Tree => tree::handle_input(app, key),
                Focus::Hex => hex::handle_input(app, key),
            }
        },
    }
}

/// The cell lies in the rectangle.
pub open spec fn inside(area: Rect, x: u16, y: u16) -> bool {
    area.x <= x < area.x + area.width && area.y <= y < area.y + area.height
}

/// The test of a cell against a rectangle stays within `u16`.
pub open spec fn inside_ok(area: Rect, x: u16, y: u16) -> bool {
    &&& x >= area.x ==> area.x + area.width <= u16::MAX
    &&& (x >= area.x && x < area.x + area.width && y >= area.y) ==> area.y + area.height <= u16::MAX
}

pub fn mouse_is_inside(area: Rect, x: u16, y: u16) -> (r: bool)
    requires
        inside_ok(area, x, y),
    ensures
        r == inside(area, x, y),
{
    x >= area.x && x < area.x + area.width && y >= area.y && y < area.y + area.height
}

/// The mouse event can be handled: the rectangle tests, and the scroll in
/// the view it falls in, stay within bounds.
pub open spec fn mouse_ok(a: App, m: MouseEvent) -> bool {
    match m.kind {
        MouseEventKind::Down(MouseButton::Left) => {
            &&& inside_ok(a.tree_area, m.column, m.row)
            &&& !inside(a.tree_area, m.column, m.row) ==> inside_ok(a.hex_area, m.column, m.row)
        },
        MouseEventKind::ScrollDown => {
            &&& inside_ok(a.tree_area, m.column, m.row)
            &&& inside(a.tree_area, m.column, m.row) ==> (tree::tree_scroll_down_target(a) matches Some(s)
                ==> tree::move_ok(a, s))
            &&& !inside(a.tree_area, m.column, m.row) ==> inside_ok(a.hex_area, m.column, m.row)
            &&& (!inside(a.tree_area, m.column, m.row) && inside(a.hex_area, m.column, m.row)) ==> {
                &&& a.hex_selected + crate::config::BYTES_PER_ROW * crate::config::MOUSE_SCROLL_LINES_HEX
                    <= usize::MAX
                &&& hex::hex_move_ok(a, hex::hex_scroll_down_target(a), true)
            }
        },
        MouseEventKind::ScrollUp => {
            &&& inside_ok(a.tree_area, m.column, m.row)
            &&& inside(a.tree_area, m.column, m.row) ==> (tree::tree_scroll_up_target(a) matches Some(s)
                ==> tree::move_ok(a, s))
            &&& !inside(a.tree_area, m.column, m.row) ==> inside_ok(a.hex_area, m.column, m.row)
            &&& (!inside(a.tree_area, m.column, m.row) && inside(a.hex_area, m.column, m.row))
                ==> hex::hex_move_ok(a, hex::hex_scroll_up_target(a), true)
        },
        _ => true,
    }
}

/// What a mouse event does: `b` is `a` after `m`.
pub open spec fn mouse_done(a: App, b: App, mouse: MouseEvent) -> bool {
    match mouse.kind {
        MouseEventKind::Down(MouseButton::Left) => b == if inside(a.tree_area, mouse.column, mouse.row) {
            App { focus: Focus::Tree, ..a }
        } else if inside(a.hex_area, mouse.column, mouse.row) {
            App { focus: Focus::Hex, ..a }
        } else {
            a
        },
        MouseEventKind::ScrollDown => if inside(a.tree_area, mouse.column, mouse.row) {
            b == match tree::tree_scroll_down_target(a) {
                Some(s) => tree::moved_to(a, s),
                None => a,
            }
        } else if inside(a.hex_area, mouse.column, mouse.row) {
            hex::hex_moved(a, b, hex::hex_scroll_down_target(a), true)
        } else {
            b == a
        },
        MouseEventKind::ScrollUp => if inside(a.tree_area, mouse.column, mouse.row) {
            b == match tree::tree_scroll_up_target(a) {
                Some(s) => tree::moved_to(a, s),
                None => a,
            }
        } else if inside(a.hex_area, mouse.column, mouse.row) {
            hex::hex_moved(a, b, hex::hex_scroll_up_target(a), true)
        } else {
            b == a
        },
        _ => b == a,
    }
}

/// A left click focuses the view it falls in; the wheel moves the
/// selection of the view it falls in.
pub fn handle_mouse_input(app: &mut App, mouse: MouseEvent)
    requires
        mouse_ok(*old(app), mouse),
    ensures
        mouse_done(*old(app), *final(app), mouse),
{
    let x = mouse.column;
    let y = mouse.row;
    match mouse.kind {
        MouseEventKind::Down(MouseButton::Left) => {
            if mouse_is_inside(app.tree_area, x, y) {
                app.focus = Focus::Tree;
            } else if mouse_is_inside(app.hex_area, x, y) {
                app.focus = Focus::Hex;
            }
        },
        MouseEventKind::ScrollDown => {
            if mouse_is_inside(app.tree_area, x, y) {
                tree::handle_scroll_down(app);
            } else if mouse_is_inside(app.hex_area, x, y) {
                hex::handle_scroll_down(app);
            }
        },
        MouseEventKind::ScrollUp => {
            if mouse_is_inside(app.tree_area, x, y) {
                tree::handle_scroll_up(app);
            } else if mouse_is_inside(app.hex_area, x, y) {
                hex::handle_scroll_up(app);
            }
        },
        _ => {},
    }
}

/// Pressing the popup key twice gives back the state it started from.
pub proof fn law_popup_key_twice_is_identity(a: App, b: App, c: App)
    requires
        command_done(a, b, KeyAction::TogglePopup),
        command_done(b, c, KeyAction::TogglePopup),
    ensures
        c == a,
{
}

/// Pressing the hex/decimal key twice shows integers as before, and
/// leaves the setting as it was shown, to be saved.
pub proof fn law_hex_key_twice_restores_the_display(a: App, b: App, c: App)
    requires
        command_done(a, b, KeyAction::ToggleHexInt),
        command_done(b, c, KeyAction::ToggleHexInt),
    ensures
        c == (App {
            config: AppConfig { show_hex_integers: a.show_hex_integers, ..a.config },
            save_pending: true,
            ..a
        }),
{
}

/// With no popup open, `?` opens the help, and `?` in the help closes it
/// again: the state is the one it started from.
pub proof fn law_help_key_twice_is_identity(a: App, b: App, c: App, key: KeyEvent)
    requires
        a.popups == PopupMode::Closed,
        key.code == KeyCode::Char('?'),
        input_done(a, b, key),
        input_done(b, c, key),
    ensures
        c == a,
{
}

/// Switching the focus twice brings it back to the view it was on.
pub proof fn law_focus_key_twice_returns_to_the_view(a: App, b: App, c: App)
    requires
        command_done(a, b, KeyAction::SwitchFocus),
        command_done(b, c, KeyAction::SwitchFocus),
    ensures
        c.focus == a.focus,
{
}

/// Moving through the theme dialog keeps the theme that was in use when it
/// opened, and cancelling gives that theme back.
pub proof fn law_theme_dialog_cancel_restores_the_theme(a: App, b: App, c: App, key: KeyEvent)
    requires
        a.popups == PopupMode::ThemeSelect,
        a.original_theme is Some,
        key_action(key.code) == KeyAction::Up || key_action(key.code) == KeyAction::Down,
        input_done(a, b, key),
    ensures
        b.popups == PopupMode::ThemeSelect,
        b.original_theme == a.original_theme,
        theme::theme_cancelled(b).theme == a.original_theme->0,
        theme::theme_cancelled(b).popups == PopupMode::Closed,
{
}

/// Opening the theme dialog and cancelling at once changes nothing but
/// the dialog's selection.
pub proof fn law_theme_dialog_open_then_cancel(a: App)
    ensures
        theme::theme_cancelled(theme::theme_opened(a)) == (App {
            popups: PopupMode::Closed,
            original_theme: None,
            theme_index: theme::theme_opened(a).theme_index,
            ..a
        }),
{
}

} // verus!
