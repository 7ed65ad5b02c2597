//! Keys in the search and offset inputs.
use vstd::prelude::*;
use crate::app::{App, PopupMode, char_deleted, char_entered, cursor_left, cursor_right, in_text_popup};
use crate::input::{KeyCode, KeyEvent};
use crate::search::{goto_fits, goto_submitted, in_text_popup_mode, search_fits, search_submitted};
use vstd::utf8::{encode_utf8, is_char_boundary};

verus! {

/// A key in an input popup can be handled without a panic or overflow.
pub open spec fn input_key_ok(a: App, code: KeyCode) -> bool {
    match code {
        KeyCode::Enter => {
            &&& (a.popups == PopupMode::Search && a.search_input@.len() > 0 ==> search_fits(
                a,
                a.search_input@,
                true,
            ))
            &&& (a.popups == PopupMode::GotoOffset && a.search_input@.len() > 0 ==> goto_fits(a))
        },
        KeyCode::Backspace => in_text_popup(a.popups) && a.search_cursor_position > 0 ==> {
            &&& a.search_cursor_position - 1 < encode_utf8(a.search_input@).len()
            &&& is_char_boundary(encode_utf8(a.search_input@), a.search_cursor_position - 1)
        },
        KeyCode::Char(_) => in_text_popup(a.popups) ==> is_char_boundary(
            encode_utf8(a.search_input@),
            a.search_cursor_position as int,
        ) && a.search_cursor_position < usize::MAX,
        _ => true,
    }
}

/// What a key does in an input popup.
pub open spec fn input_key_done(a: App, b: App, code: KeyCode) -> bool {
    match code {
        KeyCode::Esc => b == (App { popups: PopupMode::Closed, search_error: None, ..a }),
        KeyCode::Enter => {
            &&& (a.popups == PopupMode::Search ==> search_submitted(a, b))
            &&& (a.popups == PopupMode::GotoOffset ==> goto_submitted(a, b))
            &&& (!in_text_popup_mode(a.popups) ==> b == a)
        },
        KeyCode::Backspace => char_deleted(a, b),
        KeyCode::Left => b == cursor_left(a),
        KeyCode::Right => b == cursor_right(a),
        KeyCode::Char(c) => char_entered(a, b, c),
        _ => b == a,
    }
}

/// Edits or submits the input: `Esc` closes it, `Enter` submits it,
/// `Backspace` deletes, the arrows move the cursor, a character is typed.
pub fn handle_input(app: &mut App, key: KeyEvent)
    requires
        input_key_ok(*old(app), key.code),
    ensures
        input_key_done(*old(app), *final(app), key.code),
{
    match key.code {
        KeyCode::Esc => app.close_popup(),
        KeyCode::Enter => app.submit_input(),
        KeyCode::Backspace => app.delete_char(),
        KeyCode::Left => app.move_cursor_left(),
        KeyCode::Right => app.move_cursor_right(),
        KeyCode::Char(c) => app.enter_char(c),
        _ => {},
    }
}

} // verus!
