//! Keys while the help overlay is shown.
use vstd::prelude::*;
use crate::app::{App, PopupMode};
use crate::input::{KeyCode, KeyEvent};

verus! {

/// `?`, `Esc` or `q` closes the help overlay; other keys do nothing.
pub fn handle_input(app: &mut App, key: KeyEvent)
    ensures
        *final(app) == if key.code == KeyCode::Char('?') || key.code == KeyCode::Esc || key.code
            == KeyCode::Char('q') {
            App {
                popups: if old(app).popups == PopupMode::Help {
                    PopupMode::Closed
                } else {
                    PopupMode::Help
                },
                ..*old(app)
            }
        } else {
            *old(app)
        },
{
    match key.code {
        KeyCode::Char('?') | KeyCode::Esc | KeyCode::Char('q') => {
            app.toggle_help();
        },
        _ => {},
    }
}

} // verus!
