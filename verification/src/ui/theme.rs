//! The theme dialog: previewing, choosing and cancelling a colour theme.
use vstd::prelude::*;
use crate::app::App;
use crate::app::PopupMode;
use crate::config::{KeyAction, key_action, resolve_key};
use crate::config_store::AppConfig;
use crate::input::KeyEvent;

verus! {

/// The first position in `themes` holding `name`, if any.
pub open spec fn theme_position(themes: Seq<String>, name: Seq<char>) -> Option<int>
    decreases themes.len(),
{
    if themes.len() == 0 {
        None
    } else if themes[0]@ == name {
        Some(0)
    } else {
        match theme_position(themes.drop_first(), name) {
            Some(i) => Some(i + 1),
            None => None,
        }
    }
}

proof fn lemma_theme_position(themes: Seq<String>, name: Seq<char>, k: int)
    requires
        0 <= k <= themes.len(),
        forall|j: int| 0 <= j < k ==> (#[trigger] themes[j])@ != name,
    ensures
        theme_position(themes, name) == (match theme_position(themes.skip(k), name) {
            Some(i) => Some(i + k),
            None => None::<int>,
        }),
    decreases k,
{
    if k > 0 {
        let d = themes.drop_first();
        assert forall|j: int| 0 <= j < k - 1 implies (#[trigger] d[j])@ != name by {
            assert(d[j] == themes[j + 1]);
        }
        lemma_theme_position(d, name, k - 1);
        assert(d.skip(k - 1) =~= themes.skip(k));
    } else {
        assert(themes.skip(0) =~= themes);
    }
}

/// `a` with the theme dialog open on the theme in use, which it
/// remembers.
pub open spec fn theme_opened(a: App) -> App {
    App {
        original_theme: Some(a.theme),
        popups: PopupMode::ThemeSelect,
        theme_index: match theme_position(a.themes@, a.theme@) {
            Some(i) => i as usize,
            None => 0,
        },
        ..a
    }
}

/// Opens the theme dialog on the theme in use, remembering it.
pub fn open(app: &mut App)
    ensures
        *final(app) == theme_opened(*old(app)),
{
    app.original_theme = Some(app.theme.clone());
    app.popups = PopupMode::ThemeSelect;
    let n = app.themes.len();
    let mut k: usize = 0;
    let mut found = false;
    while k < n && !found
        invariant
            n == app.themes@.len(),
            0 <= k <= n,
            !found ==> forall|j: int| 0 <= j < k ==> (#[trigger] app.themes@[j])@ != app.theme@,
            found ==> k < n && theme_position(app.themes@, app.theme@) == Some(k as int),
        decreases n - k + if found {
            0int
        } else {
            1int
        },
    {
        if app.themes[k] == app.theme {
            proof {
                lemma_theme_position(app.themes@, app.theme@, k as int);
                assert(app.themes@.skip(k as int)[0] == app.themes@[k as int]);
            }
            found = true;
        } else {
            k += 1;
        }
    }
    if found {
        app.theme_index = k;
    } else {
        proof {
            lemma_theme_position(app.themes@, app.theme@, n as int);
        }
        app.theme_index = 0;
    }
}

/// `a` showing theme `index`, when there is one.
pub open spec fn applied(a: App, index: int) -> App {
    if index < a.themes@.len() {
        App { theme: a.themes@[index], theme_index: index as usize, ..a }
    } else {
        a
    }
}

/// Shows theme `index`, when there is one.
fn apply(app: &mut App, index: usize)
    ensures
        final(app).theme@ == applied(*old(app), index as int).theme@,
        *final(app) == (App { theme: final(app).theme, ..applied(*old(app), index as int) }),
{
    if index < app.themes.len() {
        app.theme = app.themes[index].clone();
        app.theme_index = index;
    }
}

/// `b` is `a` with the dialog's selection moved to `index` and that theme
/// shown.
pub open spec fn theme_shown(a: App, b: App, index: int) -> bool {
    &&& b.theme@ == applied(a, index).theme@
    &&& b == (App { theme: b.theme, ..applied(App { theme_index: index as usize, ..a }, index) })
}

/// `b` is `a` after the selection moves up, when it can.
pub open spec fn theme_up_done(a: App, b: App) -> bool {
    if a.theme_index > 0 {
        theme_shown(a, b, a.theme_index - 1)
    } else {
        b == a
    }
}

/// `b` is `a` after the selection moves down, when it can.
pub open spec fn theme_down_done(a: App, b: App) -> bool {
    if a.theme_index < a.themes@.len() - 1 {
        theme_shown(a, b, a.theme_index + 1)
    } else {
        b == a
    }
}

/// `b` is `a` after the theme shown is kept: recorded in the settings,
/// which are to be saved, and the dialog closed.
pub open spec fn theme_confirmed(a: App, b: App) -> bool {
    &&& b.config.theme@ == a.theme@
    &&& b == (App {
        config: AppConfig { theme: b.config.theme, ..a.config },
        save_pending: true,
        popups: PopupMode::Closed,
        original_theme: None,
        ..a
    })
}

/// `a` back on the theme in use when the dialog opened, with it closed.
pub open spec fn theme_cancelled(a: App) -> App {
    App {
        theme: match a.original_theme {
            Some(t) => t,
            None => a.theme,
        },
        popups: PopupMode::Closed,
        original_theme: None,
        ..a
    }
}

/// Moves the dialog's selection up and shows that theme.
fn move_up(app: &mut App)
    ensures
        theme_up_done(*old(app), *final(app)),
{
    if app.theme_index > 0 {
        app.theme_index -= 1;
        let i = app.theme_index;
        apply(app, i);
    }
}

/// Moves the dialog's selection down and shows that theme.
fn move_down(app: &mut App)
    requires
        old(app).themes@.len() > 0,
    ensures
        theme_down_done(*old(app), *final(app)),
{
    if app.theme_index < app.themes.len() - 1 {
        app.theme_index += 1;
        let i = app.theme_index;
        apply(app, i);
    }
}

/// Keeps the theme shown, records it in the settings and closes the dialog.
fn confirm(app: &mut App)
    ensures
        theme_confirmed(*old(app), *final(app)),
{
    app.config.theme = app.theme.clone();
    app.save_config();
    close(app);
}

/// Goes back to the theme in use when the dialog was opened, and closes it.
fn cancel(app: &mut App)
    ensures
        *final(app) == theme_cancelled(*old(app)),
{
    let original = app.original_theme.take();
    if let Some(t) = original {
        app.theme = t;
    }
    close(app);
}

fn close(app: &mut App)
    ensures
        *final(app) == (App { popups: PopupMode::Closed, original_theme: None, ..*old(app) }),
{
    app.popups = PopupMode::Closed;
    app.original_theme = None;
}

/// A key in the theme dialog can be handled: moving down needs a theme.
pub open spec fn theme_key_ok(a: App, action: KeyAction) -> bool {
    action == KeyAction::Down ==> a.themes@.len() > 0
}

/// The arrows move through the themes, showing each; `Enter` keeps the
/// theme shown and `Esc` goes back to the one in use before.
pub fn handle_input(app: &mut App, key: KeyEvent)
    requires
        theme_key_ok(*old(app), key_action(key.code)),
    ensures
        match key_action(key.code) {
            KeyAction::Up => theme_up_done(*old(app), *final(app)),
            KeyAction::Down => theme_down_done(*old(app), *final(app)),
            KeyAction::Enter => theme_confirmed(*old(app), *final(app)),
            KeyAction::Esc => *final(app) == theme_cancelled(*old(app)),
            _ => *final(app) == *old(app),
        },
{
    match resolve_key(key) {
        KeyAction::Up => move_up(app),
        KeyAction::Down => move_down(app),
        KeyAction::Enter => confirm(app),
        KeyAction::Esc => cancel(app),
        _ => {},
    }
}

} // verus!
