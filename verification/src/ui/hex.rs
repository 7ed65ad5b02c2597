//! Keys and mouse wheel in the hex view.
use vstd::prelude::*;
use crate::app::{
    App,
    hex_scroll_ok,
    hex_scrolled,
    hex_synced,
    lemma_hex_synced_selection,
    sat_sub,
    synced_selection,
    tree_scroll_fits,
    tree_scrolled,
    tree_view,
};
use crate::cbor_tree::NodeView;
use crate::config::{BYTES_PER_ROW, KeyAction, MOUSE_SCROLL_LINES_HEX, key_action, resolve_key};
use crate::input::KeyEvent;

verus! {

/// The last byte offset, or zero.
pub open spec fn last_byte(a: App) -> int {
    sat_sub(a.raw_bytes@.len() as int, 1)
}

/// The smaller of two numbers.
pub open spec fn min_int(x: int, y: int) -> int {
    if x < y {
        x
    } else {
        y
    }
}

/// Where a key moves the hex cursor, and whether the view then scrolls to
/// it (the top key scrolls to the start instead); `None` when the key does
/// not move it.
pub open spec fn hex_key_target(a: App, action: KeyAction) -> Option<(int, bool)> {
    let hs = a.hex_selected as int;
    let page = sat_sub(a.visible_hex_height as int, 2) * BYTES_PER_ROW;
    match action {
        KeyAction::Up => Some((sat_sub(hs, BYTES_PER_ROW as int), true)),
        KeyAction::Down => Some((min_int(hs + BYTES_PER_ROW, last_byte(a)), true)),
        KeyAction::Left => if hs > 0 {
            Some((hs - 1, true))
        } else {
            None
        },
        KeyAction::Right => if hs < last_byte(a) {
            Some((hs + 1, true))
        } else {
            None
        },
        KeyAction::Top => Some((0, false)),
        KeyAction::Bottom => Some((last_byte(a), true)),
        KeyAction::PageUp => Some((sat_sub(sat_sub(hs, page), page), true)),
        KeyAction::PageDown => Some(
            (min_int(min_int(hs + page, last_byte(a)) + page, last_byte(a)), true),
        ),
        _ => None,
    }
}

/// `a` with the hex cursor at `hs`, scrolled to it (or to the start).
pub open spec fn hex_placed(a: App, hs: int, scroll: bool) -> App {
    if scroll {
        hex_scrolled(App { hex_selected: hs as usize, ..a })
    } else {
        App { hex_selected: hs as usize, hex_offset: 0, ..a }
    }
}

/// The move can be computed and followed without overflow.
pub open spec fn hex_key_ok(a: App, action: KeyAction) -> bool {
    let hs = a.hex_selected as int;
    let page = sat_sub(a.visible_hex_height as int, 2) * BYTES_PER_ROW;
    &&& (action == KeyAction::Down ==> hs + BYTES_PER_ROW <= usize::MAX)
    &&& (action == KeyAction::PageUp || action == KeyAction::PageDown ==> page <= usize::MAX)
    &&& (action == KeyAction::PageDown ==> hs + page <= usize::MAX && min_int(hs + page, last_byte(a))
        + page <= usize::MAX)
    &&& (hex_key_target(a, action) matches Some((hs2, scroll)) ==> hex_move_ok(a, hs2, scroll))
}

/// Moving the cursor to `hs` can be followed without overflow: scrolling
/// the hex view, then scrolling the tree to the node that follows.
pub open spec fn hex_move_ok(a: App, hs: int, scroll: bool) -> bool {
    let a1 = hex_placed(a, hs, scroll);
    &&& (scroll ==> hex_scroll_ok(App { hex_selected: hs as usize, ..a }))
    &&& tree_scroll_fits(synced_selection(a1), a1.tree_offset as int, a1.visible_tree_height as int)
}

/// `b` is `a` after the hex cursor moves to `hs`: the hex view scrolled,
/// the tree selection following the cursor, and the tree scrolled to it.
pub open spec fn hex_moved(a: App, b: App, hs: int, scroll: bool) -> bool {
    let a1 = hex_placed(a, hs, scroll);
    let a2 = App { tree_offset: a1.tree_offset, ..b };
    &&& hex_synced(a1, a2)
    &&& b == tree_scrolled(a2)
}

/// What a key does in the hex view.
pub open spec fn hex_key_done(a: App, b: App, action: KeyAction) -> bool {
    match hex_key_target(a, action) {
        Some((hs, scroll)) => hex_moved(a, b, hs, scroll),
        None => b == a,
    }
}

/// Moves the hex cursor to `hs`, and the tree with it.
fn move_cursor(app: &mut App, hs: usize, scroll: bool)
    requires
        hex_move_ok(*old(app), hs as int, scroll),
    ensures
        hex_moved(*old(app), *final(app), hs as int, scroll),
{
    app.hex_selected = hs;
    if scroll {
        app.adjust_hex_scroll();
    } else {
        app.hex_offset = 0;
    }
    let ghost a1 = *app;
    app.update_tree_selection_from_hex();
    proof {
        lemma_hex_synced_selection(a1, *app);
    }
    app.adjust_tree_scroll();
}

pub fn handle_input(app: &mut App, key: KeyEvent)
    requires
        hex_key_ok(*old(app), key_action(key.code)),
    ensures
        hex_key_done(*old(app), *final(app), key_action(key.code)),
{
    let max = app.raw_bytes.len().saturating_sub(1);
    match resolve_key(key) {
        KeyAction::Up => {
            let hs = if app.hex_selected >= BYTES_PER_ROW {
                app.hex_selected - BYTES_PER_ROW
            } else {
                0
            };
            move_cursor(app, hs, true);
        },
        KeyAction::Down => {
            let hs = if app.hex_selected + BYTES_PER_ROW <= max {
                app.hex_selected + BYTES_PER_ROW
            } else {
                max
            };
            move_cursor(app, hs, true);
        },
        KeyAction::Left => {
            if app.hex_selected > 0 {
                let hs = app.hex_selected - 1;
                move_cursor(app, hs, true);
            }
        },
        KeyAction::Right => {
            if app.hex_selected < max {
                let hs = app.hex_selected + 1;
                move_cursor(app, hs, true);
            }
        },
        KeyAction::Top => {
            move_cursor(app, 0, false);
        },
        KeyAction::Bottom => {
            move_cursor(app, max, true);
        },
        KeyAction::PageUp => {
            let page_size = app.visible_hex_height.saturating_sub(2) * BYTES_PER_ROW;
            let once = app.hex_selected.saturating_sub(page_size);
            let hs = once.saturating_sub(page_size);
            move_cursor(app, hs, true);
        },
        KeyAction::PageDown => {
            let page_size = app.visible_hex_height.saturating_sub(2) * BYTES_PER_ROW;
            let once = if app.hex_selected + page_size < max {
                app.hex_selected + page_size
            } else {
                max
            };
            let hs = if once + page_size < max {
                once + page_size
            } else {
                max
            };
            move_cursor(app, hs, true);
        },
        _ => {},
    }
}

/// Where the mouse wheel moves the hex cursor up.
pub open spec fn hex_scroll_up_target(a: App) -> int {
    sat_sub(a.hex_selected as int, BYTES_PER_ROW * MOUSE_SCROLL_LINES_HEX)
}

/// Where the mouse wheel moves the hex cursor down.
pub open spec fn hex_scroll_down_target(a: App) -> int {
    min_int(a.hex_selected + BYTES_PER_ROW * MOUSE_SCROLL_LINES_HEX, last_byte(a))
}

pub fn handle_scroll_up(app: &mut App)
    requires
        hex_move_ok(*old(app), hex_scroll_up_target(*old(app)), true),
    ensures
        hex_moved(*old(app), *final(app), hex_scroll_up_target(*old(app)), true),
{
    let step = BYTES_PER_ROW * MOUSE_SCROLL_LINES_HEX;
    let hs = if app.hex_selected >= step {
        app.hex_selected - step
    } else {
        0
    };
    move_cursor(app, hs, true);
}

pub fn handle_scroll_down(app: &mut App)
    requires
        old(app).hex_selected + BYTES_PER_ROW * MOUSE_SCROLL_LINES_HEX <= usize::MAX,
        hex_move_ok(*old(app), hex_scroll_down_target(*old(app)), true),
    ensures
        hex_moved(*old(app), *final(app), hex_scroll_down_target(*old(app)), true),
{
    let max = app.raw_bytes.len().saturating_sub(1);
    let step = BYTES_PER_ROW * MOUSE_SCROLL_LINES_HEX;
    let hs = if app.hex_selected + step <= max {
        app.hex_selected + step
    } else {
        max
    };
    move_cursor(app, hs, true);
}

/// Whether a byte is shown as part of the data: everything when not
/// zoomed in; else the bytes within the root node's range.
pub fn is_byte_in_zoomed_range(app: &App, byte_idx: usize) -> (r: bool)
    ensures
        r == if !app.is_zoomed {
            true
        } else {
            match tree_view(app.tree) {
                Some(v) => v.start <= byte_idx < v.end,
                None => false,
            }
        },
{
    if !app.is_zoomed {
        return true;
    }
    match &app.tree {
        Some(tree) => tree.range.start <= byte_idx && byte_idx < tree.range.end,
        None => false,
    }
}


/// The hex keys keep the cursor on a byte of the data (at the start, when
/// there is none).
pub proof fn law_hex_keys_keep_the_cursor_in_the_data(a: App, b: App, action: KeyAction)
    requires
        a.hex_selected <= last_byte(a),
        hex_key_done(a, b, action),
    ensures
        b.raw_bytes@ == a.raw_bytes@,
        b.hex_selected <= last_byte(b),
{
}


/// After a movement key, the tree shows the path to the byte under the hex
/// cursor opened, and selects the smallest node that holds that byte (the
/// first of them), when one does.
pub proof fn law_hex_moves_select_the_node_under_the_cursor(a: App, b: App, action: KeyAction)
    requires
        hex_key_target(a, action) is Some,
        hex_key_done(a, b, action),
    ensures
        match tree_view(a.tree) {
            Some(v) => {
                let w = crate::cbor_tree::expand_path(v, b.hex_selected as int);
                &&& tree_view(b.tree) == Some(w)
                &&& crate::app::is_deepest_at(crate::cbor_tree::flat(w), b.hex_selected as int, b.tree_selected as int)
                    || crate::app::no_candidate(crate::cbor_tree::flat(w), b.hex_selected as int)
            },
            None => b.tree == a.tree,
        },
{
}

} // verus!
