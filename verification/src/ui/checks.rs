//! Testing, before a key or mouse event is handled, that handling it stays
//! within the machine's bounds.
use vstd::prelude::*;
use crate::app::{
    App,
    Focus,
    PopupMode,
    chunks_are_buildable,
    deepest_or,
    deepest_visible,
    focus_toggle_ok,
    hex_scroll_fits,
    is_deepest_at,
    lemma_deepest_unique,
    no_candidate,
    other_scan_mode,
    sat_sub,
    scan_showable,
    synced_selection,
    tree_scroll_fits,
    tree_view,
};
use crate::cbor_tree::{CborNode, expand_path, flat, refs_view};
use crate::config::{BYTES_PER_ROW, KeyAction, MOUSE_SCROLL_LINES_HEX, MOUSE_SCROLL_LINES_TREE, key_action, resolve_key};
use crate::input::{KeyCode, KeyEvent, MouseButton, MouseEvent, MouseEventKind, Rect};
use crate::ui::{inside, inside_ok, input_ok, mouse_ok, mouse_is_inside};
use crate::ui::search::input_key_ok;
use crate::ui::theme::theme_key_ok;
use crate::ui::tree::{move_ok, tree_key_ok, tree_key_target, tree_scroll_down_target, tree_scroll_up_target, visible_count};
use crate::ui::hex::{hex_key_ok, hex_key_target, hex_move_ok, hex_scroll_down_target, hex_scroll_up_target, last_byte, min_int};
use vstd::utf8::{encode_utf8, is_char_boundary};
use crate::scanner::{CborScanner, ScanMode, chunk_shapes};
use crate::search::{
    first_with_start,
    goto_fits,
    goto_target,
    parse_goto_offset,
    position_with_start,
    search_fits,
    search_result,
};
use crate::zoom::{Zoomable, chunk_shiftable, lemma_buildable_shift, shift_chunk, zoom_found};
use crate::scanner::{lemma_shift_all_index, lemma_all_shiftable_index, shiftable};
use crate::cbor_parser::ParsedCbor;
use crate::app::chunks_buildable;

verus! {

/// Whether the tree scroll offset can be computed without overflow.
pub fn tree_scroll_fits_exec(sel: usize, off: usize, h: usize) -> (r: bool)
    ensures
        r == tree_scroll_fits(sel as int, off as int, h as int),
{
    if off == usize::MAX {
        return false;
    }
    let off1 = if sel < off + 1 {
        sel.saturating_sub(1)
    } else {
        off
    };
    if h > 0 {
        if off1 > usize::MAX - (h - 1) {
            return false;
        }
        let bottom = (off1 + (h - 1)).saturating_sub(1);
        if sel > bottom {
            return off1 <= usize::MAX - (sel - bottom);
        }
    }
    true
}

/// Whether the hex scroll offset can be computed without overflow.
pub fn hex_scroll_fits_exec(sel: usize, off: usize, h: usize) -> (r: bool)
    ensures
        r == hex_scroll_fits(sel as int, off as int, h as int),
{
    let row = sel / BYTES_PER_ROW;
    let rows = h.saturating_sub(2);
    let top = off / BYTES_PER_ROW;
    if top > usize::MAX - rows {
        return false;
    }
    if row >= top + rows {
        let k = row - rows + 1;
        return k <= usize::MAX / BYTES_PER_ROW;
    }
    true
}

/// Whether the focus can move without overflow.
pub fn focus_toggle_fits(app: &App) -> (r: bool)
    ensures
        r == focus_toggle_ok(*app),
{
    match app.focus {
        Focus::Tree => match app.get_selected_node() {
            Some(n) => hex_scroll_fits_exec(n.range.start, app.hex_offset, app.visible_hex_height),
            None => true,
        },
        Focus::Hex => tree_scroll_fits_exec(app.tree_selected, app.tree_offset, app.visible_tree_height),
    }
}

/// Whether a scan of the bytes in `mode` can be shown.
pub fn scan_is_showable(bytes: &Vec<u8>, mode: ScanMode) -> (r: bool)
    ensures
        r == scan_showable(bytes@, mode),
{
    let scanner = CborScanner::new(bytes.as_slice());
    match scanner.try_scan_for_cbor_sequences(mode) {
        Some(chunks) => chunks_are_buildable(&chunks),
        None => false,
    }
}

/// The tree selection after it follows a hex cursor at `hs`.
pub fn synced_selection_exec(app: &App, hs: usize) -> (r: usize)
    ensures
        r == synced_selection(App { hex_selected: hs, ..*app }),
{
    match &app.tree {
        Some(t) => {
            let mut copy = t.clone_node();
            copy.expand_path_to_offset(hs);
            let best = {
                let nodes = copy.flatten();
                deepest_visible(&nodes, hs)
            };
            let ghost nodes = flat(expand_path(t@, hs as int));
            match best {
                Some(i) => {
                    proof {
                        let k = choose|k: int| is_deepest_at(nodes, hs as int, k);
                        lemma_deepest_unique(nodes, hs as int, k, i as int);
                    }
                    i
                },
                None => {
                    proof {
                        assert(!exists|k: int| is_deepest_at(nodes, hs as int, k)) by {
                            if exists|k: int| is_deepest_at(nodes, hs as int, k) {
                                let k = choose|k: int| is_deepest_at(nodes, hs as int, k);
                                assert(crate::app::candidate(nodes[k], hs as int));
                            }
                        }
                    }
                    app.tree_selected
                },
            }
        },
        None => app.tree_selected,
    }
}

/// Whether a search can scroll the tree to where it leaves the selection.
pub fn search_fits_exec(app: &App, query: &str, forward: bool) -> (r: bool)
    ensures
        r == search_fits(*app, query@, forward),
{
    match app.search_hit_offset(query, forward) {
        Some(off) => {
            let sel = match &app.tree {
                Some(t) => {
                    let mut copy = t.clone_node();
                    copy.expand_path_to_offset(off);
                    let pos = {
                        let nodes = copy.flatten();
                        position_with_start(&nodes, off)
                    };
                    match pos {
                        Some(i) => i,
                        None => app.tree_selected,
                    }
                },
                None => app.tree_selected,
            };
            tree_scroll_fits_exec(sel, app.tree_offset, app.visible_tree_height)
        },
        None => true,
    }
}

/// Whether zooming in at the cursor can be done.
pub fn zoom_in_ready_exec(app: &App) -> (r: bool)
    ensures
        r == app.zoom_in_ready(),
{
    let sel = app.hex_selected;
    if sel > app.raw_bytes.len() {
        return false;
    }
    let scanned = {
        let tail = vstd::slice::slice_subrange(app.raw_bytes.as_slice(), sel, app.raw_bytes.len());
        let scanner = CborScanner::new(tail);
        scanner.try_scan_for_cbor_sequences(ScanMode::Single)
    };
    let chunks = match scanned {
        Some(c) => c,
        None => {
            return false;
        },
    };
    let ghost cs = zoom_found(*app);
    proof {
        assert(chunk_shapes(chunks@) == cs);
    }
    let n = chunks.len();
    if n == 0 {
        return true;
    }
    let chunk = &chunks[n - 1];
    let ghost c = cs.last();
    proof {
        assert(chunk.shape() == c);
        crate::cbor_parser::lemma_shapes_index(chunk.items@);
        lemma_all_shiftable_index(c.items, sel as int);
        lemma_shift_all_index(c.items, sel as int);
    }
    if chunk.offset > usize::MAX - sel {
        return false;
    }
    let m = chunk.items.len();
    let mut j: usize = 0;
    while j < m
        invariant
            cs == zoom_found(*app),
            cs.len() > 0,
            c == cs.last(),
            sel == app.hex_selected,
            sel <= app.raw_bytes@.len(),
            crate::scanner::spec_scan(
                app.raw_bytes@.subrange(sel as int, app.raw_bytes@.len() as int),
                ScanMode::Single,
            ).1,
            chunk.offset + sel <= usize::MAX,
            chunk.shape() == c,
            m == chunk.items@.len(),
            m == c.items.len(),
            forall|k: int| 0 <= k < m ==> #[trigger] c.items[k] == chunk.items@[k].shape(),
            0 <= j <= m,
            forall|k: int| 0 <= k < j ==> shiftable(#[trigger] c.items[k], sel as int),
            forall|k: int| 0 <= k < j ==> crate::nodes::buildable(#[trigger] c.items[k], 0)
                && crate::nodes::buildable(c.items[k], 2),
        decreases m - j,
    {
        let item = &chunk.items[j];
        let ok = CborScanner::is_shiftable(item, sel) && item.is_buildable(0) && item.is_buildable(2);
        if !ok {
            proof {
                lemma_all_shiftable_index(c.items, sel as int);
                lemma_shift_all_index(c.items, sel as int);
                let sc = shift_chunk(c, sel as int);
                lemma_buildable_shift(c.items[j as int], sel as int, 0);
                lemma_buildable_shift(c.items[j as int], sel as int, 2);
                assert(sc.items[j as int] == shift_shape_of(c.items[j as int], sel as int));
                if shiftable(c.items[j as int], sel as int) {
                    assert(seq![sc][0] == sc);
                    assert(!(crate::nodes::buildable(seq![sc][0].items[j as int], 0)
                        && crate::nodes::buildable(seq![sc][0].items[j as int], 2)));
                    assert(!chunks_buildable(seq![sc]));
                } else {
                    assert(!crate::scanner::all_shiftable(c.items, sel as int));
                    assert(!chunk_shiftable(c, sel as int));
                }
            }
            return false;
        }
        j += 1;
    }
    proof {
        let sc = shift_chunk(c, sel as int);
        assert forall|a: int, b: int| 0 <= a < seq![sc].len() && 0 <= b < seq![sc][a].items.len() implies crate::nodes::buildable(
            #[trigger] seq![sc][a].items[b],
            0,
        ) && crate::nodes::buildable(seq![sc][a].items[b], 2) by {
            assert(seq![sc][a] == sc);
            lemma_buildable_shift(c.items[b], sel as int, 0);
            lemma_buildable_shift(c.items[b], sel as int, 2);
        }
    }
    hex_scroll_fits_exec(chunk.offset + sel, app.hex_offset, app.visible_hex_height)
}

/// Where a shifted item lands (the shape moved by `d`).
pub open spec fn shift_shape_of(sh: crate::cbor_parser::ItemShape, d: int) -> crate::cbor_parser::ItemShape {
    crate::scanner::shift_shape(sh, d)
}

/// Whether zooming in or out, as the view stands, can be done.
pub fn zoom_toggle_ready_exec(app: &App) -> (r: bool)
    ensures
        r == app.zoom_toggle_ready(),
{
    if app.is_zoomed {
        scan_is_showable(&app.raw_bytes, ScanMode::Auto)
    } else {
        zoom_in_ready_exec(app)
    }
}

/// Whether going to the typed offset can scroll the hex view there.
pub fn goto_fits_exec(app: &App) -> (r: bool)
    ensures
        r == goto_fits(*app),
{
    match parse_goto_offset(app.search_input.as_str()) {
        Some(off) => {
            if off < app.raw_bytes.len() {
                hex_scroll_fits_exec(off, app.hex_offset, app.visible_hex_height)
            } else {
                true
            }
        },
        None => true,
    }
}

/// Whether a key in an input popup can be handled.
pub fn input_key_ok_exec(app: &App, code: KeyCode) -> (r: bool)
    ensures
        r == input_key_ok(*app, code),
{
    let in_popup = app.popups == PopupMode::Search || app.popups == PopupMode::GotoOffset;
    let pos = app.search_cursor_position;
    let text = app.search_input.as_str();
    match code {
        KeyCode::Enter => {
            let empty = text.is_empty();
            let search_ok = !(app.popups == PopupMode::Search && !empty) || search_fits_exec(app, text, true);
            let goto_ok = !(app.popups == PopupMode::GotoOffset && !empty) || goto_fits_exec(app);
            search_ok && goto_ok
        },
        KeyCode::Backspace => {
            if in_popup && pos > 0 {
                pos - 1 < text.as_bytes().len() && text.is_char_boundary(pos - 1)
            } else {
                true
            }
        },
        KeyCode::Char(_) => {
            if in_popup {
                text.is_char_boundary(pos) && pos < usize::MAX
            } else {
                true
            }
        },
        _ => true,
    }
}

/// Whether selecting node `sel` can be followed without overflow.
pub fn move_ok_exec(app: &App, sel: usize) -> (r: bool)
    ensures
        r == move_ok(*app, sel as int),
{
    if !tree_scroll_fits_exec(sel, app.tree_offset, app.visible_tree_height) {
        return false;
    }
    match &app.tree {
        Some(t) => {
            let nodes = t.flatten();
            if sel < nodes.len() {
                proof {
                    assert(refs_view(nodes@)[sel as int] == nodes@[sel as int]@);
                }
                hex_scroll_fits_exec(nodes[sel].range.start, app.hex_offset, app.visible_hex_height)
            } else {
                true
            }
        },
        None => true,
    }
}

/// Whether a key in the tree view can be handled.
pub fn tree_key_ok_exec(app: &App, action: KeyAction) -> (r: bool)
    ensures
        r == tree_key_ok(*app, action),
{
    let sel = app.tree_selected;
    let page = app.visible_tree_height.saturating_sub(2);
    let last = visible_count(app).saturating_sub(1);
    let has_tree = app.tree.is_some();
    if action == KeyAction::PageDown && has_tree && sel > usize::MAX - page {
        return false;
    }
    let target: Option<usize> = match action {
        KeyAction::Up => if sel > 0 {
            Some(sel - 1)
        } else {
            None
        },
        KeyAction::Down => if has_tree && sel < last {
            Some(sel + 1)
        } else {
            None
        },
        KeyAction::Top => Some(0),
        KeyAction::Bottom => if has_tree {
            Some(last)
        } else {
            None
        },
        KeyAction::PageUp => Some(sel.saturating_sub(page)),
        KeyAction::PageDown => if has_tree {
            Some(if sel + page < last {
                sel + page
            } else {
                last
            })
        } else {
            None
        },
        _ => None,
    };
    proof {
        assert(match target {
            Some(s) => tree_key_target(*app, action) == Some(s as int),
            None => tree_key_target(*app, action) is None,
        });
    }
    match target {
        Some(s) => move_ok_exec(app, s),
        None => true,
    }
}

/// Whether moving the hex cursor to `hs` can be followed without overflow.
pub fn hex_move_ok_exec(app: &App, hs: usize, scroll: bool) -> (r: bool)
    ensures
        r == hex_move_ok(*app, hs as int, scroll),
{
    if scroll && !hex_scroll_fits_exec(hs, app.hex_offset, app.visible_hex_height) {
        return false;
    }
    let sel = synced_selection_exec(app, hs);
    tree_scroll_fits_exec(sel, app.tree_offset, app.visible_tree_height)
}

/// Whether a key in the hex view can be handled.
pub fn hex_key_ok_exec(app: &App, action: KeyAction) -> (r: bool)
    ensures
        r == hex_key_ok(*app, action),
{
    let hs = app.hex_selected;
    let last = app.raw_bytes.len().saturating_sub(1);
    let rows = app.visible_hex_height.saturating_sub(2);
    if action == KeyAction::Down && hs > usize::MAX - BYTES_PER_ROW {
        return false;
    }
    if (action == KeyAction::PageUp || action == KeyAction::PageDown) && rows > usize::MAX / BYTES_PER_ROW {
        return false;
    }
    let page = if rows <= usize::MAX / BYTES_PER_ROW {
        rows * BYTES_PER_ROW
    } else {
        0
    };
    if action == KeyAction::PageDown {
        if hs > usize::MAX - page {
            return false;
        }
        let once = if hs + page < last {
            hs + page
        } else {
            last
        };
        if once > usize::MAX - page {
            return false;
        }
    }
    let target: Option<(usize, bool)> = match action {
        KeyAction::Up => Some((hs.saturating_sub(BYTES_PER_ROW), true)),
        KeyAction::Down => Some((if hs + BYTES_PER_ROW < last {
            hs + BYTES_PER_ROW
        } else {
            last
        }, true)),
        KeyAction::Left => if hs > 0 {
            Some((hs - 1, true))
        } else {
            None
        },
        KeyAction::Right => if hs < last {
            Some((hs + 1, true))
        } else {
            None
        },
        KeyAction::Top => Some((0, false)),
        KeyAction::Bottom => Some((last, true)),
        KeyAction::PageUp => Some((hs.saturating_sub(page).saturating_sub(page), true)),
        KeyAction::PageDown => {
            let once = if hs + page < last {
                hs + page
            } else {
                last
            };
            Some((if once + page < last {
                once + page
            } else {
                last
            }, true))
        },
        _ => None,
    };
    proof {
        assert(match target {
            Some((h2, sc)) => hex_key_target(*app, action) == Some((h2 as int, sc)),
            None => hex_key_target(*app, action) is None,
        });
    }
    match target {
        Some((h2, sc)) => hex_move_ok_exec(app, h2, sc),
        None => true,
    }
}

/// Whether a key can be handled (see `input_ok`); a program tests this
/// before it hands the key over.
pub fn can_handle_input(app: &App, key: KeyEvent) -> (r: bool)
    ensures
        r == input_ok(*app, key),
{
    let action = resolve_key(key);
    match app.popups {
        PopupMode::ThemeSelect => !(action == KeyAction::Down) || app.themes.len() > 0,
        PopupMode::Help => true,
        PopupMode::Search | PopupMode::GotoOffset => input_key_ok_exec(app, key.code),
        PopupMode::Closed => match action {
            KeyAction::Quit | KeyAction::Help | KeyAction::ToggleHexInt | KeyAction::ThemeSelect
            | KeyAction::Search | KeyAction::Goto | KeyAction::TogglePopup => true,
            KeyAction::SwitchFocus => focus_toggle_fits(app),
            KeyAction::Sort => chunks_are_buildable(&app.chunks),
            KeyAction::Mode => {
                let other = match app.scan_mode {
                    ScanMode::Single => ScanMode::Auto,
                    ScanMode::Auto => ScanMode::Single,
                };
                scan_is_showable(&app.raw_bytes, other)
            },
            KeyAction::Zoom => zoom_toggle_ready_exec(app),
            KeyAction::Next => match &app.last_search_query {
                Some(q) => search_fits_exec(app, q.as_str(), true),
                None => true,
            },
            KeyAction::Prev => match &app.last_search_query {
                Some(q) => search_fits_exec(app, q.as_str(), false),
                None => true,
            },
            _ => match app.focus {
                Focus::Tree => tree_key_ok_exec(app, action),
                Focus::Hex => hex_key_ok_exec(app, action),
            },
        },
    }
}

/// Whether a cell can be tested against a rectangle.
fn inside_ok_exec(area: Rect, x: u16, y: u16) -> (r: bool)
    ensures
        r == inside_ok(area, x, y),
{
    if x >= area.x && area.x > u16::MAX - area.width {
        return false;
    }
    if x >= area.x && x < area.x + area.width && y >= area.y && area.y > u16::MAX - area.height {
        return false;
    }
    true
}

/// Whether a mouse event can be handled (see `mouse_ok`); a program tests
/// this before it hands the event over.
pub fn can_handle_mouse(app: &App, mouse: MouseEvent) -> (r: bool)
    ensures
        r == mouse_ok(*app, mouse),
{
    let x = mouse.column;
    let y = mouse.row;
    let is_scroll = match mouse.kind {
        MouseEventKind::Down(MouseButton::Left) | MouseEventKind::ScrollDown | MouseEventKind::ScrollUp => true,
        _ => false,
    };
    if !is_scroll {
        return true;
    }
    if !inside_ok_exec(app.tree_area, x, y) {
        return false;
    }
    let in_tree = mouse_is_inside(app.tree_area, x, y);
    if !in_tree && !inside_ok_exec(app.hex_area, x, y) {
        return false;
    }
    let in_hex = !in_tree && mouse_is_inside(app.hex_area, x, y);
    match mouse.kind {
        MouseEventKind::ScrollDown => {
            if in_tree {
                let n = visible_count(app);
                let has_tree = app.tree.is_some();
                if has_tree && n > 0 && app.tree_selected < n - 1 {
                    let s = if app.tree_selected + MOUSE_SCROLL_LINES_TREE < n - 1 {
                        app.tree_selected + MOUSE_SCROLL_LINES_TREE
                    } else {
                        n - 1
                    };
                    move_ok_exec(app, s)
                } else {
                    true
                }
            } else if in_hex {
                let step = BYTES_PER_ROW * MOUSE_SCROLL_LINES_HEX;
                if app.hex_selected > usize::MAX - step {
                    return false;
                }
                let last = app.raw_bytes.len().saturating_sub(1);
                let hs = if app.hex_selected + step < last {
                    app.hex_selected + step
                } else {
                    last
                };
                hex_move_ok_exec(app, hs, true)
            } else {
                true
            }
        },
        MouseEventKind::ScrollUp => {
            if in_tree {
                if app.tree_selected > 0 {
                    move_ok_exec(app, app.tree_selected.saturating_sub(MOUSE_SCROLL_LINES_TREE))
                } else {
                    true
                }
            } else if in_hex {
                let step = BYTES_PER_ROW * MOUSE_SCROLL_LINES_HEX;
                hex_move_ok_exec(app, app.hex_selected.saturating_sub(step), true)
            } else {
                true
            }
        },
        _ => true,
    }
}

/// Handles a key when it can be handled; tells whether it was.
pub fn handle_input_checked(app: &mut App, key: KeyEvent) -> (r: bool)
    ensures
        r == input_ok(*old(app), key),
        r ==> crate::ui::input_done(*old(app), *final(app), key),
        !r ==> *final(app) == *old(app),
{
    if can_handle_input(app, key) {
        crate::ui::handle_input(app, key);
        true
    } else {
        false
    }
}

/// Handles a mouse event when it can be handled; tells whether it was.
pub fn handle_mouse_checked(app: &mut App, mouse: MouseEvent) -> (r: bool)
    ensures
        r == mouse_ok(*old(app), mouse),
        r ==> crate::ui::mouse_done(*old(app), *final(app), mouse),
        !r ==> *final(app) == *old(app),
{
    if can_handle_mouse(app, mouse) {
        crate::ui::handle_mouse_input(app, mouse);
        true
    } else {
        false
    }
}

} // verus!
