//! Keys and mouse wheel in the tree view.
use vstd::prelude::*;
use crate::app::{
    App,
    Focus,
    hex_scroll,
    hex_scroll_fits,
    hex_scrolled,
    sat_sub,
    tree_scroll_ok,
    tree_scrolled,
    tree_view,
};
use crate::cbor_tree::{CborNode, flat, set_flat, with_all_expanded, NodeView};
use crate::config::{KeyAction, MOUSE_SCROLL_LINES_TREE, key_action, resolve_key};
use crate::input::KeyEvent;

verus! {

/// `b` with the hex cursor on the first byte of the selected node, if any.
pub open spec fn hex_follow(b: App) -> App {
    match b.selected() {
        Some(n) => App {
            hex_selected: n.start as usize,
            hex_offset: hex_scroll(n.start, b.hex_offset as int, b.visible_hex_height as int) as usize,
            ..b
        },
        None => b,
    }
}

/// The hex view of `b` can follow the selected node.
pub open spec fn hex_follow_ok(b: App) -> bool {
    match b.selected() {
        Some(n) => hex_scroll_fits(n.start, b.hex_offset as int, b.visible_hex_height as int),
        None => true,
    }
}

/// `a` with node `sel` selected, the tree scrolled to it and the hex
/// cursor on its first byte.
pub open spec fn moved_to(a: App, sel: int) -> App {
    hex_follow(tree_scrolled(App { tree_selected: sel as usize, ..a }))
}

/// Selecting `sel` in `a` can be done without overflow.
pub open spec fn move_ok(a: App, sel: int) -> bool {
    &&& tree_scroll_ok(App { tree_selected: sel as usize, ..a })
    &&& hex_follow_ok(tree_scrolled(App { tree_selected: sel as usize, ..a }))
}

/// The last visible position, or zero.
pub open spec fn last_visible(a: App) -> int {
    sat_sub(a.visible().len() as int, 1)
}

/// The position a movement key selects in the tree, if it moves the
/// selection.
pub open spec fn tree_key_target(a: App, action: KeyAction) -> Option<int> {
    let sel = a.tree_selected as int;
    let page = sat_sub(a.visible_tree_height as int, 2);
    match action {
        KeyAction::Up => if sel > 0 {
            Some(sel - 1)
        } else {
            None
        },
        KeyAction::Down => if a.tree is Some && sel < last_visible(a) {
            Some(sel + 1)
        } else {
            None
        },
        KeyAction::Top => Some(0),
        KeyAction::Bottom => if a.tree is Some {
            Some(last_visible(a))
        } else {
            None
        },
        KeyAction::PageUp => Some(sat_sub(sel, page)),
        KeyAction::PageDown => if a.tree is Some {
            Some(if sel + page < last_visible(a) {
                sel + page
            } else {
                last_visible(a)
            })
        } else {
            None
        },
        _ => None,
    }
}

/// A key in the tree view can be handled without overflow.
pub open spec fn tree_key_ok(a: App, action: KeyAction) -> bool {
    &&& (action == KeyAction::PageDown && a.tree is Some ==> a.tree_selected + sat_sub(
        a.visible_tree_height as int,
        2,
    ) <= usize::MAX)
    &&& (tree_key_target(a, action) matches Some(s) ==> move_ok(a, s))
}

/// What a key does in the tree view: move the selection, open or close the
/// selected node, or open or close every node.
pub open spec fn tree_key_done(a: App, b: App, action: KeyAction) -> bool {
    match tree_key_target(a, action) {
        Some(s) => b == moved_to(a, s),
        None => match action {
            KeyAction::Expand | KeyAction::Enter => {
                &&& a.toggles_selected() ==> b.tree is Some && tree_view(b.tree) == Some(
                    set_flat(
                        tree_view(a.tree)->0,
                        a.tree_selected as int,
                        NodeView { expanded: !a.selected()->0.expanded, ..a.selected()->0 },
                    ),
                )
                &&& !a.toggles_selected() ==> b == a
                &&& b == (App { tree: b.tree, ..a })
            },
            KeyAction::ExpandAll => {
                &&& tree_view(b.tree) == match tree_view(a.tree) {
                    Some(v) => Some(with_all_expanded(v, true)),
                    None => None,
                }
                &&& b == (App { tree: b.tree, ..a })
            },
            KeyAction::CollapseAll => {
                &&& tree_view(b.tree) == match tree_view(a.tree) {
                    Some(v) => Some(with_all_expanded(v, false)),
                    None => None,
                }
                &&& b == (App { tree: b.tree, ..a })
            },
            _ => b == a,
        },
    }
}

/// The number of visible nodes.
pub(crate) fn visible_count(app: &App) -> (r: usize)
    ensures
        r == app.visible().len(),
{
    match &app.tree {
        Some(t) => t.flatten().len(),
        None => 0,
    }
}

/// Selects node `sel`, scrolls the tree to it and moves the hex cursor to
/// its first byte.
fn move_selection(app: &mut App, sel: usize)
    requires
        move_ok(*old(app), sel as int),
    ensures
        *final(app) == moved_to(*old(app), sel as int),
{
    app.tree_selected = sel;
    app.adjust_tree_scroll();
    app.update_hex_selection_from_tree();
}

pub fn handle_input(app: &mut App, key: KeyEvent)
    requires
        tree_key_ok(*old(app), key_action(key.code)),
    ensures
        tree_key_done(*old(app), *final(app), key_action(key.code)),
{
    match resolve_key(key) {
        KeyAction::Up => {
            if app.tree_selected > 0 {
                let s = app.tree_selected - 1;
                move_selection(app, s);
            }
        },
        KeyAction::Down => {
            if app.tree.is_some() {
                let max = visible_count(app).saturating_sub(1);
                if app.tree_selected < max {
                    let s = app.tree_selected + 1;
                    move_selection(app, s);
                }
            }
        },
        KeyAction::Top => {
            move_selection(app, 0);
        },
        KeyAction::Bottom => {
            if app.tree.is_some() {
                let max = visible_count(app).saturating_sub(1);
                move_selection(app, max);
            }
        },
        KeyAction::PageUp => {
            let page_size = app.visible_tree_height.saturating_sub(2);
            let s = app.tree_selected.saturating_sub(page_size);
            move_selection(app, s);
        },
        KeyAction::PageDown => {
            if app.tree.is_some() {
                let max = visible_count(app).saturating_sub(1);
                let page_size = app.visible_tree_height.saturating_sub(2);
                let s = if app.tree_selected + page_size < max {
                    app.tree_selected + page_size
                } else {
                    max
                };
                move_selection(app, s);
            }
        },
        KeyAction::Expand | KeyAction::Enter => {
            app.toggle_expand();
        },
        KeyAction::ExpandAll => {
            app.expand_all();
        },
        KeyAction::CollapseAll => {
            app.collapse_all();
        },
        _ => {},
    }
}

/// Where the mouse wheel moves the tree selection up, if it moves it.
pub open spec fn tree_scroll_up_target(a: App) -> Option<int> {
    if a.tree_selected > 0 {
        Some(sat_sub(a.tree_selected as int, MOUSE_SCROLL_LINES_TREE as int))
    } else {
        None
    }
}

/// Where the mouse wheel moves the tree selection down, if it moves it.
pub open spec fn tree_scroll_down_target(a: App) -> Option<int> {
    if a.tree is Some && a.visible().len() > 0 && a.tree_selected < a.visible().len() - 1 {
        Some(
            if a.tree_selected + MOUSE_SCROLL_LINES_TREE < a.visible().len() - 1 {
                a.tree_selected + MOUSE_SCROLL_LINES_TREE
            } else {
                a.visible().len() - 1
            },
        )
    } else {
        None
    }
}

pub fn handle_scroll_up(app: &mut App)
    requires
        tree_scroll_up_target(*old(app)) matches Some(s) ==> move_ok(*old(app), s),
    ensures
        *final(app) == match tree_scroll_up_target(*old(app)) {
            Some(s) => moved_to(*old(app), s),
            None => *old(app),
        },
{
    if app.tree_selected > 0 {
        let s = app.tree_selected.saturating_sub(MOUSE_SCROLL_LINES_TREE);
        move_selection(app, s);
    }
}

pub fn handle_scroll_down(app: &mut App)
    requires
        tree_scroll_down_target(*old(app)) matches Some(s) ==> move_ok(*old(app), s),
    ensures
        *final(app) == match tree_scroll_down_target(*old(app)) {
            Some(s) => moved_to(*old(app), s),
            None => *old(app),
        },
{
    if app.tree.is_some() {
        let max = visible_count(app);
        if max > 0 {
            let max_idx = max - 1;
            if app.tree_selected < max_idx {
                let s = if app.tree_selected + MOUSE_SCROLL_LINES_TREE < max_idx {
                    app.tree_selected + MOUSE_SCROLL_LINES_TREE
                } else {
                    max_idx
                };
                move_selection(app, s);
            }
        }
    }
}

/// The node's path is a proper prefix, by names, of the selected path.
pub open spec fn is_ancestor_path(node: NodeView, selected: Seq<Seq<char>>) -> bool {
    &&& node.path.len() < selected.len()
    &&& forall|i: int| 0 <= i < node.path.len() ==> #[trigger] node.path[i].0 == selected[i]
}

/// Whether the node lies on the path of the selected node, above it.
pub fn is_node_ancestor(node: &CborNode, selected_path: &[String]) -> (r: bool)
    ensures
        r == is_ancestor_path(node@, selected_path@.map_values(|s: String| s@)),
{
    let n = node.path.len();
    if n >= selected_path.len() {
        return false;
    }
    let mut i: usize = 0;
    while i < n
        invariant
            n == node.path@.len(),
            n < selected_path@.len(),
            0 <= i <= n,
            forall|j: int| 0 <= j < i ==> node@.path[j].0 == (#[trigger] selected_path@[j])@,
        decreases n - i,
    {
        if node.path[i].name != selected_path[i] {
            proof {
                assert(node@.path[i as int].0 != selected_path@.map_values(|s: String| s@)[i as int]);
            }
            return false;
        }
        i += 1;
    }
    true
}


/// The movement keys keep the tree as it is and the selection on a
/// visible node.
pub proof fn law_tree_moves_keep_the_selection_visible(a: App, b: App, action: KeyAction)
    requires
        a.tree_selected <= last_visible(a),
        tree_key_target(a, action) is Some,
        tree_key_done(a, b, action),
    ensures
        b.tree == a.tree,
        b.tree_selected <= last_visible(b),
{
}


/// After a movement key, the hex cursor is on the first byte of the node
/// selected in the tree.
pub proof fn law_tree_moves_put_the_hex_cursor_on_the_selection(a: App, b: App, action: KeyAction)
    requires
        tree_key_target(a, action) is Some,
        tree_key_done(a, b, action),
        b.selected() is Some,
    ensures
        b.hex_selected == b.selected()->0.start as usize,
{
}

} // verus!
