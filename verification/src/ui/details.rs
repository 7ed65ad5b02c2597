//! Placing the details popup, and cutting long texts.
use vstd::prelude::*;
use vstd::utf8::{decode_utf8, encode_utf8, is_char_boundary};
use crate::config::{BYTES_PER_ROW, POPUP_MAX_HEIGHT, POPUP_MAX_WIDTH};
use crate::input::Rect;

verus! {

/// `a - b`, or zero when `b` is larger.
pub open spec fn sub_or_zero(a: int, b: int) -> int {
    if a >= b {
        a - b
    } else {
        0
    }
}

/// The low sixteen bits of a number, as a cast to `u16` keeps them.
pub open spec fn low16(v: int) -> int {
    v % 0x10000
}

/// The size of the details popup: at most 50 columns and 4 less than the
/// screen; eight rows more than the node's path, at most 20.
pub open spec fn popup_size(frame: Rect, path_len: int) -> (int, int) {
    let w = if POPUP_MAX_WIDTH < sub_or_zero(frame.width as int, 4) {
        POPUP_MAX_WIDTH as int
    } else {
        sub_or_zero(frame.width as int, 4)
    };
    let h0 = low16(path_len) + 8;
    let h = if h0 < POPUP_MAX_HEIGHT {
        h0
    } else {
        POPUP_MAX_HEIGHT as int
    };
    (w, h)
}

/// Where the details popup goes, as `(x, y, width, height)`: in the tree,
/// two rows below the cursor's row (or as low as fits) against the right
/// edge of the tree view; in the hex view, two rows below the selected
/// byte (or above it when it does not fit), from its column (or as far
/// right as fits).
pub open spec fn popup_position(
    frame: Rect,
    parent: Rect,
    is_tree_focus: bool,
    cursor_row: int,
    hex_offset: int,
    hex_selected: int,
    path_len: int,
) -> (int, int, int, int) {
    let (w, h) = popup_size(frame, path_len);
    if is_tree_focus {
        let offset_y = parent.y + 1 + low16(cursor_row) + 2;
        let y = if offset_y + h > frame.height {
            sub_or_zero(frame.height as int, h + 1)
        } else {
            offset_y
        };
        let x = parent.x + sub_or_zero(parent.width as int, w + 2);
        (x, y, w, h)
    } else {
        let start_row = hex_offset / BYTES_PER_ROW as int;
        let current_row = hex_selected / BYTES_PER_ROW as int;
        let relative_row = sub_or_zero(current_row, start_row);
        let col = hex_selected % BYTES_PER_ROW as int;
        let screen_x = parent.x + 1 + low16(11 + col * 3);
        let screen_y = parent.y + 1 + low16(relative_row);
        let y = if screen_y + 2 + h < frame.height {
            screen_y + 2
        } else {
            sub_or_zero(screen_y, h)
        };
        let x = if screen_x + w > frame.width {
            sub_or_zero(frame.width as int, w + 1)
        } else {
            screen_x
        };
        (x, y, w, h)
    }
}

/// The popup's place is computed without passing `u16::MAX`.
pub open spec fn popup_position_ok(
    frame: Rect,
    parent: Rect,
    is_tree_focus: bool,
    cursor_row: int,
    hex_offset: int,
    hex_selected: int,
    path_len: int,
) -> bool {
    let (w, h) = popup_size(frame, path_len);
    &&& low16(path_len) + 8 <= u16::MAX
    &&& is_tree_focus ==> {
        let offset_y = parent.y + 1 + low16(cursor_row) + 2;
        &&& offset_y + h <= u16::MAX
        &&& w + 2 <= u16::MAX
        &&& h + 1 <= u16::MAX
        &&& parent.x + sub_or_zero(parent.width as int, w + 2) <= u16::MAX
    }
    &&& !is_tree_focus ==> {
        let start_row = hex_offset / BYTES_PER_ROW as int;
        let current_row = hex_selected / BYTES_PER_ROW as int;
        let col = hex_selected % BYTES_PER_ROW as int;
        let screen_x = parent.x + 1 + low16(11 + col * 3);
        let screen_y = parent.y + 1 + low16(sub_or_zero(current_row, start_row));
        &&& screen_x <= u16::MAX
        &&& screen_y + 2 + h <= u16::MAX
        &&& screen_x + w <= u16::MAX
        &&& w + 1 <= u16::MAX
    }
}

fn cast_u16(v: usize) -> (r: u16)
    ensures
        r == low16(v as int),
{
    let r = v as u16;
    proof {
        assert(r == v % 0x10000) by (bit_vector)
            requires
                r == v as u16,
        ;
    }
    r
}

/// Where the details popup goes on a screen of `frame`, for a node with a
/// path of `path_len` segments shown in `parent`.
pub fn calculate_popup_position(
    frame: Rect,
    parent_area: Rect,
    is_tree_focus: bool,
    cursor_row: usize,
    hex_offset: usize,
    hex_selected: usize,
    path_len: usize,
) -> (r: (u16, u16, u16, u16))
    requires
        popup_position_ok(
            frame,
            parent_area,
            is_tree_focus,
            cursor_row as int,
            hex_offset as int,
            hex_selected as int,
            path_len as int,
        ),
    ensures
        (r.0 as int, r.1 as int, r.2 as int, r.3 as int) == popup_position(
            frame,
            parent_area,
            is_tree_focus,
            cursor_row as int,
            hex_offset as int,
            hex_selected as int,
            path_len as int,
        ),
{
    let popup_width = if POPUP_MAX_WIDTH < frame.width.saturating_sub(4) {
        POPUP_MAX_WIDTH
    } else {
        frame.width.saturating_sub(4)
    };
    let h0 = cast_u16(path_len) + 8;
    let popup_height = if h0 < POPUP_MAX_HEIGHT {
        h0
    } else {
        POPUP_MAX_HEIGHT
    };
    if is_tree_focus {
        let cursor_screen_row = parent_area.y + 1 + cast_u16(cursor_row);
        let offset_y = cursor_screen_row + 2;
        let y = if offset_y + popup_height > frame.height {
            frame.height.saturating_sub(popup_height + 1)
        } else {
            offset_y
        };
        let x = parent_area.x + parent_area.width.saturating_sub(popup_width + 2);
        (x, y, popup_width, popup_height)
    } else {
        let block_inner_y = parent_area.y + 1;
        let block_inner_x = parent_area.x + 1;
        let start_row = hex_offset / BYTES_PER_ROW;
        let current_row = hex_selected / BYTES_PER_ROW;
        let relative_row = current_row.saturating_sub(start_row);
        let col = hex_selected % BYTES_PER_ROW;
        let char_x = 11 + col * 3;
        let screen_x = block_inner_x + cast_u16(char_x);
        let screen_y = block_inner_y + cast_u16(relative_row);
        let y = if screen_y + 2 + popup_height < frame.height {
            screen_y + 2
        } else {
            screen_y.saturating_sub(popup_height)
        };
        let x = if screen_x + popup_width > frame.width {
            frame.width.saturating_sub(popup_width + 1)
        } else {
            screen_x
        };
        (x, y, popup_width, popup_height)
    }
}

/// The text cut to at most `max_len` bytes: the first `max_len - 3` bytes
/// and `...` when it is longer and there is room for them, else the first
/// `max_len` bytes.
pub open spec fn truncated(s: Seq<char>, max_len: int) -> Seq<char> {
    let bytes = encode_utf8(s);
    if bytes.len() <= max_len {
        s
    } else if max_len > 3 {
        decode_utf8(bytes.take(max_len - 3)) + "..."@
    } else {
        decode_utf8(bytes.take(max_len))
    }
}

/// The text can be cut where `truncated` cuts it: there a character ends.
pub open spec fn truncatable(s: Seq<char>, max_len: int) -> bool {
    let bytes = encode_utf8(s);
    bytes.len() > max_len ==> is_char_boundary(bytes, if max_len > 3 {
        max_len - 3
    } else {
        max_len
    })
}

pub fn truncate_string(s: &str, max_len: usize) -> (r: String)
    requires
        truncatable(s@, max_len as int),
    ensures
        r@ == truncated(s@, max_len as int),
{
    broadcast use vstd::utf8::encode_utf8_decode_utf8;

    if s.as_bytes().len() <= max_len {
        s.to_owned()
    } else if max_len > 3 {
        let (head, _) = s.split_at(max_len - 3);
        proof {
            assert(encode_utf8(head@) =~= encode_utf8(s@).take(max_len - 3));
        }
        let mut r = head.to_owned();
        r.push_str("...");
        r
    } else {
        let (head, _) = s.split_at(max_len);
        proof {
            assert(encode_utf8(head@) =~= encode_utf8(s@).take(max_len as int));
        }
        head.to_owned()
    }
}

/// Whether the popup's place can be computed within `u16`.
pub fn popup_position_fits(
    frame: Rect,
    parent_area: Rect,
    is_tree_focus: bool,
    cursor_row: usize,
    hex_offset: usize,
    hex_selected: usize,
    path_len: usize,
) -> (r: bool)
    ensures
        r == popup_position_ok(
            frame,
            parent_area,
            is_tree_focus,
            cursor_row as int,
            hex_offset as int,
            hex_selected as int,
            path_len as int,
        ),
{
    let popup_width: u32 = if (POPUP_MAX_WIDTH as u32) < frame.width.saturating_sub(4) as u32 {
        POPUP_MAX_WIDTH as u32
    } else {
        frame.width.saturating_sub(4) as u32
    };
    let h0: u32 = cast_u16(path_len) as u32 + 8;
    if h0 > 0xFFFF {
        return false;
    }
    let popup_height: u32 = if h0 < POPUP_MAX_HEIGHT as u32 {
        h0
    } else {
        POPUP_MAX_HEIGHT as u32
    };
    let max: u32 = 0xFFFF;
    if is_tree_focus {
        let offset_y: u32 = parent_area.y as u32 + 1 + cast_u16(cursor_row) as u32 + 2;
        let pw2 = popup_width + 2;
        let right: u32 = if (parent_area.width as u32) >= pw2 {
            parent_area.width as u32 - pw2
        } else {
            0
        };
        offset_y + popup_height <= max && pw2 <= max && popup_height + 1 <= max && parent_area.x as u32
            + right <= max
    } else {
        let start_row = hex_offset / BYTES_PER_ROW;
        let current_row = hex_selected / BYTES_PER_ROW;
        let relative_row = current_row.saturating_sub(start_row);
        let col = hex_selected % BYTES_PER_ROW;
        let screen_x: u32 = parent_area.x as u32 + 1 + cast_u16(11 + col * 3) as u32;
        let screen_y: u32 = parent_area.y as u32 + 1 + cast_u16(relative_row) as u32;
        screen_x <= max && screen_y + 2 + popup_height <= max && screen_x + popup_width <= max
            && popup_width + 1 <= max
    }
}

/// Whether `truncate_string` can cut the text.
pub fn is_truncatable(s: &str, max_len: usize) -> (r: bool)
    ensures
        r == truncatable(s@, max_len as int),
{
    if s.as_bytes().len() <= max_len {
        true
    } else if max_len > 3 {
        s.is_char_boundary(max_len - 3)
    } else {
        s.is_char_boundary(max_len)
    }
}

} // verus!
