//! How values are shown in the tree and the details popup.
use vstd::prelude::*;
use crate::cbor_tree::{CborNode, CborType};
use crate::search::digits_value;
use crate::text::{hex_lower, push_hex_lower, twos_complement_128};

verus! {

/// The position of the colour for a nesting depth among `n` colours: the
/// palette of eight is walked backwards as the depth grows, and the first
/// colour stands in for one that is missing.
pub open spec fn depth_color_pos(depth: int, n: int) -> int {
    let index = 7 - depth % 8;
    if index < n {
        index
    } else {
        0
    }
}

pub fn depth_color_index(depth: usize, n_colors: usize) -> (r: usize)
    ensures
        r == depth_color_pos(depth as int, n_colors as int),
{
    let index = 7 - (depth % 8);
    if index < n_colors {
        index
    } else {
        0
    }
}

/// A signed decimal number: an optional `+` or `-` and at least one
/// digit, with a value from `min` to `max`.
pub open spec fn parse_signed(cs: Seq<char>, min: int, max: int) -> Option<int> {
    let neg = cs.len() > 0 && cs[0] == '-';
    let ds = if cs.len() > 0 && (cs[0] == '+' || cs[0] == '-') {
        cs.drop_first()
    } else {
        cs
    };
    if ds.len() == 0 {
        None
    } else {
        match digits_value(ds, 10) {
            Some(v) => {
                let x = if neg {
                    -v
                } else {
                    v as int
                };
                if min <= x <= max {
                    Some(x)
                } else {
                    None
                }
            },
            None => None,
        }
    }
}

/// `str::parse::<i128>`: an optional sign and decimal digits, with a value
/// within `i128`; an error otherwise.
#[verifier::external_body]
fn parse_i128(s: &str) -> (r: Option<i128>)
    ensures
        match r {
            Some(v) => parse_signed(s@, i128::MIN as int, i128::MAX as int) == Some(v as int),
            None => parse_signed(s@, i128::MIN as int, i128::MAX as int) is None,
        },
{
    s.parse::<i128>().ok()
}

/// `str::parse::<u128>`: an optional `+` and decimal digits, with a value
/// within `u128`; an error otherwise.
#[verifier::external_body]
fn parse_u128(s: &str) -> (r: Option<u128>)
    ensures
        match r {
            Some(v) => crate::search::parse_number(s@, 10, u128::MAX as int) == Some(v as nat),
            None => crate::search::parse_number(s@, 10, u128::MAX as int) is None,
        },
{
    s.parse::<u128>().ok()
}

/// The full text of an integer or tag read as a number, in lower-case
/// hexadecimal after `0x` (a negative number by its bit pattern); `None`
/// when it does not read as a number.
pub open spec fn hex_of_text(t: Seq<char>) -> Option<Seq<char>> {
    match parse_signed(t, i128::MIN as int, i128::MAX as int) {
        Some(v) => Some(seq!['0', 'x'] + hex_lower(twos_complement_128(v))),
        None => match crate::search::parse_number(t, 10, u128::MAX as int) {
            Some(v) => Some(seq!['0', 'x'] + hex_lower(v)),
            None => None,
        },
    }
}

/// The value shown for a node: in the tree its preview, in the details
/// popup its full text (a text quoted); integers and tags in hexadecimal
/// when that is asked for and their full text reads as a number.
pub open spec fn shown_value(
    value_type: CborType,
    preview: Seq<char>,
    full: Seq<char>,
    show_hex: bool,
    in_details: bool,
) -> Seq<char> {
    let plain = if in_details {
        full
    } else {
        preview
    };
    if show_hex && (value_type == CborType::Integer || value_type == CborType::Tag) {
        match hex_of_text(full) {
            Some(h) => h,
            None => plain,
        }
    } else if in_details && value_type == CborType::TextString {
        seq!['"'] + full + seq!['"']
    } else {
        plain
    }
}

/// The value shown for a node in the tree (`in_details` false) or in the
/// details popup.
pub fn value_display(node: &CborNode, show_hex: bool, in_details: bool) -> (r: String)
    ensures
        r@ == shown_value(node.value_type, node.value_preview@, node.full_value@, show_hex, in_details),
{
    let plain = if in_details {
        node.full_value.clone()
    } else {
        node.value_preview.clone()
    };
    if show_hex && (node.value_type == CborType::Integer || node.value_type == CborType::Tag) {
        match parse_i128(node.full_value.as_str()) {
            Some(v) => {
                let mut s = String::new();
                s.push('0');
                s.push('x');
                let m: u128 = if v < 0 {
                    u128::MAX - ((-(v + 1)) as u128)
                } else {
                    v as u128
                };
                push_hex_lower(&mut s, m);
                proof {
                    assert(s@ =~= seq!['0', 'x'] + hex_lower(twos_complement_128(v as int)));
                }
                s
            },
            None => match parse_u128(node.full_value.as_str()) {
                Some(v) => {
                    let mut s = String::new();
                    s.push('0');
                    s.push('x');
                    push_hex_lower(&mut s, v);
                    proof {
                        assert(s@ =~= seq!['0', 'x'] + hex_lower(v as nat));
                    }
                    s
                },
                None => plain,
            },
        }
    } else if in_details && node.value_type == CborType::TextString {
        let mut s = String::new();
        s.push('"');
        s.push_str(node.full_value.as_str());
        s.push('"');
        proof {
            assert(s@ =~= seq!['"'] + node.full_value@ + seq!['"']);
        }
        s
    } else {
        plain
    }
}

} // verus!
