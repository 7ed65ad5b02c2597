//! The texts that frame the views: titles, tree lines, the path of the
//! selection and the byte range of a node.
use vstd::prelude::*;
use crate::app::App;
use crate::cbor_tree::{CborNode, NodeView};
use crate::text::{decimal, hex_upper, push_decimal, push_hex_upper};

verus! {

/// `n` spaces.
pub open spec fn spaces(n: nat) -> Seq<char> {
    Seq::new(n, |i: int| ' ')
}

/// The indent of a node's line in the tree: two spaces per level.
pub open spec fn indent(depth: int) -> Seq<char> {
    spaces((2 * depth) as nat)
}

/// The arrow before a node in the tree: down for an open node with
/// children, right for a closed one, blank for a node without children.
pub open spec fn expand_icon(v: NodeView) -> Seq<char> {
    if v.children.len() > 0 {
        if v.expanded {
            seq!['\u{25BC}', ' ']
        } else {
            seq!['\u{25B6}', ' ']
        }
    } else {
        seq![' ', ' ']
    }
}

/// A node's key and a colon, if it has a key.
pub open spec fn key_label(v: NodeView) -> Seq<char> {
    match v.key {
        Some(k) => k + seq![':', ' '],
        None => Seq::empty(),
    }
}

/// Writes the indent of a node's line (see `indent`).
pub fn indent_text(depth: usize) -> (r: String)
    ensures
        r@ == indent(depth as int),
{
    let mut s = String::new();
    let mut i: usize = 0;
    while i < depth
        invariant
            0 <= i <= depth,
            s@ == spaces((2 * i) as nat),
        decreases depth - i,
    {
        s.push(' ');
        s.push(' ');
        assert(s@ =~= spaces((2 * (i + 1)) as nat));
        i += 1;
    }
    s
}

/// Writes the arrow before a node (see `expand_icon`).
pub fn expand_icon_text(node: &CborNode) -> (r: String)
    ensures
        r@ == expand_icon(node@),
{
    let mut s = String::new();
    if node.children.len() > 0 {
        if node.expanded {
            s.push('\u{25BC}');
        } else {
            s.push('\u{25B6}');
        }
    } else {
        s.push(' ');
    }
    s.push(' ');
    proof {
        crate::cbor_tree::lemma_node_views_index(node.children@);
        assert(s@ =~= expand_icon(node@));
    }
    s
}

/// Writes a node's key and a colon (see `key_label`).
pub fn key_label_text(node: &CborNode) -> (r: String)
    ensures
        r@ == key_label(node@),
{
    let mut s = String::new();
    match &node.key {
        Some(k) => {
            s.push_str(k.as_str());
            s.push(':');
            s.push(' ');
        },
        None => {},
    }
    assert(s@ =~= key_label(node@));
    s
}

/// The names of a path, one after the other, with `sep` between each two.
pub open spec fn joined(names: Seq<Seq<char>>, sep: Seq<char>) -> Seq<char>
    decreases names.len(),
{
    if names.len() == 0 {
        Seq::empty()
    } else if names.len() == 1 {
        names[0]
    } else {
        joined(names.drop_last(), sep) + sep + names.last()
    }
}

/// The names along a node's path.
pub open spec fn path_names(v: NodeView) -> Seq<Seq<char>> {
    v.path.map_values(|p: (Seq<char>, int)| p.0)
}

/// The separator of the names of a path: an arrow between spaces.
pub open spec fn path_separator() -> Seq<char> {
    seq![' ', '\u{2192}', ' ']
}

/// The path of a node as the status line shows it: its names joined by
/// arrows.
pub fn path_text(node: &CborNode) -> (r: String)
    ensures
        r@ == joined(path_names(node@), path_separator()),
{
    let ghost names = path_names(node@);
    let mut s = String::new();
    let n = node.path.len();
    let mut i: usize = 0;
    proof {
        assert(names.len() == n);
        assert(names.take(0) =~= Seq::<Seq<char>>::empty());
    }
    while i < n
        invariant
            n == node.path@.len(),
            names == path_names(node@),
            names.len() == n,
            forall|j: int| 0 <= j < n ==> #[trigger] names[j] == node.path@[j].name@,
            0 <= i <= n,
            s@ == joined(names.take(i as int), path_separator()),
        decreases n - i,
    {
        let ghost before = s@;
        if i > 0 {
            s.push(' ');
            s.push('\u{2192}');
            s.push(' ');
        }
        s.push_str(node.path[i].name.as_str());
        proof {
            let t = names.take(i + 1);
            assert(t.drop_last() =~= names.take(i as int));
            assert(t.last() == names[i as int]);
            if i == 0 {
                assert(s@ =~= joined(t, path_separator()));
            } else {
                assert(s@ =~= before + path_separator() + names[i as int]);
            }
        }
        i += 1;
    }
    proof {
        assert(names.take(n as int) =~= names);
    }
    s
}

/// The title of the tree view.
pub open spec fn tree_title(file_name: Seq<char>) -> Seq<char> {
    " CBOR Tree - "@ + file_name + seq![' ']
}

/// Writes the title of the tree view.
pub fn tree_title_text(file_name: &str) -> (r: String)
    ensures
        r@ == tree_title(file_name@),
{
    let mut s = String::new();
    s.push_str(" CBOR Tree - ");
    s.push_str(file_name);
    s.push(' ');
    proof {
        assert(Seq::<char>::empty() + " CBOR Tree - "@ =~= " CBOR Tree - "@);
    }
    s
}

/// The title of the hex view: the size of the data, and when zoomed where
/// the zoomed chunk starts (or that none was found).
pub open spec fn hex_title(a: App) -> Seq<char> {
    let size = decimal(a.raw_bytes@.len() as nat) + " bytes "@;
    if a.is_zoomed {
        if a.chunks@.len() > 0 {
            " Hex View (Zoomed at 0x"@ + hex_upper(a.chunks@[0].offset as nat) + ") - "@ + size
        } else {
            " Hex View (Zoomed) - No data found "@
        }
    } else {
        " Hex View - "@ + size
    }
}

/// Writes the title of the hex view.
pub fn hex_title_text(app: &App) -> (r: String)
    ensures
        r@ == hex_title(*app),
{
    let mut s = String::new();
    if app.is_zoomed {
        if app.chunks.len() > 0 {
            s.push_str(" Hex View (Zoomed at 0x");
            push_hex_upper(&mut s, app.chunks[0].offset as u128);
            s.push_str(") - ");
            proof {
                assert(Seq::<char>::empty() + " Hex View (Zoomed at 0x"@ =~= " Hex View (Zoomed at 0x"@);
            }
        } else {
            s.push_str(" Hex View (Zoomed) - No data found ");
            proof {
                assert(Seq::<char>::empty() + " Hex View (Zoomed) - No data found "@
                    =~= " Hex View (Zoomed) - No data found "@);
            }
            return s;
        }
    } else {
        s.push_str(" Hex View - ");
        proof {
            assert(Seq::<char>::empty() + " Hex View - "@ =~= " Hex View - "@);
        }
    }
    let ghost head = s@;
    push_decimal(&mut s, app.raw_bytes.len() as u128);
    s.push_str(" bytes ");
    proof {
        assert(s@ =~= head + (decimal(app.raw_bytes@.len() as nat) + " bytes "@));
    }
    s
}

/// The byte range of a node as the details popup shows it: start, end and
/// length (none for a range that ends before it starts).
pub open spec fn range_label(v: NodeView) -> Seq<char> {
    let len = if v.end >= v.start {
        v.end - v.start
    } else {
        0
    };
    decimal(v.start as nat) + seq!['.', '.'] + decimal(v.end as nat) + seq![' ', '('] + decimal(len as nat)
        + " bytes)"@
}

/// Writes the byte range of a node (see `range_label`).
pub fn range_text(node: &CborNode) -> (r: String)
    ensures
        r@ == range_label(node@),
{
    let mut s = String::new();
    push_decimal(&mut s, node.range.start as u128);
    s.push('.');
    s.push('.');
    push_decimal(&mut s, node.range.end as u128);
    s.push(' ');
    s.push('(');
    let len = if node.range.end >= node.range.start {
        node.range.end - node.range.start
    } else {
        0
    };
    push_decimal(&mut s, len as u128);
    s.push_str(" bytes)");
    proof {
        assert(s@ =~= range_label(node@));
    }
    s
}

} // verus!
