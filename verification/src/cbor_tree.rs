//! The tree of nodes shown in the tree view.
use vstd::prelude::*;
use std::ops::Range;
use crate::value::CborValue;
use crate::text::{hex_joined, int_text, push_hex_byte, push_int};

verus! {

/// How likely a chunk is to be CBOR.
#[derive(Debug, Clone, Copy, PartialEq, Eq, Structural)]
pub enum ConfidenceLevel {
    Highest,
    High,
    Low,
    Garbage,
}

#[derive(Debug, Clone, Copy, PartialEq, Eq, Structural)]
pub enum CborType {
    Null,
    Bool,
    Integer,
    Float,
    ByteString,
    TextString,
    Array,
    Mapping,
    Tag,
}

impl CborType {
    /// The short name of the type, as shown in the tree.
    pub open spec fn spec_name(self) -> Seq<char> {
        match self {
            CborType::Null => "null"@,
            CborType::Bool => "bool"@,
            CborType::Integer => "int"@,
            CborType::Float => "float"@,
            CborType::ByteString => "bytes"@,
            CborType::TextString => "text"@,
            CborType::Array => "array"@,
            CborType::Mapping => "map"@,
            CborType::Tag => "tag"@,
        }
    }
}

impl CborType {
    /// The short name of the type, as shown in the tree.
    pub fn name(&self) -> (r: String)
        ensures
            r@ == self.spec_name(),
    {
        match self {
            CborType::Null => "null".to_owned(),
            CborType::Bool => "bool".to_owned(),
            CborType::Integer => "int".to_owned(),
            CborType::Float => "float".to_owned(),
            CborType::ByteString => "bytes".to_owned(),
            CborType::TextString => "text".to_owned(),
            CborType::Array => "array".to_owned(),
            CborType::Mapping => "map".to_owned(),
            CborType::Tag => "tag".to_owned(),
        }
    }
}

/// The text under which a map key is shown: a text as it is, an integer in
/// decimal, a byte string in hexadecimal after `0x`, anything else as `?`.
pub open spec fn key_text(v: CborValue) -> Seq<char> {
    match v {
        CborValue::Text(s) => s@,
        CborValue::Integer(i) => int_text(i as int),
        CborValue::Bytes(b) => seq!['0', 'x'] + hex_joined(b@),
        _ => "?"@,
    }
}

pub fn value_to_key_string(value: &CborValue) -> (r: String)
    ensures
        r@ == key_text(*value),
{
    match value {
        CborValue::Text(s) => s.clone(),
        CborValue::Integer(i) => {
            let mut r = String::new();
            push_int(&mut r, *i);
            proof {
                assert(Seq::<char>::empty() + int_text(*i as int) =~= int_text(*i as int));
            }
            r
        },
        CborValue::Bytes(b) => {
            let mut r = String::new();
            r.push('0');
            r.push('x');
            let n = b.len();
            let mut j: usize = 0;
            while j < n
                invariant
                    n == b@.len(),
                    0 <= j <= n,
                    r@ == seq!['0', 'x'] + hex_joined(b@.take(j as int)),
                decreases n - j,
            {
                push_hex_byte(&mut r, b[j]);
                proof {
                    assert(b@.take(j + 1).drop_last() =~= b@.take(j as int));
                }
                j += 1;
                proof {
                    assert(r@ =~= seq!['0', 'x'] + hex_joined(b@.take(j as int)));
                }
            }
            proof {
                assert(b@.take(n as int) =~= b@);
            }
            r
        },
        _ => "?".to_owned(),
    }
}

/// A segment in the breadcrumb path
#[derive(Debug)]
pub struct PathSegment {
    pub name: String,
    pub depth: usize,
}

/// Represents a node in the CBOR tree structure
#[derive(Debug)]
pub struct CborNode {
    pub key: Option<String>,
    pub value_type: CborType,
    pub value_preview: String,
    pub full_value: String,
    pub children: Vec<CborNode>,
    pub expanded: bool,
    pub depth: usize,
    pub path: Vec<PathSegment>,
    pub range: Range<usize>,
    pub confidence: Option<ConfidenceLevel>,
}

/// The mathematical view of a node.
pub struct NodeView {
    pub key: Option<Seq<char>>,
    pub value_type: CborType,
    pub value_preview: Seq<char>,
    pub full_value: Seq<char>,
    pub children: Seq<NodeView>,
    pub expanded: bool,
    pub depth: int,
    pub path: Seq<(Seq<char>, int)>,
    pub start: int,
    pub end: int,
    pub confidence: Option<ConfidenceLevel>,
}

pub open spec fn key_view(k: Option<String>) -> Option<Seq<char>> {
    match k {
        Some(s) => Some(s@),
        None => None,
    }
}

pub open spec fn path_view(p: Seq<PathSegment>) -> Seq<(Seq<char>, int)> {
    p.map_values(|s: PathSegment| (s.name@, s.depth as int))
}

pub open spec fn node_view(n: CborNode) -> NodeView
    decreases n,
{
    NodeView {
        key: key_view(n.key),
        value_type: n.value_type,
        value_preview: n.value_preview@,
        full_value: n.full_value@,
        children: node_views(n.children@),
        expanded: n.expanded,
        depth: n.depth as int,
        path: path_view(n.path@),
        start: n.range.start as int,
        end: n.range.end as int,
        confidence: n.confidence,
    }
}

pub open spec fn node_views(cs: Seq<CborNode>) -> Seq<NodeView>
    decreases cs,
{
    if cs.len() == 0 {
        seq![]
    } else {
        node_views(cs.drop_last()).push(node_view(cs.last()))
    }
}

impl View for CborNode {
    type V = NodeView;

    open spec fn view(&self) -> NodeView {
        node_view(*self)
    }
}

pub proof fn lemma_node_views_index(cs: Seq<CborNode>)
    ensures
        node_views(cs).len() == cs.len(),
        forall|i: int| 0 <= i < cs.len() ==> #[trigger] node_views(cs)[i] == cs[i]@,
    decreases cs.len(),
{
    if cs.len() > 0 {
        lemma_node_views_index(cs.drop_last());
    }
}

/// The visible nodes in display order: the node, then, when it is
/// expanded, the visible nodes of each child in turn.
pub open spec fn flat(v: NodeView) -> Seq<NodeView>
    decreases v,
{
    seq![v] + if v.expanded {
        flat_all(v.children)
    } else {
        seq![]
    }
}

pub open spec fn flat_all(cs: Seq<NodeView>) -> Seq<NodeView>
    decreases cs,
{
    if cs.len() == 0 {
        seq![]
    } else {
        flat_all(cs.drop_last()) + flat(cs.last())
    }
}

/// All nodes, expanded or not, in display order.
pub open spec fn all_nodes(v: NodeView) -> Seq<NodeView>
    decreases v,
{
    seq![v] + all_nodes_of(v.children)
}

pub open spec fn all_nodes_of(cs: Seq<NodeView>) -> Seq<NodeView>
    decreases cs,
{
    if cs.len() == 0 {
        seq![]
    } else {
        all_nodes_of(cs.drop_last()) + all_nodes(cs.last())
    }
}

} // verus!

verus! {

/// The views of the nodes that references point to.
pub open spec fn refs_view(s: Seq<&CborNode>) -> Seq<NodeView> {
    s.map_values(|x: &CborNode| x@)
}

/// The node covers byte `off`.
pub open spec fn covers(v: NodeView, off: int) -> bool {
    v.start <= off < v.end
}

/// Every node with its expanded flag set to `b`.
pub open spec fn with_all_expanded(v: NodeView, b: bool) -> NodeView
    decreases v,
{
    NodeView { expanded: b, children: all_with_expanded(v.children, b), ..v }
}

pub open spec fn all_with_expanded(cs: Seq<NodeView>, b: bool) -> Seq<NodeView>
    decreases cs,
{
    if cs.len() == 0 {
        seq![]
    } else {
        all_with_expanded(cs.drop_last(), b).push(with_all_expanded(cs.last(), b))
    }
}

/// The nodes from this node down to the deepest node covering `off`,
/// following at each level the first child that covers it; empty when the
/// node does not cover `off`.
pub open spec fn path_to(v: NodeView, off: int) -> Seq<NodeView>
    decreases v,
{
    if covers(v, off) {
        seq![v] + path_in(v.children, off)
    } else {
        seq![]
    }
}

pub open spec fn path_in(cs: Seq<NodeView>, off: int) -> Seq<NodeView>
    decreases cs,
{
    if cs.len() == 0 {
        seq![]
    } else if covers(cs[0], off) {
        path_to(cs[0], off)
    } else {
        path_in(cs.drop_first(), off)
    }
}

/// The node with every node of `path_to(v, off)` expanded.
pub open spec fn expand_path(v: NodeView, off: int) -> NodeView
    decreases v,
{
    if covers(v, off) {
        NodeView { expanded: true, children: expand_path_in(v.children, off), ..v }
    } else {
        v
    }
}

pub open spec fn expand_path_in(cs: Seq<NodeView>, off: int) -> Seq<NodeView>
    decreases cs,
{
    if cs.len() == 0 {
        cs
    } else if covers(cs[0], off) {
        cs.update(0, expand_path(cs[0], off))
    } else {
        seq![cs[0]] + expand_path_in(cs.drop_first(), off)
    }
}

pub proof fn lemma_all_with_expanded_index(cs: Seq<NodeView>, b: bool)
    ensures
        all_with_expanded(cs, b).len() == cs.len(),
        forall|i: int| 0 <= i < cs.len() ==> #[trigger] all_with_expanded(cs, b)[i] == with_all_expanded(cs[i], b),
    decreases cs.len(),
{
    if cs.len() > 0 {
        lemma_all_with_expanded_index(cs.drop_last(), b);
    }
}

/// Replaces the node at position `k` among the visible nodes by `m`.
pub open spec fn set_flat(v: NodeView, k: int, m: NodeView) -> NodeView
    decreases v,
{
    if k == 0 {
        m
    } else {
        NodeView { children: set_flat_in(v.children, k - 1, m), ..v }
    }
}

pub open spec fn set_flat_in(cs: Seq<NodeView>, k: int, m: NodeView) -> Seq<NodeView>
    decreases cs,
{
    if cs.len() == 0 {
        cs
    } else if k < flat(cs[0]).len() {
        cs.update(0, set_flat(cs[0], k, m))
    } else {
        seq![cs[0]] + set_flat_in(cs.drop_first(), k - flat(cs[0]).len(), m)
    }
}

pub proof fn lemma_flat_all_push(s: Seq<NodeView>, x: NodeView)
    ensures
        flat_all(s.push(x)) == flat_all(s) + flat(x),
{
    assert(s.push(x).drop_last() =~= s);
}

pub proof fn lemma_flat_all_concat(a: Seq<NodeView>, b: Seq<NodeView>)
    ensures
        flat_all(a + b) == flat_all(a) + flat_all(b),
    decreases b.len(),
{
    if b.len() == 0 {
        assert(a + b =~= a);
        assert(flat_all(a) + Seq::<NodeView>::empty() =~= flat_all(a));
    } else {
        lemma_flat_all_concat(a, b.drop_last());
        assert((a + b).drop_last() =~= a + b.drop_last());
        assert((flat_all(a) + flat_all(b.drop_last())) + flat(b.last()) =~= flat_all(a) + (
        flat_all(b.drop_last()) + flat(b.last())));
    }
}

/// The visible nodes of a run of children: those before child `i`, those of
/// child `i`, and those after.
pub proof fn lemma_flat_split(cs: Seq<NodeView>, i: int)
    requires
        0 <= i < cs.len(),
    ensures
        flat_all(cs) == flat_all(cs.take(i)) + flat(cs[i]) + flat_all(cs.skip(i + 1)),
{
    lemma_flat_all_concat(cs.take(i + 1), cs.skip(i + 1));
    assert(cs.take(i + 1) + cs.skip(i + 1) =~= cs);
    lemma_flat_all_push(cs.take(i), cs[i]);
    assert(cs.take(i).push(cs[i]) =~= cs.take(i + 1));
}

/// Replacing a visible node inside child `i` replaces it in that child.
pub proof fn lemma_set_flat_in_at(cs: Seq<NodeView>, i: int, r: int, m: NodeView)
    requires
        0 <= i < cs.len(),
        0 <= r < flat(cs[i]).len(),
    ensures
        set_flat_in(cs, flat_all(cs.take(i)).len() + r, m) == cs.update(i, set_flat(cs[i], r, m)),
    decreases i,
{
    if i == 0 {
        assert(cs.take(0) =~= Seq::<NodeView>::empty());
    } else {
        let rest = cs.drop_first();
        lemma_set_flat_in_at(rest, i - 1, r, m);
        lemma_flat_all_concat(seq![cs[0]], rest.take(i - 1));
        assert(seq![cs[0]] + rest.take(i - 1) =~= cs.take(i));
        assert(flat_all(seq![cs[0]]) =~= flat(cs[0])) by {
            reveal_with_fuel(flat_all, 2);
            assert(seq![cs[0]].drop_last() =~= Seq::<NodeView>::empty());
            assert(Seq::<NodeView>::empty() + flat(cs[0]) =~= flat(cs[0]));
        }
        assert(rest[i - 1] == cs[i]);
        assert(seq![cs[0]] + rest.update(i - 1, set_flat(cs[i], r, m)) =~= cs.update(i, set_flat(cs[i], r, m)));
    }
}

pub broadcast proof fn lemma_node_views_set(cs: Seq<CborNode>, i: int, e: CborNode)
    requires
        0 <= i < cs.len(),
    ensures
        #[trigger] node_views(cs.update(i, e)) == node_views(cs).update(i, e@),
{
    lemma_node_views_index(cs);
    lemma_node_views_index(cs.update(i, e));
    assert(node_views(cs.update(i, e)) =~= node_views(cs).update(i, e@));
}

pub proof fn lemma_path_to_nonempty(v: NodeView, off: int)
    ensures
        path_to(v, off).len() > 0 <==> covers(v, off),
{
}

pub proof fn lemma_expand_path_noop(v: NodeView, off: int)
    requires
        !covers(v, off),
    ensures
        expand_path(v, off) == v,
{
}

/// Expanding along a path changes only the first child that covers the
/// offset.
pub proof fn lemma_expand_path_in_at(cs: Seq<NodeView>, off: int, k: int)
    requires
        0 <= k < cs.len(),
        covers(cs[k], off),
        forall|j: int| 0 <= j < k ==> !covers(#[trigger] cs[j], off),
    ensures
        expand_path_in(cs, off) == cs.update(k, expand_path(cs[k], off)),
    decreases cs.len(),
{
    if k > 0 {
        let rest = cs.drop_first();
        assert forall|j: int| 0 <= j < k - 1 implies !covers(#[trigger] rest[j], off) by {
            assert(rest[j] == cs[j + 1]);
        }
        assert(!covers(cs[0], off));
        lemma_expand_path_in_at(rest, off, k - 1);
        assert(seq![cs[0]] + rest.update(k - 1, expand_path(cs[k], off)) =~= cs.update(k, expand_path(cs[k], off)));
    }
}

pub proof fn lemma_expand_path_in_none(cs: Seq<NodeView>, off: int)
    requires
        forall|j: int| 0 <= j < cs.len() ==> !covers(#[trigger] cs[j], off),
    ensures
        expand_path_in(cs, off) == cs,
    decreases cs.len(),
{
    if cs.len() > 0 {
        let rest = cs.drop_first();
        assert forall|j: int| 0 <= j < rest.len() implies !covers(#[trigger] rest[j], off) by {
            assert(rest[j] == cs[j + 1]);
        }
        assert(!covers(cs[0], off));
        lemma_expand_path_in_none(rest, off);
        assert(seq![cs[0]] + rest =~= cs);
    }
}

/// The visible nodes of a run of children: those of the first child, then
/// those of the rest.
proof fn lemma_flat_all_front(cs: Seq<NodeView>)
    requires
        cs.len() > 0,
    ensures
        flat_all(cs) == flat(cs[0]) + flat_all(cs.drop_first()),
{
    lemma_flat_all_concat(seq![cs[0]], cs.drop_first());
    assert(seq![cs[0]] + cs.drop_first() =~= cs);
    assert(flat_all(seq![cs[0]]) =~= flat(cs[0])) by {
        reveal_with_fuel(flat_all, 2);
        assert(seq![cs[0]].drop_last() =~= Seq::<NodeView>::empty());
        assert(Seq::<NodeView>::empty() + flat(cs[0]) =~= flat(cs[0]));
    }
}

/// Writing back, unchanged, the node found at a visible position leaves
/// the tree as it was.
pub proof fn law_writing_back_a_visible_node_changes_nothing(v: NodeView, k: int)
    requires
        0 <= k < flat(v).len(),
    ensures
        set_flat(v, k, flat(v)[k]) == v,
    decreases v,
{
    if k > 0 {
        assert(v.expanded);
        assert(flat(v)[k] == flat_all(v.children)[k - 1]);
        lemma_set_flat_in_unchanged(v.children, k - 1);
        assert(set_flat(v, k, flat(v)[k]) =~= v);
    }
}

proof fn lemma_set_flat_in_unchanged(cs: Seq<NodeView>, j: int)
    requires
        0 <= j < flat_all(cs).len(),
    ensures
        set_flat_in(cs, j, flat_all(cs)[j]) == cs,
    decreases cs,
{
    if cs.len() > 0 {
        lemma_flat_all_front(cs);
        let l = flat(cs[0]).len();
        let m = flat_all(cs)[j];
        if j < l {
            assert(m == flat(cs[0])[j]);
            law_writing_back_a_visible_node_changes_nothing(cs[0], j);
            assert(cs.update(0, cs[0]) =~= cs);
        } else {
            let rest = cs.drop_first();
            assert(m == flat_all(rest)[j - l]);
            lemma_set_flat_in_unchanged(rest, j - l);
            assert(seq![cs[0]] + rest =~= cs);
        }
    }
}

/// Expanding the path to `off` opens the nodes of that path and changes
/// nothing else of them: the path afterwards is the old path, each node
/// expanded along `off`.
proof fn lemma_path_of_expanded(v: NodeView, off: int)
    ensures
        path_to(expand_path(v, off), off) =~= path_to(v, off).map_values(|x: NodeView| expand_path(x, off)),
    decreases v,
{
    if covers(v, off) {
        lemma_path_in_of_expanded(v.children, off);
        let f = |x: NodeView| expand_path(x, off);
        let w = expand_path(v, off);
        assert(covers(w, off));
        assert(path_to(w, off) == seq![w] + path_in(w.children, off));
        assert((seq![v] + path_in(v.children, off)).map_values(f) =~= seq![w] + path_in(v.children, off).map_values(f));
    }
}

proof fn lemma_path_in_of_expanded(cs: Seq<NodeView>, off: int)
    ensures
        path_in(expand_path_in(cs, off), off) =~= path_in(cs, off).map_values(|x: NodeView| expand_path(x, off)),
    decreases cs,
{
    if cs.len() > 0 {
        let es = expand_path_in(cs, off);
        if covers(cs[0], off) {
            lemma_path_of_expanded(cs[0], off);
            lemma_expand_path_keeps_range(cs[0], off);
            assert(es[0] == expand_path(cs[0], off));
            assert(path_in(es, off) == path_to(es[0], off));
        } else {
            let rest = cs.drop_first();
            lemma_path_in_of_expanded(rest, off);
            let er = expand_path_in(rest, off);
            assert(es == seq![cs[0]] + er);
            assert(es[0] == cs[0]);
            assert(es.drop_first() =~= er);
        }
    }
}

/// The positions in `flat(w)` of the nodes of `path_to(w, off)`.
pub open spec fn path_positions(w: NodeView, off: int) -> Seq<int>
    decreases w,
{
    if covers(w, off) {
        seq![0int] + path_positions_in(w.children, off).map_values(|x: int| x + 1)
    } else {
        seq![]
    }
}

pub open spec fn path_positions_in(cs: Seq<NodeView>, off: int) -> Seq<int>
    decreases cs,
{
    if cs.len() == 0 {
        seq![]
    } else if covers(cs[0], off) {
        path_positions(cs[0], off)
    } else {
        path_positions_in(cs.drop_first(), off).map_values(|x: int| x + flat(cs[0]).len())
    }
}

/// `pos` lists, in increasing order, positions in `fl` that hold the nodes
/// of `path`.
pub open spec fn shown_in_order(path: Seq<NodeView>, pos: Seq<int>, fl: Seq<NodeView>) -> bool {
    &&& pos.len() == path.len()
    &&& forall|k: int| 0 <= k < pos.len() ==> 0 <= #[trigger] pos[k] < fl.len() && fl[pos[k]] == path[k]
    &&& forall|k1: int, k2: int| 0 <= k1 < k2 < pos.len() ==> #[trigger] pos[k1] < #[trigger] pos[k2]
}

/// When every node of the path to `off` is open, the path is shown in
/// order among the visible nodes.
proof fn lemma_open_path_in_order(w: NodeView, off: int)
    requires
        forall|k: int| 0 <= k < path_to(w, off).len() ==> (#[trigger] path_to(w, off)[k]).expanded,
    ensures
        shown_in_order(path_to(w, off), path_positions(w, off), flat(w)),
    decreases w,
{
    if covers(w, off) {
        let p = path_to(w, off);
        let rest = path_in(w.children, off);
        assert(p == seq![w] + rest);
        assert(p[0] == w);
        assert(w.expanded);
        assert forall|k: int| 0 <= k < rest.len() implies (#[trigger] rest[k]).expanded by {
            assert(p[k + 1] == rest[k]);
        }
        lemma_open_path_in_order_in(w.children, off);
        let pi = path_positions_in(w.children, off);
        let pos = path_positions(w, off);
        let fl = flat(w);
        assert(fl == seq![w] + flat_all(w.children));
        assert(pos == seq![0int] + pi.map_values(|x: int| x + 1));
        assert forall|k: int| 0 <= k < pos.len() implies 0 <= #[trigger] pos[k] < fl.len() && fl[pos[k]] == p[k] by {
            if k > 0 {
                assert(pos[k] == pi[k - 1] + 1);
                assert(p[k] == rest[k - 1]);
                assert(fl[pi[k - 1] + 1] == flat_all(w.children)[pi[k - 1]]);
            }
        }
        assert forall|k1: int, k2: int| 0 <= k1 < k2 < pos.len() implies #[trigger] pos[k1] < #[trigger] pos[k2] by {
            assert(pos[k2] == pi[k2 - 1] + 1);
            if k1 > 0 {
                assert(pos[k1] == pi[k1 - 1] + 1);
                assert(pi[k1 - 1] < pi[k2 - 1]);
            } else {
                assert(0 <= pi[k2 - 1]);
            }
        }
    }
}

proof fn lemma_open_path_in_order_in(cs: Seq<NodeView>, off: int)
    requires
        forall|k: int| 0 <= k < path_in(cs, off).len() ==> (#[trigger] path_in(cs, off)[k]).expanded,
    ensures
        shown_in_order(path_in(cs, off), path_positions_in(cs, off), flat_all(cs)),
    decreases cs,
{
    if cs.len() > 0 {
        lemma_flat_all_front(cs);
        let fl = flat_all(cs);
        if covers(cs[0], off) {
            assert(path_in(cs, off) == path_to(cs[0], off));
            lemma_open_path_in_order(cs[0], off);
            let pos = path_positions(cs[0], off);
            assert forall|k: int| 0 <= k < pos.len() implies 0 <= #[trigger] pos[k] < fl.len() && fl[pos[k]]
                == path_in(cs, off)[k] by {
                assert(fl[pos[k]] == flat(cs[0])[pos[k]]);
            }
        } else {
            let rest = cs.drop_first();
            assert(path_in(cs, off) == path_in(rest, off));
            lemma_open_path_in_order_in(rest, off);
            let l = flat(cs[0]).len();
            let pr = path_positions_in(rest, off);
            let pos = path_positions_in(cs, off);
            assert(pos == pr.map_values(|x: int| x + l));
            assert forall|k: int| 0 <= k < pos.len() implies 0 <= #[trigger] pos[k] < fl.len() && fl[pos[k]]
                == path_in(cs, off)[k] by {
                assert(pos[k] == pr[k] + l);
                assert(fl[pr[k] + l] == flat_all(rest)[pr[k]]);
            }
            assert forall|k1: int, k2: int| 0 <= k1 < k2 < pos.len() implies #[trigger] pos[k1] < #[trigger] pos[k2] by {
                assert(pos[k1] == pr[k1] + l);
                assert(pos[k2] == pr[k2] + l);
                assert(pr[k1] < pr[k2]);
            }
        }
    }
}

/// After the path to an offset is expanded, its nodes are shown in order
/// among the visible nodes, and the path is the old one with each of its
/// nodes expanded along the offset (the same nodes, with the same ranges,
/// now open).
pub proof fn law_expanded_path_is_shown_in_order(v: NodeView, off: int)
    ensures
        shown_in_order(
            path_to(expand_path(v, off), off),
            path_positions(expand_path(v, off), off),
            flat(expand_path(v, off)),
        ),
        path_to(expand_path(v, off), off) == path_to(v, off).map_values(|x: NodeView| expand_path(x, off)),
{
    law_expanded_path_is_visible(v, off);
    lemma_path_of_expanded(v, off);
    lemma_open_path_in_order(expand_path(v, off), off);
}

/// Every node of the path to `off` covers `off`.
proof fn lemma_path_covers(v: NodeView, off: int)
    ensures
        forall|k: int| 0 <= k < path_to(v, off).len() ==> covers(#[trigger] path_to(v, off)[k], off),
    decreases v,
{
    if covers(v, off) {
        lemma_path_in_covers(v.children, off);
        let p = path_to(v, off);
        let rest = path_in(v.children, off);
        assert forall|k: int| 0 <= k < p.len() implies covers(#[trigger] p[k], off) by {
            if k > 0 {
                assert(p[k] == rest[k - 1]);
            }
        }
    }
}

proof fn lemma_path_in_covers(cs: Seq<NodeView>, off: int)
    ensures
        forall|k: int| 0 <= k < path_in(cs, off).len() ==> covers(#[trigger] path_in(cs, off)[k], off),
    decreases cs,
{
    if cs.len() > 0 {
        if covers(cs[0], off) {
            lemma_path_covers(cs[0], off);
            assert(path_in(cs, off) == path_to(cs[0], off));
        } else {
            lemma_path_in_covers(cs.drop_first(), off);
            assert(path_in(cs, off) == path_in(cs.drop_first(), off));
        }
    }
}

/// Expanding the path to an offset keeps that path: it has as many nodes
/// as before, each the node it was (key, value, range, depth and path),
/// now open, with its children opened along the offset.
pub proof fn law_expanding_keeps_the_path(v: NodeView, off: int)
    ensures
        path_to(expand_path(v, off), off).len() == path_to(v, off).len(),
        forall|k: int|
            0 <= k < path_to(v, off).len() ==> #[trigger] path_to(expand_path(v, off), off)[k] == (NodeView {
                expanded: true,
                children: expand_path_in(path_to(v, off)[k].children, off),
                ..path_to(v, off)[k]
            }),
{
    lemma_path_of_expanded(v, off);
    lemma_path_covers(v, off);
    let p = path_to(v, off);
    assert forall|k: int| 0 <= k < p.len() implies #[trigger] path_to(expand_path(v, off), off)[k] == (NodeView {
        expanded: true,
        children: expand_path_in(p[k].children, off),
        ..p[k]
    }) by {
        assert(covers(p[k], off));
    }
}

/// After every node is expanded, the visible nodes are all the nodes.
pub proof fn law_expanded_tree_shows_every_node(v: NodeView)
    ensures
        flat(with_all_expanded(v, true)) == all_nodes(with_all_expanded(v, true)),
    decreases v,
{
    lemma_expanded_children_show_every_node(v.children);
}

proof fn lemma_expanded_children_show_every_node(cs: Seq<NodeView>)
    ensures
        flat_all(all_with_expanded(cs, true)) == all_nodes_of(all_with_expanded(cs, true)),
    decreases cs,
{
    if cs.len() > 0 {
        lemma_expanded_children_show_every_node(cs.drop_last());
        law_expanded_tree_shows_every_node(cs.last());
        let s = all_with_expanded(cs.drop_last(), true);
        let x = with_all_expanded(cs.last(), true);
        assert(s.push(x).drop_last() =~= s);
    }
}

/// After every node is collapsed, the only visible node is the root.
pub proof fn law_collapsed_tree_shows_root(v: NodeView)
    ensures
        flat(with_all_expanded(v, false)) == seq![with_all_expanded(v, false)],
{
    assert(seq![with_all_expanded(v, false)] + Seq::<NodeView>::empty() =~= seq![
        with_all_expanded(v, false),
    ]);
}

proof fn lemma_contains_right(a: Seq<NodeView>, b: Seq<NodeView>, x: NodeView)
    requires
        b.contains(x),
    ensures
        (a + b).contains(x),
{
    let j = choose|j: int| 0 <= j < b.len() && b[j] == x;
    assert((a + b)[a.len() + j] == x);
}

proof fn lemma_contains_left(a: Seq<NodeView>, b: Seq<NodeView>, x: NodeView)
    requires
        a.contains(x),
    ensures
        (a + b).contains(x),
{
    let j = choose|j: int| 0 <= j < a.len() && a[j] == x;
    assert((a + b)[j] == x);
}

/// Expanding along a path keeps each node's byte range.
proof fn lemma_expand_path_keeps_range(v: NodeView, off: int)
    ensures
        expand_path(v, off).start == v.start,
        expand_path(v, off).end == v.end,
{
}

/// After the path to an offset is expanded, every node on that path is
/// visible and expanded.
pub proof fn law_expanded_path_is_visible(v: NodeView, off: int)
    ensures
        forall|k: int| #![trigger path_to(expand_path(v, off), off)[k]]
            0 <= k < path_to(expand_path(v, off), off).len() ==> {
                &&& flat(expand_path(v, off)).contains(path_to(expand_path(v, off), off)[k])
                &&& path_to(expand_path(v, off), off)[k].expanded
            },
        path_to(expand_path(v, off), off).len() == path_to(v, off).len(),
    decreases v,
{
    let w = expand_path(v, off);
    if covers(v, off) {
        lemma_expanded_path_in_is_visible(v.children, off);
        let rest = path_in(w.children, off);
        assert(path_to(w, off) == seq![w] + rest);
        assert(flat(w) == seq![w] + flat_all(w.children));
        assert forall|k: int| #![trigger path_to(w, off)[k]] 0 <= k < path_to(w, off).len() implies {
            &&& flat(w).contains(path_to(w, off)[k])
            &&& path_to(w, off)[k].expanded
        } by {
            if k == 0 {
                assert(flat(w)[0] == w);
            } else {
                assert(path_to(w, off)[k] == rest[k - 1]);
                lemma_contains_right(seq![w], flat_all(w.children), rest[k - 1]);
            }
        }
    }
}

proof fn lemma_expanded_path_in_is_visible(cs: Seq<NodeView>, off: int)
    ensures
        forall|k: int| #![trigger path_in(expand_path_in(cs, off), off)[k]]
            0 <= k < path_in(expand_path_in(cs, off), off).len() ==> {
                &&& flat_all(expand_path_in(cs, off)).contains(path_in(expand_path_in(cs, off), off)[k])
                &&& path_in(expand_path_in(cs, off), off)[k].expanded
            },
        path_in(expand_path_in(cs, off), off).len() == path_in(cs, off).len(),
    decreases cs,
{
    let es = expand_path_in(cs, off);
    if cs.len() > 0 {
        if covers(cs[0], off) {
            let c = expand_path(cs[0], off);
            law_expanded_path_is_visible(cs[0], off);
            lemma_expand_path_keeps_range(cs[0], off);
            assert(es[0] == c);
            assert(path_in(es, off) == path_to(c, off));
            lemma_flat_split(es, 0);
            assert(es.take(0) =~= Seq::<NodeView>::empty());
            assert forall|k: int| #![trigger path_in(es, off)[k]] 0 <= k < path_in(es, off).len() implies {
                &&& flat_all(es).contains(path_in(es, off)[k])
                &&& path_in(es, off)[k].expanded
            } by {
                let x = path_to(c, off)[k];
                lemma_contains_left(flat(c), flat_all(es.skip(1)), x);
                lemma_contains_right(flat_all(es.take(0)), flat(c) + flat_all(es.skip(1)), x);
                assert(flat_all(es.take(0)) + flat(c) + flat_all(es.skip(1)) =~= flat_all(es.take(0))
                    + (flat(c) + flat_all(es.skip(1))));
            }
        } else {
            let rest = cs.drop_first();
            lemma_expanded_path_in_is_visible(rest, off);
            let er = expand_path_in(rest, off);
            assert(es == seq![cs[0]] + er);
            assert(es[0] == cs[0]);
            assert(es.drop_first() =~= er);
            assert(path_in(es, off) == path_in(er, off));
            lemma_flat_all_concat(seq![cs[0]], er);
            assert forall|k: int| #![trigger path_in(es, off)[k]] 0 <= k < path_in(es, off).len() implies {
                &&& flat_all(es).contains(path_in(es, off)[k])
                &&& path_in(es, off)[k].expanded
            } by {
                lemma_contains_right(flat_all(seq![cs[0]]), flat_all(er), path_in(er, off)[k]);
            }
        }
    }
}

/// Replacing visible node `k` of a node replaces visible node `r` of its
/// child `i`, where `k` counts the node itself and the children before `i`.
pub proof fn lemma_set_flat_child(v: NodeView, i: int, r: int, k: int)
    requires
        0 <= i < v.children.len(),
        0 <= r < flat(v.children[i]).len(),
        k == 1 + flat_all(v.children.take(i)).len() + r,
    ensures
        forall|m: NodeView| #[trigger] set_flat(v, k, m) == (NodeView {
            children: v.children.update(i, set_flat(v.children[i], r, m)),
            ..v
        }),
{
    assert forall|m: NodeView| #[trigger] set_flat(v, k, m) == (NodeView {
        children: v.children.update(i, set_flat(v.children[i], r, m)),
        ..v
    }) by {
        lemma_set_flat_in_at(v.children, i, r, m);
    }
}

impl CborNode {
    pub fn has_children(&self) -> (r: bool)
        ensures
            r == (self@.children.len() > 0),
    {
        proof {
            lemma_node_views_index(self.children@);
        }
        !self.children.is_empty()
    }

    /// Get all visible nodes as a flat list for rendering
    pub fn flatten(&self) -> (r: Vec<&CborNode>)
        ensures
            refs_view(r@) == flat(self@),
        decreases *self,
    {
        let ghost v = self@;
        proof {
            lemma_node_views_index(self.children@);
        }
        let mut result: Vec<&CborNode> = Vec::new();
        result.push(self);
        proof {
            assert(refs_view(result@) =~= seq![v]);
        }
        if self.expanded {
            let n = self.children.len();
            let mut i: usize = 0;
            proof {
                assert(v.children.take(0) =~= Seq::<NodeView>::empty());
                assert(seq![v] + flat_all(v.children.take(0)) =~= seq![v]);
            }
            while i < n
                invariant
                    v == self@,
                    n == self.children@.len(),
                    v.children.len() == n,
                    forall|j: int| 0 <= j < n ==> #[trigger] v.children[j] == self.children@[j]@,
                    0 <= i <= n,
                    refs_view(result@) == seq![v] + flat_all(v.children.take(i as int)),
                decreases n - i,
            {
                proof {
                    assert(decreases_to!(self.children => self.children@));
                }
                let mut sub = self.children[i].flatten();
                let ghost before = refs_view(result@);
                let ghost subv = refs_view(sub@);
                result.append(&mut sub);
                proof {
                    assert(v.children.take(i + 1).drop_last() =~= v.children.take(i as int));
                    assert(refs_view(result@) =~= before + subv);
                }
                i += 1;
            }
            proof {
                assert(v.children.take(n as int) =~= v.children);
            }
        } else {
            proof {
                assert(seq![v] + Seq::<NodeView>::empty() =~= seq![v]);
            }
        }
        result
    }

    /// A copy of this node and everything under it.
    pub fn clone_node(&self) -> (r: CborNode)
        ensures
            r@ == self@,
        decreases *self,
    {
        proof {
            lemma_node_views_index(self.children@);
        }
        let key = match &self.key {
            Some(k) => Some(k.clone()),
            None => None,
        };
        let n = self.children.len();
        let mut children: Vec<CborNode> = Vec::new();
        let mut i: usize = 0;
        while i < n
            invariant
                n == self.children@.len(),
                0 <= i <= n,
                children@.len() == i,
                forall|j: int| 0 <= j < i ==> (#[trigger] children@[j])@ == self.children@[j]@,
            decreases n - i,
        {
            proof {
                assert(decreases_to!(self.children => self.children@));
            }
            let c = self.children[i].clone_node();
            children.push(c);
            i += 1;
        }
        let mut path: Vec<PathSegment> = Vec::new();
        let m = self.path.len();
        let mut j: usize = 0;
        while j < m
            invariant
                m == self.path@.len(),
                0 <= j <= m,
                path@.len() == j,
                forall|k: int| 0 <= k < j ==> (#[trigger] path@[k]).name@ == self.path@[k].name@
                    && path@[k].depth == self.path@[k].depth,
            decreases m - j,
        {
            path.push(PathSegment { name: self.path[j].name.clone(), depth: self.path[j].depth });
            j += 1;
        }
        proof {
            lemma_node_views_index(children@);
            assert(node_views(children@) =~= node_views(self.children@));
            assert(path_view(path@) =~= path_view(self.path@));
        }
        CborNode {
            key,
            value_type: self.value_type,
            value_preview: self.value_preview.clone(),
            full_value: self.full_value.clone(),
            children,
            expanded: self.expanded,
            depth: self.depth,
            path,
            range: Range { start: self.range.start, end: self.range.end },
            confidence: self.confidence,
        }
    }

    /// Every node, expanded or not, in display order.
    pub fn flatten_all(&self) -> (r: Vec<&CborNode>)
        ensures
            refs_view(r@) == all_nodes(self@),
        decreases *self,
    {
        let ghost v = self@;
        proof {
            lemma_node_views_index(self.children@);
        }
        let mut result: Vec<&CborNode> = Vec::new();
        result.push(self);
        let n = self.children.len();
        let mut i: usize = 0;
        proof {
            assert(refs_view(result@) =~= seq![v]);
            assert(v.children.take(0) =~= Seq::<NodeView>::empty());
            assert(seq![v] + all_nodes_of(v.children.take(0)) =~= seq![v]);
        }
        while i < n
            invariant
                v == self@,
                n == self.children@.len(),
                v.children.len() == n,
                forall|j: int| 0 <= j < n ==> #[trigger] v.children[j] == self.children@[j]@,
                0 <= i <= n,
                refs_view(result@) == seq![v] + all_nodes_of(v.children.take(i as int)),
            decreases n - i,
        {
            proof {
                assert(decreases_to!(self.children => self.children@));
            }
            let mut sub = self.children[i].flatten_all();
            let ghost before = refs_view(result@);
            let ghost subv = refs_view(sub@);
            result.append(&mut sub);
            proof {
                assert(v.children.take(i + 1).drop_last() =~= v.children.take(i as int));
                assert(refs_view(result@) =~= before + subv);
            }
            i += 1;
        }
        proof {
            assert(v.children.take(n as int) =~= v.children);
        }
        result
    }

    /// The nodes from this node down to the deepest node whose range holds
    /// `offset` (following the first such child at each level); empty when
    /// this node's range does not hold it.
    pub fn get_path_to_offset(&self, offset: usize) -> (r: Vec<&CborNode>)
        ensures
            refs_view(r@) == path_to(self@, offset as int),
        decreases *self,
    {
        let ghost v = self@;
        let ghost off = offset as int;
        proof {
            lemma_node_views_index(self.children@);
        }
        let mut path: Vec<&CborNode> = Vec::new();
        if self.range.start <= offset && offset < self.range.end {
            path.push(self);
            let n = self.children.len();
            let mut i: usize = 0;
            let mut found = false;
            proof {
                assert(v.children.skip(0) =~= v.children);
            }
            while i < n && !found
                invariant
                    v == self@,
                    n == self.children@.len(),
                    v.children.len() == n,
                    forall|j: int| 0 <= j < n ==> #[trigger] v.children[j] == self.children@[j]@,
                    0 <= i <= n,
                    off == offset as int,
                    covers(v, off),
                    !found ==> refs_view(path@) == seq![v],
                    !found ==> path_in(v.children, off) == path_in(v.children.skip(i as int), off),
                    found ==> refs_view(path@) == seq![v] + path_in(v.children, off),
                decreases n - i + if found {
                    0int
                } else {
                    1int
                },
            {
                proof {
                    assert(decreases_to!(self.children => self.children@));
                }
                let mut sub = self.children[i].get_path_to_offset(offset);
                let ghost subv = refs_view(sub@);
                let ghost rest = v.children.skip(i as int);
                proof {
                    lemma_path_to_nonempty(v.children[i as int], off);
                    assert(rest[0] == v.children[i as int]);
                    assert(rest.drop_first() =~= v.children.skip(i + 1));
                    assert(subv.len() == sub@.len());
                    assert(subv == path_to(v.children[i as int], off));
                    assert(path_in(rest, off) == if covers(rest[0], off) {
                        path_to(rest[0], off)
                    } else {
                        path_in(rest.drop_first(), off)
                    });
                }
                if sub.len() > 0 {
                    let ghost before = refs_view(path@);
                    path.append(&mut sub);
                    proof {
                        assert(refs_view(path@) =~= before + subv);
                    }
                    found = true;
                } else {
                    i += 1;
                }
            }
            proof {
                if !found {
                    assert(v.children.skip(n as int) =~= Seq::<NodeView>::empty());
                    assert(seq![v] + Seq::<NodeView>::empty() =~= seq![v]);
                }
            }
        } else {
            proof {
                assert(refs_view(path@) =~= Seq::<NodeView>::empty());
            }
        }
        path
    }

    /// Expands every node from this one down to the deepest node whose range
    /// holds `offset`; tells whether this node's range holds it.
    pub fn expand_path_to_offset(&mut self, offset: usize) -> (r: bool)
        ensures
            r == covers(old(self)@, offset as int),
            final(self)@ == expand_path(old(self)@, offset as int),
        decreases *old(self),
    {
        let ghost off = offset as int;
        if self.range.start <= offset && offset < self.range.end {
            self.expanded = true;
            let n = self.children.len();
            let mut i: usize = 0;
            let mut done = false;
            while i < n && !done
                invariant
                    n == self.children@.len(),
                    n == old(self).children@.len(),
                    0 <= i <= n,
                    self.expanded,
                    self.key == old(self).key,
                    self.value_type == old(self).value_type,
                    self.value_preview == old(self).value_preview,
                    self.full_value == old(self).full_value,
                    self.depth == old(self).depth,
                    self.path == old(self).path,
                    self.range == old(self).range,
                    self.confidence == old(self).confidence,
                    forall|j: int| 0 <= j < i ==> !covers(#[trigger] old(self).children@[j]@, off),
                    off == offset as int,
                    forall|j: int| 0 <= j < n && j != i ==> #[trigger] self.children@[j]@ == old(self).children@[j]@,
                    !done ==> forall|j: int| i <= j < n ==> #[trigger] self.children@[j] == old(self).children@[j],
                    done ==> i < n && covers(old(self).children@[i as int]@, off)
                        && self.children@[i as int]@ == expand_path(old(self).children@[i as int]@, off),
                decreases n - i + if done {
                    0int
                } else {
                    1int
                },
            {
                proof {
                    assert(decreases_to!(*old(self) => old(self).children));
                    assert(decreases_to!(old(self).children => old(self).children@));
                    assert(decreases_to!(old(self).children@ => old(self).children@[i as int]));
                }
                if self.children[i].expand_path_to_offset(offset) {
                    done = true;
                } else {
                    proof {
                        lemma_expand_path_noop(old(self).children@[i as int]@, off);
                    }
                    i += 1;
                }
            }
            proof {
                let olds = node_views(old(self).children@);
                lemma_node_views_index(old(self).children@);
                lemma_node_views_index(self.children@);
                if done {
                    lemma_expand_path_in_at(olds, off, i as int);
                    assert(node_views(self.children@) =~= olds.update(i as int, expand_path(olds[i as int], off)));
                } else {
                    lemma_expand_path_in_none(olds, off);
                    assert(node_views(self.children@) =~= olds);
                }
            }
            return true;
        }
        false
    }

    /// The node at the given position among the visible nodes (as
    /// `flatten` lists them), for changing it in place.
    pub fn get_node_at_index_mut(&mut self, target_index: usize) -> (r: Option<&mut CborNode>)
        ensures
            target_index < flat(old(self)@).len() ==> (r matches Some(x) && x@ == flat(
                old(self)@,
            )[target_index as int] && final(self)@ == set_flat(
                old(self)@,
                target_index as int,
                final(x)@,
            )),
            target_index >= flat(old(self)@).len() ==> r is None && final(self)@ == old(self)@,
        decreases *old(self),
    {
        let ghost v = self@;
        proof {
            lemma_node_views_index(self.children@);
        }
        if target_index == 0 {
            return Some(self);
        }
        if !self.expanded {
            proof {
                assert(flat(v) =~= seq![v]);
            }
            return None;
        }
        let n = self.children.len();
        let mut rem: usize = target_index - 1;
        let mut i: usize = 0;
        let mut found = false;
        proof {
            assert(v.children.take(0) =~= Seq::<NodeView>::empty());
        }
        while i < n && !found
            invariant
                *self == *old(self),
                v == self@,
                v.expanded,
                n == self.children@.len(),
                v.children.len() == n,
                forall|j: int| 0 <= j < n ==> #[trigger] v.children[j] == self.children@[j]@,
                0 <= i <= n,
                rem + 1 + flat_all(v.children.take(i as int)).len() == target_index,
                found ==> i < n && rem < flat(v.children[i as int]).len(),
            decreases n - i + if found {
                0int
            } else {
                1int
            },
        {
            let l = self.children[i].flatten().len();
            if rem < l {
                found = true;
            } else {
                proof {
                    lemma_flat_all_push(v.children.take(i as int), v.children[i as int]);
                    assert(v.children.take(i + 1) =~= v.children.take(i as int).push(
                        v.children[i as int],
                    ));
                }
                rem = rem - l;
                i += 1;
            }
        }
        if !found {
            proof {
                assert(v.children.take(n as int) =~= v.children);
            }
            return None;
        }
        proof {
            lemma_flat_split(v.children, i as int);
            lemma_set_flat_child(v, i as int, rem as int, target_index as int);
            assert(flat(v) =~= seq![v] + flat_all(v.children));
            assert(decreases_to!(*old(self) => old(self).children));
            assert(decreases_to!(old(self).children => old(self).children@));
            assert(decreases_to!(old(self).children@ => old(self).children@[i as int]));
        }
        let c = self.child_mut(i);
        c.get_node_at_index_mut(rem)
    }

    /// The child at `i`, for changing it in place.
    fn child_mut(&mut self, i: usize) -> (c: &mut CborNode)
        requires
            i < old(self).children@.len(),
        ensures
            *c == old(self).children@[i as int],
            final(self).children@ == old(self).children@.update(i as int, *final(c)),
            node_views(old(self).children@.update(i as int, *final(c))) == node_views(
                old(self).children@,
            ).update(i as int, final(c)@),
            final(self)@ == (NodeView {
                children: node_views(old(self).children@.update(i as int, *final(c))),
                ..old(self)@
            }),
    {
        broadcast use lemma_node_views_set;

        &mut self.children[i]
    }

    pub fn expand_all(&mut self)
        ensures
            final(self)@ == with_all_expanded(old(self)@, true),
        decreases *old(self),
    {
        self.set_all_expanded(true);
    }

    pub fn collapse_all(&mut self)
        ensures
            final(self)@ == with_all_expanded(old(self)@, false),
        decreases *old(self),
    {
        self.set_all_expanded(false);
    }

    fn set_all_expanded(&mut self, b: bool)
        ensures
            final(self)@ == with_all_expanded(old(self)@, b),
        decreases *old(self),
    {
        self.expanded = b;
        let n = self.children.len();
        let mut i: usize = 0;
        while i < n
            invariant
                n == self.children@.len(),
                n == old(self).children@.len(),
                0 <= i <= n,
                self.expanded == b,
                self.key == old(self).key,
                self.value_type == old(self).value_type,
                self.value_preview == old(self).value_preview,
                self.full_value == old(self).full_value,
                self.depth == old(self).depth,
                self.path == old(self).path,
                self.range == old(self).range,
                self.confidence == old(self).confidence,
                forall|j: int| 0 <= j < i ==> #[trigger] self.children@[j]@ == with_all_expanded(
                    old(self).children@[j]@,
                    b,
                ),
                forall|j: int| i <= j < n ==> #[trigger] self.children@[j] == old(self).children@[j],
            decreases n - i,
        {
            proof {
                assert(decreases_to!(*old(self) => old(self).children));
                assert(decreases_to!(old(self).children => old(self).children@));
                assert(decreases_to!(old(self).children@ => old(self).children@[i as int]));
            }
            self.children[i].set_all_expanded(b);
            i += 1;
        }
        proof {
            let olds = node_views(old(self).children@);
            lemma_node_views_index(old(self).children@);
            lemma_node_views_index(self.children@);
            lemma_all_with_expanded_index(olds, b);
            assert(node_views(self.children@) =~= all_with_expanded(olds, b));
        }
    }
}

} // verus!
