//! Turning parsed CBOR items into the nodes of the tree view.
use vstd::prelude::*;
use crate::value::CborValue;
use crate::cbor_parser::{ItemShape, ParsedCbor, lemma_shapes_index};
use crate::cbor_tree::{
    CborNode,
    CborType,
    NodeView,
    PathSegment,
    key_text,
    key_view,
    node_views,
    path_view,
    value_to_key_string,
};
use crate::text::{
    decimal,
    hex_byte,
    hex_spaced,
    hex_upper,
    int_text,
    push_decimal,
    push_hex_byte,
    push_hex_upper_i128,
    push_int,
    twos_complement_128,
};
use vstd::utf8::{decode_utf8, encode_utf8, is_char_boundary};

verus! {

/// Bytes of a byte string shown in full before it is cut.
pub const MAX_SHOWN_BYTES: usize = 43;

/// The number of bytes in the UTF-8 encoding of a text.
pub open spec fn utf8_len(s: Seq<char>) -> int {
    encode_utf8(s).len() as int
}

/// The text made of the first `k` bytes of the UTF-8 encoding of `s`.
pub open spec fn utf8_prefix(s: Seq<char>, k: int) -> Seq<char> {
    decode_utf8(encode_utf8(s).take(k))
}

/// The largest character boundary of `bytes` that is at most `k`.
pub open spec fn last_boundary(bytes: Seq<u8>, k: int) -> int
    decreases k,
{
    if k <= 0 || is_char_boundary(bytes, k) {
        k
    } else {
        last_boundary(bytes, k - 1)
    }
}

/// A text can be previewed: it is short, or its 37th byte ends a character.
pub open spec fn text_ok(v: CborValue) -> bool {
    match v {
        CborValue::Text(s) => utf8_len(s@) <= 40 || is_char_boundary(encode_utf8(s@), 37),
        _ => true,
    }
}

/// The one-line preview of a text: quoted, or its first 37 bytes quoted,
/// an ellipsis and its length in bytes.
pub open spec fn text_preview(s: Seq<char>) -> Seq<char> {
    if utf8_len(s) <= 40 {
        seq!['"'] + s + seq!['"']
    } else {
        seq!['"'] + utf8_prefix(s, 37) + "...\" ("@ + decimal(utf8_len(s) as nat) + " chars)"@
    }
}

/// The full text, cut at the last character boundary within 128 bytes
/// (with an ellipsis) when it is longer than that.
pub open spec fn text_full(s: Seq<char>) -> Seq<char> {
    if utf8_len(s) > 128 {
        utf8_prefix(s, last_boundary(encode_utf8(s), 128)) + "..."@
    } else {
        s
    }
}

/// The hex dump of a byte string: its first 43 bytes, then an ellipsis if
/// there are more.
pub open spec fn bytes_full(bs: Seq<u8>) -> Seq<char> {
    if bs.len() > MAX_SHOWN_BYTES {
        hex_spaced(bs.take(MAX_SHOWN_BYTES as int)) + "..."@
    } else {
        hex_spaced(bs)
    }
}

/// The preview of a byte string: the full dump for at most 16 bytes, else
/// the first 8 bytes and the length.
pub open spec fn bytes_preview(bs: Seq<u8>) -> Seq<char> {
    if bs.len() <= 16 {
        bytes_full(bs)
    } else {
        hex_spaced(bs.take(8)) + " ... ("@ + decimal(bs.len()) + " bytes)"@
    }
}

/// Every element is an integer.
pub open spec fn all_integers(vs: Seq<CborValue>) -> bool {
    forall|i: int| 0 <= i < vs.len() ==> #[trigger] vs[i] is Integer
}

/// The integer held by a value (zero for any other value).
pub open spec fn integer_of(v: CborValue) -> int {
    match v {
        CborValue::Integer(x) => x as int,
        _ => 0,
    }
}

/// The list of integers from element `i` on, appended to `acc`: each in
/// upper-case hexadecimal after `0x`, separated by `, `; once the text
/// reaches 128 characters it is closed with `...]`.
pub open spec fn int_list_from(vs: Seq<CborValue>, i: int, acc: Seq<char>) -> Seq<char>
    decreases vs.len() - i,
{
    if i >= vs.len() {
        acc.push(']')
    } else if acc.len() >= 128 {
        acc + "...]"@
    } else {
        int_list_from(
            vs,
            i + 1,
            acc + (if i > 0 {
                seq![',', ' ']
            } else {
                seq![]
            }) + seq!['0', 'x'] + hex_upper(twos_complement_128(integer_of(vs[i]))),
        )
    }
}

/// The full text of an array.
pub open spec fn array_full(vs: Seq<CborValue>) -> Seq<char> {
    if all_integers(vs) && vs.len() > 0 {
        int_list_from(vs, 0, seq!['['])
    } else {
        "Array with "@ + decimal(vs.len()) + " items"@
    }
}

/// The type shown for a value.
pub open spec fn type_of(v: CborValue) -> CborType {
    match v {
        CborValue::Null => CborType::Null,
        CborValue::Bool(_) => CborType::Bool,
        CborValue::Integer(_) => CborType::Integer,
        CborValue::Float(_, _) => CborType::Float,
        CborValue::Bytes(_) => CborType::ByteString,
        CborValue::Text(_) => CborType::TextString,
        CborValue::Array(_) => CborType::Array,
        CborValue::Mapping(_) => CborType::Mapping,
        CborValue::Tag(_, _) => CborType::Tag,
    }
}

/// The one-line preview of a value.
pub open spec fn preview_of(v: CborValue) -> Seq<char> {
    match v {
        CborValue::Null => "null"@,
        CborValue::Bool(b) => if b {
            "true"@
        } else {
            "false"@
        },
        CborValue::Integer(x) => int_text(x as int),
        CborValue::Float(six, _) => six@,
        CborValue::Bytes(bs) => bytes_preview(bs@),
        CborValue::Text(s) => text_preview(s@),
        CborValue::Array(a) => seq!['['] + decimal(a@.len()) + " items]"@,
        CborValue::Mapping(m) => seq!['{'] + decimal(m@.len()) + " entries}"@,
        CborValue::Tag(t, _) => "tag("@ + decimal(t as nat) + seq![')'],
    }
}

/// The full text of a value.
pub open spec fn full_of(v: CborValue) -> Seq<char> {
    match v {
        CborValue::Null => "null"@,
        CborValue::Bool(b) => if b {
            "true"@
        } else {
            "false"@
        },
        CborValue::Integer(x) => int_text(x as int),
        CborValue::Float(_, shortest) => shortest@,
        CborValue::Bytes(bs) => bytes_full(bs@),
        CborValue::Text(s) => text_full(s@),
        CborValue::Array(a) => array_full(a@),
        CborValue::Mapping(m) => "Map with "@ + decimal(m@.len()) + " entries"@,
        CborValue::Tag(t, _) => "Tag "@ + decimal(t as nat),
    }
}

/// Whether a value's node starts expanded: arrays and maps near the top,
/// and every tag.
pub open spec fn expanded_of(v: CborValue, depth: int) -> bool {
    match v {
        CborValue::Array(_) => depth < 2,
        CborValue::Mapping(_) => depth < 2,
        CborValue::Tag(_, _) => true,
        _ => false,
    }
}

/// The number of entries of a map item shown as children: one per entry,
/// as long as a key and a value are there.
pub open spec fn pair_count(sh: ItemShape) -> int {
    match sh.value {
        CborValue::Mapping(m) => if m@.len() <= sh.children.len() / 2 {
            m@.len() as int
        } else {
            (sh.children.len() / 2) as int
        },
        _ => 0,
    }
}

/// The key shown for element `i` of an array: `[i]`.
pub open spec fn index_key(i: int) -> Seq<char> {
    seq!['['] + decimal(i as nat) + seq![']']
}

/// The node for a parsed item, with its key, depth and the path of its
/// parent.
pub open spec fn node_of(
    sh: ItemShape,
    key: Option<Seq<char>>,
    depth: int,
    parent: Seq<(Seq<char>, int)>,
) -> NodeView
    decreases sh, sh.children.len() + 1,
{
    let name = match key {
        Some(k) => k,
        None => "root"@,
    };
    let path = parent.push((name, depth));
    NodeView {
        key,
        value_type: type_of(sh.value),
        value_preview: preview_of(sh.value),
        full_value: full_of(sh.value),
        children: match sh.value {
            CborValue::Array(_) => array_nodes(sh, sh.children.len() as int, depth, path),
            CborValue::Mapping(_) => map_nodes(sh, pair_count(sh), depth, path),
            CborValue::Tag(_, _) => if sh.children.len() > 0 {
                seq![node_of(sh.children[0], None, depth + 1, path)]
            } else {
                seq![]
            },
            _ => seq![],
        },
        expanded: expanded_of(sh.value, depth),
        depth,
        path,
        start: sh.start,
        end: sh.end,
        confidence: None,
    }
}

/// The nodes of the first `n` elements of an array item.
pub open spec fn array_nodes(sh: ItemShape, n: int, depth: int, path: Seq<(Seq<char>, int)>) -> Seq<
    NodeView,
>
    decreases sh, n,
{
    if n <= 0 || n > sh.children.len() {
        seq![]
    } else {
        array_nodes(sh, n - 1, depth, path).push(
            node_of(sh.children[n - 1], Some(index_key(n - 1)), depth + 1, path),
        )
    }
}

/// The nodes of the first `p` entries of a map item: the value's node,
/// keyed by the key's text and covering the key's bytes too.
pub open spec fn map_nodes(sh: ItemShape, p: int, depth: int, path: Seq<(Seq<char>, int)>) -> Seq<
    NodeView,
>
    decreases sh, p,
{
    if p <= 0 || 2 * p > sh.children.len() {
        seq![]
    } else {
        let k = sh.children[2 * p - 2];
        let v = sh.children[2 * p - 1];
        map_nodes(sh, p - 1, depth, path).push(
            NodeView {
                start: k.start,
                end: v.end,
                ..node_of(v, Some(key_text(k.value)), depth + 1, path)
            },
        )
    }
}

/// The item can be turned into nodes at this depth: every text previewed
/// can be cut where the preview cuts it, and no depth overflows.
pub open spec fn buildable(sh: ItemShape, depth: int) -> bool
    decreases sh, sh.children.len() + 1,
{
    &&& text_ok(sh.value)
    &&& match sh.value {
        CborValue::Array(_) => items_buildable(sh, sh.children.len() as int, depth + 1),
        CborValue::Mapping(_) => pairs_buildable(sh, pair_count(sh), depth + 1),
        CborValue::Tag(_, _) => sh.children.len() > 0 ==> depth + 1 <= usize::MAX && buildable(
            sh.children[0],
            depth + 1,
        ),
        _ => true,
    }
}

pub open spec fn items_buildable(sh: ItemShape, n: int, d: int) -> bool
    decreases sh, n,
{
    if n <= 0 || n > sh.children.len() {
        true
    } else {
        d <= usize::MAX && buildable(sh.children[n - 1], d) && items_buildable(sh, n - 1, d)
    }
}

pub open spec fn pairs_buildable(sh: ItemShape, p: int, d: int) -> bool
    decreases sh, p,
{
    if p <= 0 || 2 * p > sh.children.len() {
        true
    } else {
        d <= usize::MAX && buildable(sh.children[2 * p - 1], d) && pairs_buildable(sh, p - 1, d)
    }
}

/// The preview and full text of a text value.
fn text_texts(s: &String) -> (r: (String, String))
    requires
        utf8_len(s@) <= 40 || is_char_boundary(encode_utf8(s@), 37),
    ensures
        r.0@ == text_preview(s@),
        r.1@ == text_full(s@),
{
    broadcast use vstd::utf8::encode_utf8_valid_utf8, vstd::utf8::encode_utf8_decode_utf8;

    let st = s.as_str();
    let n = st.as_bytes().len();
    let ghost bytes = encode_utf8(s@);
    let mut preview = String::new();
    preview.push('"');
    if n <= 40 {
        preview.push_str(st);
        preview.push('"');
        proof {
            assert(Seq::<char>::empty().push('"') + s@ + seq!['"'] =~= seq!['"'] + s@ + seq!['"']);
        }
    } else {
        let (head, _) = st.split_at(37);
        proof {
            assert(encode_utf8(head@) =~= bytes.take(37));
            assert(head@ == utf8_prefix(s@, 37));
            assert(n == utf8_len(s@));
        }
        preview.push_str(head);
        preview.push_str("...\" (");
        push_decimal(&mut preview, n as u128);
        preview.push_str(" chars)");
        proof {
            assert(Seq::<char>::empty().push('"') =~= seq!['"']);
            assert(preview@ == text_preview(s@));
        }
    }
    let full = if n > 128 {
        let mut len: usize = 128;
        while !st.is_char_boundary(len)
            invariant
                0 <= len <= 128,
                bytes == encode_utf8(s@),
                st@ == s@,
                is_char_boundary(bytes, 0),
                last_boundary(bytes, 128) == last_boundary(bytes, len as int),
            decreases len,
        {
            len -= 1;
        }
        let (head, _) = st.split_at(len);
        proof {
            assert(encode_utf8(head@) =~= bytes.take(len as int));
            assert(head@ == utf8_prefix(s@, len as int));
            assert(len == last_boundary(bytes, 128));
        }
        let mut f = head.to_owned();
        f.push_str("...");
        f
    } else {
        s.clone()
    };
    (preview, full)
}

proof fn lemma_hex_spaced_step(bs: Seq<u8>, j: int)
    requires
        1 <= j < bs.len(),
    ensures
        hex_spaced(bs.take(j + 1)) == hex_spaced(bs.take(j)) + seq![' '] + hex_byte(bs[j]),
{
    assert(bs.take(j + 1).drop_last() =~= bs.take(j));
}

/// Appends the first `k` bytes in hexadecimal, separated by spaces.
fn push_hex_spaced(s: &mut String, bytes: &Vec<u8>, k: usize)
    requires
        1 <= k <= bytes@.len(),
    ensures
        final(s)@ == old(s)@ + hex_spaced(bytes@.take(k as int)),
{
    push_hex_byte(s, bytes[0]);
    proof {
        assert(hex_spaced(bytes@.take(1)) == hex_byte(bytes@[0]));
    }
    let mut j: usize = 1;
    while j < k
        invariant
            1 <= j <= k <= bytes@.len(),
            s@ == old(s)@ + hex_spaced(bytes@.take(j as int)),
        decreases k - j,
    {
        s.push(' ');
        push_hex_byte(s, bytes[j]);
        proof {
            lemma_hex_spaced_step(bytes@, j as int);
            assert(s@ =~= old(s)@ + hex_spaced(bytes@.take(j + 1)));
        }
        j += 1;
    }
}

/// The preview and full hex dump of a byte string.
fn bytes_texts(bytes: &Vec<u8>) -> (r: (String, String))
    ensures
        r.0@ == bytes_preview(bytes@),
        r.1@ == bytes_full(bytes@),
{
    let n = bytes.len();
    let mut full = String::new();
    if n > 0 {
        push_hex_byte(&mut full, bytes[0]);
        proof {
            assert(hex_spaced(bytes@.take(1)) == hex_byte(bytes@[0]));
            assert(full@ =~= hex_spaced(bytes@.take(1)));
        }
        let mut j: usize = 1;
        let mut len: usize = 2;
        let mut cut = false;
        while j < n && !cut
            invariant
                n == bytes@.len(),
                1 <= j <= n,
                j <= MAX_SHOWN_BYTES,
                len == 3 * j - 1,
                !cut ==> full@ == hex_spaced(bytes@.take(j as int)),
                cut ==> j == MAX_SHOWN_BYTES && j < n && full@ == hex_spaced(bytes@.take(j as int))
                    + "..."@,
            decreases n - j + if cut {
                0int
            } else {
                1int
            },
        {
            if len >= 128 {
                full.push_str("...");
                cut = true;
            } else {
                full.push(' ');
                push_hex_byte(&mut full, bytes[j]);
                proof {
                    lemma_hex_spaced_step(bytes@, j as int);
                    assert(full@ =~= hex_spaced(bytes@.take(j + 1)));
                }
                j += 1;
                len += 3;
            }
        }
        proof {
            if !cut {
                assert(bytes@.take(n as int) =~= bytes@);
            }
        }
    }
    let preview = if n <= 16 {
        full.clone()
    } else {
        let mut p = String::new();
        push_hex_spaced(&mut p, bytes, 8);
        p.push_str(" ... (");
        push_decimal(&mut p, n as u128);
        p.push_str(" bytes)");
        proof {
            assert(Seq::<char>::empty() + hex_spaced(bytes@.take(8)) =~= hex_spaced(bytes@.take(8)));
        }
        p
    };
    (preview, full)
}

/// The full text of an array value.
fn array_full_text(arr: &Vec<CborValue>) -> (r: String)
    ensures
        r@ == array_full(arr@),
{
    let n = arr.len();
    let mut all_ints = true;
    let mut i: usize = 0;
    while i < n
        invariant
            n == arr@.len(),
            0 <= i <= n,
            all_ints == forall|j: int| 0 <= j < i ==> #[trigger] arr@[j] is Integer,
        decreases n - i,
    {
        if !matches!(arr[i], CborValue::Integer(_)) {
            all_ints = false;
        }
        i += 1;
    }
    let mut s = String::new();
    if all_ints && n > 0 {
        s.push('[');
        let mut len: usize = 1;
        let mut i: usize = 0;
        let mut cut = false;
        let ghost vs = arr@;
        proof {
            assert(s@ =~= seq!['[']);
        }
        while i < n && !cut
            invariant
                vs == arr@,
                n == vs.len(),
                0 <= i <= n,
                all_integers(vs),
                !cut ==> len == s@.len() && len < 128 + 36,
                !cut ==> int_list_from(vs, 0, seq!['[']) == int_list_from(vs, i as int, s@),
                cut ==> s@ == int_list_from(vs, 0, seq!['[']),
            decreases n - i + if cut {
                0int
            } else {
                1int
            },
        {
            if len >= 128 {
                s.push_str("...]");
                cut = true;
            } else {
                let ghost before = s@;
                if i > 0 {
                    s.push(',');
                    s.push(' ');
                    len += 2;
                }
                s.push('0');
                s.push('x');
                let v = match arr[i] {
                    CborValue::Integer(x) => x,
                    _ => 0,
                };
                let k = push_hex_upper_i128(&mut s, v);
                len = len + 2 + k;
                proof {
                    assert(vs[i as int] is Integer);
                    assert(integer_of(vs[i as int]) == v);
                    assert(s@ =~= before + (if i > 0 {
                        seq![',', ' ']
                    } else {
                        seq![]
                    }) + seq!['0', 'x'] + hex_upper(twos_complement_128(v as int)));
                }
                i += 1;
            }
        }
        if !cut {
            s.push(']');
        }
    } else {
        s.push_str("Array with ");
        push_decimal(&mut s, n as u128);
        s.push_str(" items");
        proof {
            assert(Seq::<char>::empty() + "Array with "@ =~= "Array with "@);
        }
    }
    s
}

/// The type, preview, full text and initial expansion of a value.
fn value_texts(v: &CborValue, depth: usize) -> (r: (CborType, String, String, bool))
    requires
        text_ok(*v),
    ensures
        r.0 == type_of(*v),
        r.1@ == preview_of(*v),
        r.2@ == full_of(*v),
        r.3 == expanded_of(*v, depth as int),
{
    match v {
        CborValue::Null => (CborType::Null, "null".to_owned(), "null".to_owned(), false),
        CborValue::Bool(b) => {
            if *b {
                (CborType::Bool, "true".to_owned(), "true".to_owned(), false)
            } else {
                (CborType::Bool, "false".to_owned(), "false".to_owned(), false)
            }
        },
        CborValue::Integer(i) => {
            let mut t = String::new();
            push_int(&mut t, *i);
            proof {
                assert(Seq::<char>::empty() + int_text(*i as int) =~= int_text(*i as int));
            }
            (CborType::Integer, t.clone(), t, false)
        },
        CborValue::Float(six, shortest) => (CborType::Float, six.clone(), shortest.clone(), false),
        CborValue::Bytes(bytes) => {
            let (preview, full) = bytes_texts(bytes);
            (CborType::ByteString, preview, full, false)
        },
        CborValue::Text(t) => {
            let (preview, full) = text_texts(t);
            (CborType::TextString, preview, full, false)
        },
        CborValue::Array(arr) => {
            let mut preview = String::new();
            preview.push('[');
            push_decimal(&mut preview, arr.len() as u128);
            preview.push_str(" items]");
            proof {
                assert(Seq::<char>::empty().push('[') =~= seq!['[']);
            }
            (CborType::Array, preview, array_full_text(arr), depth < 2)
        },
        CborValue::Mapping(m) => {
            let mut preview = String::new();
            preview.push('{');
            push_decimal(&mut preview, m.len() as u128);
            preview.push_str(" entries}");
            let mut full = String::new();
            full.push_str("Map with ");
            push_decimal(&mut full, m.len() as u128);
            full.push_str(" entries");
            proof {
                assert(Seq::<char>::empty().push('{') =~= seq!['{']);
                assert(Seq::<char>::empty() + "Map with "@ =~= "Map with "@);
            }
            (CborType::Mapping, preview, full, depth < 2)
        },
        CborValue::Tag(t, _) => {
            let mut preview = String::new();
            preview.push_str("tag(");
            push_decimal(&mut preview, *t as u128);
            preview.push(')');
            let mut full = String::new();
            full.push_str("Tag ");
            push_decimal(&mut full, *t as u128);
            proof {
                assert(Seq::<char>::empty() + "tag("@ =~= "tag("@);
                assert(Seq::<char>::empty() + "Tag "@ =~= "Tag "@);
            }
            (CborType::Tag, preview, full, true)
        },
    }
}

/// A copy of a breadcrumb path.
pub fn clone_path(p: &Vec<PathSegment>) -> (r: Vec<PathSegment>)
    ensures
        path_view(r@) == path_view(p@),
{
    let mut r: Vec<PathSegment> = Vec::new();
    let n = p.len();
    let mut i: usize = 0;
    while i < n
        invariant
            n == p@.len(),
            0 <= i <= n,
            r@.len() == i,
            forall|j: int| 0 <= j < i ==> (#[trigger] r@[j]).name@ == p@[j].name@ && r@[j].depth
                == p@[j].depth,
        decreases n - i,
    {
        r.push(PathSegment { name: p[i].name.clone(), depth: p[i].depth });
        i += 1;
    }
    proof {
        assert(path_view(r@) =~= path_view(p@));
    }
    r
}

proof fn lemma_items_buildable(sh: ItemShape, n: int, d: int, i: int)
    requires
        items_buildable(sh, n, d),
        0 <= i < n <= sh.children.len(),
    ensures
        d <= usize::MAX,
        buildable(sh.children[i], d),
    decreases n,
{
    if i < n - 1 {
        lemma_items_buildable(sh, n - 1, d, i);
    }
}

proof fn lemma_pairs_buildable(sh: ItemShape, p: int, d: int, j: int)
    requires
        pairs_buildable(sh, p, d),
        0 <= j < p,
        2 * p <= sh.children.len(),
    ensures
        d <= usize::MAX,
        buildable(sh.children[2 * j + 1], d),
    decreases p,
{
    if j < p - 1 {
        lemma_pairs_buildable(sh, p - 1, d, j);
    }
}

pub proof fn lemma_node_views_push(cs: Seq<CborNode>, x: CborNode)
    ensures
        node_views(cs.push(x)) == node_views(cs).push(x@),
{
    assert(cs.push(x).drop_last() =~= cs);
}

/// The key of element `i` of an array: `[i]`.
fn index_key_string(i: usize) -> (r: String)
    ensures
        r@ == index_key(i as int),
{
    let mut k = String::new();
    k.push('[');
    push_decimal(&mut k, i as u128);
    k.push(']');
    proof {
        assert(Seq::<char>::empty().push('[') =~= seq!['[']);
    }
    k
}

impl ParsedCbor {
    /// The tree node for this item and everything under it: `key` names
    /// it (the root is named `root` in the path), `depth` is its level and
    /// `parent_path` the breadcrumb path of its parent.
    pub fn to_node(&self, key: Option<String>, depth: usize, parent_path: Vec<PathSegment>) -> (r:
        CborNode)
        requires
            buildable(self.shape(), depth as int),
        ensures
            r@ == node_of(self.shape(), key_view(key), depth as int, path_view(parent_path@)),
        decreases self,
    {
        let ghost sh = self.shape();
        proof {
            lemma_shapes_index(self.children@);
        }
        let current_name = match &key {
            Some(k) => k.clone(),
            None => "root".to_owned(),
        };
        let ghost name = current_name@;
        let mut path = parent_path;
        path.push(PathSegment { name: current_name, depth });
        let ghost pv = path_view(path@);
        proof {
            assert(pv =~= path_view(parent_path@).push((name, depth as int)));
        }
        let (value_type, value_preview, full_value, expanded) = value_texts(&self.value, depth);
        let mut children: Vec<CborNode> = Vec::new();
        match &self.value {
            CborValue::Array(_) => {
                let n = self.children.len();
                let mut i: usize = 0;
                while i < n
                    invariant
                        sh == self.shape(),
                        n == self.children@.len(),
                        n == sh.children.len(),
                        forall|j: int| 0 <= j < n ==> #[trigger] sh.children[j] == self.children@[j].shape(),
                        0 <= i <= n,
                        items_buildable(sh, n as int, depth + 1),
                        pv == path_view(path@),
                        node_views(children@) == array_nodes(sh, i as int, depth as int, pv),
                    decreases n - i,
                {
                    proof {
                        lemma_items_buildable(sh, n as int, depth + 1, i as int);
                        assert(decreases_to!(self.children => self.children@));
                    }
                    let k = index_key_string(i);
                    let c = self.children[i].to_node(Some(k), depth + 1, clone_path(&path));
                    proof {
                        lemma_node_views_push(children@, c);
                    }
                    children.push(c);
                    i += 1;
                }
            },
            CborValue::Mapping(m) => {
                let mlen = m.len();
                let clen = self.children.len();
                let mut p: usize = 0;
                while p < mlen && p < clen / 2
                    invariant
                        sh == self.shape(),
                        clen == self.children@.len(),
                        clen == sh.children.len(),
                        forall|j: int| 0 <= j < clen ==> #[trigger] sh.children[j] == self.children@[j].shape(),
                        0 <= p <= pair_count(sh),
                        mlen == m@.len(),
                        sh.value == CborValue::Mapping(*m),
                        pairs_buildable(sh, pair_count(sh), depth + 1),
                        pv == path_view(path@),
                        node_views(children@) == map_nodes(sh, p as int, depth as int, pv),
                    decreases mlen - p,
                {
                    proof {
                        lemma_pairs_buildable(sh, pair_count(sh), depth + 1, p as int);
                        assert(decreases_to!(self.children => self.children@));
                    }
                    let key_parsed = &self.children[2 * p];
                    let val_parsed = &self.children[2 * p + 1];
                    let key_str = value_to_key_string(&key_parsed.value);
                    let mut node = val_parsed.to_node(Some(key_str), depth + 1, clone_path(&path));
                    node.range = std::ops::Range { start: key_parsed.range.start, end: val_parsed.range.end };
                    proof {
                        lemma_node_views_push(children@, node);
                    }
                    children.push(node);
                    p += 1;
                }
            },
            CborValue::Tag(_, _) => {
                if self.children.len() > 0 {
                    proof {
                        assert(decreases_to!(self.children => self.children@));
                    }
                    let c = self.children[0].to_node(None, depth + 1, clone_path(&path));
                    children.push(c);
                    proof {
                        assert(children@ =~= seq![c]);
                        lemma_node_views_push(Seq::<CborNode>::empty(), c);
                        assert(Seq::<CborNode>::empty().push(c) =~= seq![c]);
                        assert(node_views(Seq::<CborNode>::empty()) =~= Seq::<NodeView>::empty());
                    }
                }
            },
            _ => {},
        }
        CborNode {
            key,
            value_type,
            value_preview,
            full_value,
            children,
            expanded,
            depth,
            path,
            range: std::ops::Range { start: self.range.start, end: self.range.end },
            confidence: None,
        }
    }
}

/// Whether a value's text can be previewed (see `text_ok`).
fn text_ok_exec(v: &CborValue) -> (r: bool)
    ensures
        r == text_ok(*v),
{
    match v {
        CborValue::Text(s) => {
            let st = s.as_str();
            st.as_bytes().len() <= 40 || st.is_char_boundary(37)
        },
        _ => true,
    }
}

impl ParsedCbor {
    /// Whether `to_node` can turn this item into nodes at the given depth:
    /// every text it previews can be cut at its 37th byte (or is short), and
    /// no depth passes `usize::MAX`.
    pub fn is_buildable(&self, depth: usize) -> (r: bool)
        ensures
            r == buildable(self.shape(), depth as int),
        decreases self,
    {
        let ghost sh = self.shape();
        proof {
            lemma_shapes_index(self.children@);
        }
        if !text_ok_exec(&self.value) {
            return false;
        }
        match &self.value {
            CborValue::Array(_) => {
                let n = self.children.len();
                let mut i: usize = 0;
                let mut ok = true;
                while i < n && ok
                    invariant
                        sh == self.shape(),
                        n == self.children@.len(),
                        n == sh.children.len(),
                        forall|j: int| 0 <= j < n ==> #[trigger] sh.children[j] == self.children@[j].shape(),
                        0 <= i <= n,
                        ok == items_buildable(sh, i as int, depth + 1),
                        !ok ==> !items_buildable(sh, n as int, depth + 1),
                    decreases n - i,
                {
                    proof {
                        assert(decreases_to!(self.children => self.children@));
                    }
                    if depth == usize::MAX || !self.children[i].is_buildable(depth + 1) {
                        ok = false;
                        proof {
                            if items_buildable(sh, n as int, depth + 1) {
                                lemma_items_buildable_prefix(sh, n as int, depth + 1, i as int + 1);
                            }
                        }
                    }
                    i += 1;
                }
                ok
            },
            CborValue::Mapping(m) => {
                let mlen = m.len();
                let clen = self.children.len();
                let mut p: usize = 0;
                let mut ok = true;
                while p < mlen && p < clen / 2 && ok
                    invariant
                        sh == self.shape(),
                        clen == self.children@.len(),
                        clen == sh.children.len(),
                        forall|j: int| 0 <= j < clen ==> #[trigger] sh.children[j] == self.children@[j].shape(),
                        0 <= p <= pair_count(sh),
                        mlen == m@.len(),
                        sh.value == CborValue::Mapping(*m),
                        ok == pairs_buildable(sh, p as int, depth + 1),
                        !ok ==> !pairs_buildable(sh, pair_count(sh), depth + 1),
                    decreases mlen - p,
                {
                    proof {
                        assert(decreases_to!(self.children => self.children@));
                    }
                    if depth == usize::MAX || !self.children[2 * p + 1].is_buildable(depth + 1) {
                        ok = false;
                        proof {
                            if pairs_buildable(sh, pair_count(sh), depth + 1) {
                                lemma_pairs_buildable_prefix(
                                    sh,
                                    pair_count(sh),
                                    depth + 1,
                                    p as int + 1,
                                );
                            }
                        }
                    }
                    p += 1;
                }
                ok
            },
            CborValue::Tag(_, _) => {
                if self.children.len() > 0 {
                    proof {
                        assert(decreases_to!(self.children => self.children@));
                    }
                    depth < usize::MAX && self.children[0].is_buildable(depth + 1)
                } else {
                    true
                }
            },
            _ => true,
        }
    }
}

proof fn lemma_items_buildable_prefix(sh: ItemShape, n: int, d: int, i: int)
    requires
        0 <= i <= n <= sh.children.len(),
        items_buildable(sh, n, d),
    ensures
        items_buildable(sh, i, d),
    decreases n,
{
    if i < n {
        lemma_items_buildable_prefix(sh, n - 1, d, i);
    }
}

proof fn lemma_pairs_buildable_prefix(sh: ItemShape, p: int, d: int, j: int)
    requires
        0 <= j <= p,
        2 * p <= sh.children.len(),
        pairs_buildable(sh, p, d),
    ensures
        pairs_buildable(sh, j, d),
    decreases p,
{
    if j < p {
        lemma_pairs_buildable_prefix(sh, p - 1, d, j);
    }
}

} // verus!
