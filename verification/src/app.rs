//! The state of the explorer and what each command does to it.
use vstd::prelude::*;
use crate::cbor_parser::ItemShape;
use crate::cbor_tree::{
    CborNode,
    flat,
    covers,
    path_to,
    with_all_expanded,
    expand_path,
    set_flat,
    CborType,
    ConfidenceLevel,
    NodeView,
    PathSegment,
    node_views,
    path_view,
};
use crate::config_store::AppConfig;
use crate::config::BYTES_PER_ROW;
use crate::input::Rect;
use crate::nodes::{buildable, node_of};
use crate::scanner::{
    CborChunk,
    CborScanner,
    spec_scan,
    ChunkShape,
    ScanMode,
    chunk_key,
    chunk_shapes,
    insert_by,
    sort_by_key,
    sort_chunks,
};
use crate::text::{decimal, hex_upper, push_decimal, push_hex_upper};
use vstd::utf8::{decode_utf8, encode_utf8, is_char_boundary};
use crate::ui::notification::{Notification, NotificationSeverity};
use crate::util::{confidence_of, get_confidence_level};

verus! {

#[derive(Debug, Clone, Copy, PartialEq, Eq, Structural)]
pub enum Focus {
    Tree,
    Hex,
}

#[derive(Debug, Clone, Copy, PartialEq, Eq, Structural)]
pub enum PopupMode {
    /// No popup is open.
    Closed,
    ThemeSelect,
    Search,
    GotoOffset,
    Help,
}

#[derive(Debug, Clone, Copy, PartialEq, Eq, Structural)]
pub enum SortMode {
    /// Descending score.
    Score,
    /// Ascending offset.
    Offset,
}

/// The names of the colour themes, in the order the theme dialog lists
/// them; the first is the default.
pub open spec fn theme_names() -> Seq<Seq<char>> {
    seq![
        "Tokyo Night"@,
        "Dracula"@,
        "Solarized"@,
        "Monokai"@,
        "Nord"@,
        "Gruvbox"@,
        "One Dark"@,
        "Catppuccin"@,
        "GitHub Light"@,
        "GitHub Dark"@,
    ]
}

pub fn theme_name_list() -> (r: Vec<String>)
    ensures
        r@.len() == theme_names().len(),
        forall|i: int| 0 <= i < r@.len() ==> #[trigger] r@[i]@ == theme_names()[i],
{
    let mut v: Vec<String> = Vec::new();
    v.push("Tokyo Night".to_owned());
    v.push("Dracula".to_owned());
    v.push("Solarized".to_owned());
    v.push("Monokai".to_owned());
    v.push("Nord".to_owned());
    v.push("Gruvbox".to_owned());
    v.push("One Dark".to_owned());
    v.push("Catppuccin".to_owned());
    v.push("GitHub Light".to_owned());
    v.push("GitHub Dark".to_owned());
    v
}

pub open spec fn scan_mode_name(m: ScanMode) -> Seq<char> {
    match m {
        ScanMode::Single => "Single"@,
        ScanMode::Auto => "Auto"@,
    }
}

pub open spec fn sort_mode_name(m: SortMode) -> Seq<char> {
    match m {
        SortMode::Score => "Score"@,
        SortMode::Offset => "Offset"@,
    }
}

/// The name of chunk `i` (counted from zero): `Chunk #` and its number
/// counted from one.
pub open spec fn chunk_title(i: int) -> Seq<char> {
    "Chunk #"@ + decimal((i + 1) as nat)
}

/// The breadcrumb path of the top-level items of chunk `i`.
pub open spec fn chunk_path(i: int) -> Seq<(Seq<char>, int)> {
    seq![("root"@, 0), (chunk_title(i), 1)]
}

/// The nodes of the first `n` items of a chunk, as `Item j` at depth 2.
pub open spec fn item_nodes(items: Seq<ItemShape>, path: Seq<(Seq<char>, int)>, n: int) -> Seq<
    NodeView,
>
    decreases n,
{
    if n <= 0 {
        seq![]
    } else {
        item_nodes(items, path, n - 1).push(
            node_of(items[n - 1], Some("Item "@ + decimal((n - 1) as nat)), 2, path),
        )
    }
}

/// The node standing for chunk `i` when several items were found.
pub open spec fn chunk_node(c: ChunkShape, i: int) -> NodeView {
    NodeView {
        key: Some(chunk_title(i) + " (Score: "@ + decimal(c.score as nat) + seq![')']),
        value_type: CborType::Array,
        value_preview: "offset 0x"@ + hex_upper(c.offset as nat) + ", "@ + decimal(c.items.len())
            + " items"@,
        full_value: "Chunk at offset 0x"@ + hex_upper(c.offset as nat) + " with "@ + decimal(
            c.items.len(),
        ) + " items. Score: "@ + decimal(c.score as nat),
        children: item_nodes(c.items, chunk_path(i), c.items.len() as int),
        expanded: i == 0,
        depth: 1,
        path: chunk_path(i),
        start: c.offset,
        end: if c.items.len() > 0 {
            c.items.last().end
        } else {
            c.offset
        },
        confidence: Some(confidence_of(c.score)),
    }
}

/// The nodes of the first `n` chunks.
pub open spec fn chunk_nodes(cs: Seq<ChunkShape>, n: int) -> Seq<NodeView>
    decreases n,
{
    if n <= 0 {
        seq![]
    } else {
        chunk_nodes(cs, n - 1).push(chunk_node(cs[n - 1], n - 1))
    }
}

/// The tree shown for the chunks found in `len` bytes: nothing without
/// chunks; the item itself when there is one chunk of one item; else a
/// root that holds a node per chunk.
pub open spec fn tree_of(cs: Seq<ChunkShape>, scan: ScanMode, sort: SortMode, len: int) -> Option<
    NodeView,
> {
    if cs.len() == 0 {
        None
    } else if cs.len() == 1 && cs[0].items.len() == 1 {
        Some(node_of(cs[0].items[0], None, 0, seq![]))
    } else {
        Some(
            NodeView {
                key: Some(
                    "Found CBOR Data (Mode: "@ + scan_mode_name(scan) + ", Sorted by "@
                        + sort_mode_name(sort) + seq![')'],
                ),
                value_type: CborType::Mapping,
                value_preview: decimal(cs.len()) + " chunks found"@,
                full_value: "Found "@ + decimal(cs.len()) + " CBOR data chunks"@,
                children: chunk_nodes(cs, cs.len() as int),
                expanded: true,
                depth: 0,
                path: seq![],
                start: 0,
                end: len,
                confidence: None,
            },
        )
    }
}

/// Every item of every chunk can be turned into nodes, at the top or
/// under a chunk node.
pub open spec fn chunks_buildable(cs: Seq<ChunkShape>) -> bool {
    forall|i: int, j: int|
        0 <= i < cs.len() && 0 <= j < cs[i].items.len() ==> buildable(#[trigger] cs[i].items[j], 0)
            && buildable(cs[i].items[j], 2)
}

/// The view of an optional tree.
pub open spec fn tree_view(t: Option<CborNode>) -> Option<NodeView> {
    match t {
        Some(n) => Some(n@),
        None => None,
    }
}

proof fn lemma_insert_by_elements<T>(s: Seq<T>, x: T, key: spec_fn(T) -> int)
    ensures
        insert_by(s, x, key).len() == s.len() + 1,
        forall|k: int| 0 <= k < insert_by(s, x, key).len() ==> #[trigger] insert_by(s, x, key)[k] == x
            || s.contains(insert_by(s, x, key)[k]),
    decreases s.len(),
{
    if s.len() > 0 && key(s.last()) > key(x) {
        let d = s.drop_last();
        lemma_insert_by_elements(d, x, key);
        let r = insert_by(s, x, key);
        assert forall|k: int| 0 <= k < r.len() implies #[trigger] r[k] == x || s.contains(r[k]) by {
            if k < r.len() - 1 {
                if insert_by(d, x, key)[k] != x {
                    let m = choose|m: int| 0 <= m < d.len() && d[m] == insert_by(d, x, key)[k];
                    assert(s[m] == d[m]);
                }
            } else {
                assert(s[s.len() - 1] == r[k]);
            }
        }
    } else {
        let r = insert_by(s, x, key);
        assert forall|k: int| 0 <= k < r.len() implies #[trigger] r[k] == x || s.contains(r[k]) by {
            if k < s.len() {
                assert(s[k] == r[k]);
            }
        }
    }
}

/// Sorting keeps the elements.
proof fn lemma_sort_elements<T>(s: Seq<T>, key: spec_fn(T) -> int)
    ensures
        sort_by_key(s, key).len() == s.len(),
        forall|k: int| 0 <= k < s.len() ==> s.contains(#[trigger] sort_by_key(s, key)[k]),
    decreases s.len(),
{
    if s.len() > 0 {
        let d = s.drop_last();
        lemma_sort_elements(d, key);
        let sd = sort_by_key(d, key);
        lemma_insert_by_elements(sd, s.last(), key);
        assert forall|k: int| 0 <= k < s.len() implies s.contains(#[trigger] sort_by_key(s, key)[k]) by {
            let y = sort_by_key(s, key)[k];
            if y == s.last() {
                assert(s[s.len() - 1] == y);
            } else {
                let m = choose|m: int| 0 <= m < sd.len() && sd[m] == y;
                let m2 = choose|m2: int| 0 <= m2 < d.len() && d[m2] == sd[m];
                assert(s[m2] == y);
            }
        }
    }
}

proof fn lemma_sort_keeps_buildable(cs: Seq<ChunkShape>, key: spec_fn(ChunkShape) -> int)
    requires
        chunks_buildable(cs),
    ensures
        chunks_buildable(sort_by_key(cs, key)),
{
    lemma_sort_elements(cs, key);
    let ss = sort_by_key(cs, key);
    assert forall|i: int, j: int| 0 <= i < ss.len() && 0 <= j < ss[i].items.len() implies buildable(
        #[trigger] ss[i].items[j],
        0,
    ) && buildable(ss[i].items[j], 2) by {
        let m = choose|m: int| 0 <= m < cs.len() && cs[m] == ss[i];
        assert(cs[m].items[j] == ss[i].items[j]);
    }
}

/// The state of the explorer.
pub struct App {
    /// The bytes of the file being explored.
    pub raw_bytes: Vec<u8>,
    /// The tree shown, built from `chunks`.
    pub tree: Option<CborNode>,
    /// The runs of CBOR items found in `raw_bytes`.
    pub chunks: Vec<CborChunk>,
    pub sort_mode: SortMode,
    pub scan_mode: ScanMode,
    pub parse_error: Option<String>,
    pub focus: Focus,
    /// The position of the selected node among the visible nodes.
    pub tree_selected: usize,
    /// The first visible row of the tree view.
    pub tree_offset: usize,
    /// The offset of the first byte shown in the hex view.
    pub hex_offset: usize,
    /// The offset of the selected byte.
    pub hex_selected: usize,
    pub visible_tree_height: usize,
    pub visible_hex_height: usize,
    pub file_name: String,
    /// The screen row of the selected node, for placing the details popup.
    pub cursor_row: usize,
    /// The name of the colour theme in use.
    pub theme: String,
    /// The theme in use when the theme dialog was opened.
    pub original_theme: Option<String>,
    /// The entry selected in the theme dialog.
    pub theme_index: usize,
    pub show_hex_integers: bool,
    pub popups: PopupMode,
    /// Whether the details popup follows the cursor.
    pub show_popup: bool,
    /// The names of the available themes.
    pub themes: Vec<String>,
    pub search_input: String,
    pub search_cursor_position: usize,
    pub search_error: Option<String>,
    pub last_search_query: Option<String>,
    pub config: AppConfig,
    /// The settings have changed and are to be saved.
    pub save_pending: bool,
    pub should_quit: bool,
    /// The view shows one run of items found from the cursor on.
    pub is_zoomed: bool,
    pub notification: Option<Notification>,
    /// Where the tree view was last drawn.
    pub tree_area: Rect,
    /// Where the hex view was last drawn.
    pub hex_area: Rect,
}

/// The node of chunk `i` with the nodes of its items.
fn make_chunk_node(chunk: &CborChunk, i: usize) -> (r: CborNode)
    requires
        i < usize::MAX,
        forall|j: int| 0 <= j < chunk.shape().items.len() ==> buildable(#[trigger] chunk.shape().items[j], 2),
    ensures
        r@ == chunk_node(chunk.shape(), i as int),
{
    let ghost c = chunk.shape();
    proof {
        crate::cbor_parser::lemma_shapes_index(chunk.items@);
    }
    let n = chunk.items.len();
    let mut title = String::new();
    title.push_str("Chunk #");
    push_decimal(&mut title, i as u128 + 1);
    proof {
        assert(Seq::<char>::empty() + "Chunk #"@ =~= "Chunk #"@);
    }
    let mut key = title.clone();
    key.push_str(" (Score: ");
    push_decimal(&mut key, chunk.score as u128);
    key.push(')');
    let mut preview = String::new();
    preview.push_str("offset 0x");
    push_hex_upper(&mut preview, chunk.offset as u128);
    preview.push_str(", ");
    push_decimal(&mut preview, n as u128);
    preview.push_str(" items");
    let mut full = String::new();
    full.push_str("Chunk at offset 0x");
    push_hex_upper(&mut full, chunk.offset as u128);
    full.push_str(" with ");
    push_decimal(&mut full, n as u128);
    full.push_str(" items. Score: ");
    push_decimal(&mut full, chunk.score as u128);
    proof {
        assert(Seq::<char>::empty() + "offset 0x"@ =~= "offset 0x"@);
        assert(Seq::<char>::empty() + "Chunk at offset 0x"@ =~= "Chunk at offset 0x"@);
    }
    let mut cpath: Vec<PathSegment> = Vec::new();
    cpath.push(PathSegment { name: "root".to_owned(), depth: 0 });
    cpath.push(PathSegment { name: title, depth: 1 });
    proof {
        assert(path_view(cpath@) =~= chunk_path(i as int));
    }
    let mut children: Vec<CborNode> = Vec::new();
    let mut j: usize = 0;
    while j < n
        invariant
            c == chunk.shape(),
            n == chunk.items@.len(),
            n == c.items.len(),
            forall|k: int| 0 <= k < n ==> #[trigger] c.items[k] == chunk.items@[k].shape(),
            forall|k: int| 0 <= k < n ==> buildable(#[trigger] c.items[k], 2),
            0 <= j <= n,
            path_view(cpath@) == chunk_path(i as int),
            node_views(children@) == item_nodes(c.items, chunk_path(i as int), j as int),
        decreases n - j,
    {
        let mut item_key = String::new();
        item_key.push_str("Item ");
        push_decimal(&mut item_key, j as u128);
        proof {
            assert(Seq::<char>::empty() + "Item "@ =~= "Item "@);
            assert(buildable(c.items[j as int], 2));
        }
        let node = chunk.items[j].to_node(Some(item_key), 2, crate::nodes::clone_path(&cpath));
        proof {
            crate::nodes::lemma_node_views_push(children@, node);
        }
        children.push(node);
        j += 1;
    }
    let end = if n > 0 {
        chunk.items[n - 1].range.end
    } else {
        chunk.offset
    };
    proof {
        let cn = chunk_node(c, i as int);
        assert(key@ =~= cn.key->0);
        assert(preview@ =~= cn.value_preview);
        assert(full@ =~= cn.full_value);
        if n > 0 {
            assert(c.items.last() == chunk.items@[n - 1].shape());
        }
    }
    CborNode {
        key: Some(key),
        value_type: CborType::Array,
        value_preview: preview,
        full_value: full,
        children,
        expanded: i == 0,
        depth: 1,
        path: cpath,
        range: std::ops::Range { start: chunk.offset, end },
        confidence: Some(get_confidence_level(chunk.score)),
    }
}

fn push_scan_mode_name(s: &mut String, m: ScanMode)
    ensures
        final(s)@ == old(s)@ + scan_mode_name(m),
{
    match m {
        ScanMode::Single => s.push_str("Single"),
        ScanMode::Auto => s.push_str("Auto"),
    }
}

fn push_sort_mode_name(s: &mut String, m: SortMode)
    ensures
        final(s)@ == old(s)@ + sort_mode_name(m),
{
    match m {
        SortMode::Score => s.push_str("Score"),
        SortMode::Offset => s.push_str("Offset"),
    }
}

impl App {
    /// Sorts the chunks by the sort mode and builds the tree from them.
    pub(crate) fn rebuild_tree(&mut self)
        requires
            chunks_buildable(chunk_shapes(old(self).chunks@)),
        ensures
            chunk_shapes(final(self).chunks@) == sort_by_key(
                chunk_shapes(old(self).chunks@),
                chunk_key(old(self).sort_mode == SortMode::Score),
            ),
            tree_view(final(self).tree) == tree_of(
                chunk_shapes(final(self).chunks@),
                old(self).scan_mode,
                old(self).sort_mode,
                old(self).raw_bytes@.len() as int,
            ),
            chunks_buildable(chunk_shapes(final(self).chunks@)),
            *final(self) == (App { tree: final(self).tree, chunks: final(self).chunks, ..*old(self) }),
    {
        let ghost key = chunk_key(self.sort_mode == SortMode::Score);
        proof {
            lemma_sort_keeps_buildable(chunk_shapes(self.chunks@), key);
        }
        if self.chunks.len() == 0 {
            self.tree = None;
            proof {
                assert(chunk_shapes(self.chunks@) =~= Seq::<ChunkShape>::empty());
            }
            return;
        }
        sort_chunks(&mut self.chunks, self.sort_mode == SortMode::Score);
        let ghost cs = chunk_shapes(self.chunks@);
        if self.chunks.len() == 1 && self.chunks[0].items.len() == 1 {
            proof {
                crate::cbor_parser::lemma_shapes_index(self.chunks@[0].items@);
                assert(cs[0].items[0] == self.chunks@[0].items@[0].shape());
                assert(buildable(cs[0].items[0], 0));
            }
            let node = self.chunks[0].items[0].to_node(None, 0, Vec::new());
            proof {
                assert(path_view(Seq::<PathSegment>::empty()) =~= Seq::<(Seq<char>, int)>::empty());
            }
            self.tree = Some(node);
            return;
        }
        proof {
            crate::cbor_parser::lemma_shapes_index(self.chunks@[0].items@);
            assert(cs[0] == self.chunks@[0].shape());
            assert(!(cs.len() == 1 && cs[0].items.len() == 1));
        }
        let n = self.chunks.len();
        let mut children: Vec<CborNode> = Vec::new();
        let mut i: usize = 0;
        while i < n
            invariant
                n == self.chunks@.len(),
                cs == chunk_shapes(self.chunks@),
                chunks_buildable(cs),
                0 <= i <= n,
                node_views(children@) == chunk_nodes(cs, i as int),
            decreases n - i,
        {
            proof {
                assert forall|j: int| 0 <= j < self.chunks@[i as int].shape().items.len() implies buildable(
                    #[trigger] self.chunks@[i as int].shape().items[j],
                    2,
                ) by {
                    assert(cs[i as int] == self.chunks@[i as int].shape());
                    assert(buildable(cs[i as int].items[j], 2));
                }
            }
            let node = make_chunk_node(&self.chunks[i], i);
            proof {
                crate::nodes::lemma_node_views_push(children@, node);
            }
            children.push(node);
            i += 1;
        }
        let mut key_text = String::new();
        key_text.push_str("Found CBOR Data (Mode: ");
        push_scan_mode_name(&mut key_text, self.scan_mode);
        key_text.push_str(", Sorted by ");
        push_sort_mode_name(&mut key_text, self.sort_mode);
        key_text.push(')');
        let mut preview = String::new();
        push_decimal(&mut preview, n as u128);
        preview.push_str(" chunks found");
        let mut full = String::new();
        full.push_str("Found ");
        push_decimal(&mut full, n as u128);
        full.push_str(" CBOR data chunks");
        proof {
            assert(key_text@ =~= "Found CBOR Data (Mode: "@ + scan_mode_name(self.scan_mode)
                + ", Sorted by "@ + sort_mode_name(self.sort_mode) + seq![')']);
            assert(preview@ =~= decimal(n as nat) + " chunks found"@);
            assert(full@ =~= "Found "@ + decimal(n as nat) + " CBOR data chunks"@);
            assert(Seq::<PathSegment>::empty().len() == 0);
            assert(path_view(Seq::<PathSegment>::empty()) =~= Seq::<(Seq<char>, int)>::empty());
        }
        let root = CborNode {
            key: Some(key_text),
            value_type: CborType::Mapping,
            value_preview: preview,
            full_value: full,
            children,
            expanded: true,
            depth: 0,
            path: Vec::new(),
            range: std::ops::Range { start: 0, end: self.raw_bytes.len() },
            confidence: None,
        };
        self.tree = Some(root);
    }
}

/// The theme used for a configured theme name: that theme when there is
/// one of that name, else the first.
pub open spec fn theme_for(name: Seq<char>) -> Seq<char> {
    if theme_names().contains(name) {
        name
    } else {
        theme_names()[0]
    }
}

/// A scan of the bytes finds its chunks with every score fitting in
/// `usize`, and every item found can be shown.
pub open spec fn scan_showable(bytes: Seq<u8>, mode: ScanMode) -> bool {
    spec_scan(bytes, mode).1 && chunks_buildable(spec_scan(bytes, mode).0)
}

/// Whether every item of every chunk can be shown.
pub fn chunks_are_buildable(chunks: &Vec<CborChunk>) -> (r: bool)
    ensures
        r == chunks_buildable(chunk_shapes(chunks@)),
{
    let ghost cs = chunk_shapes(chunks@);
    let n = chunks.len();
    let mut i: usize = 0;
    let mut ok = true;
    while i < n && ok
        invariant
            n == chunks@.len(),
            cs == chunk_shapes(chunks@),
            0 <= i <= n,
            ok ==> forall|a: int, b: int|
                0 <= a < i && 0 <= b < cs[a].items.len() ==> buildable(#[trigger] cs[a].items[b], 0)
                    && buildable(cs[a].items[b], 2),
            !ok ==> !chunks_buildable(cs),
        decreases n - i,
    {
        let m = chunks[i].items.len();
        let mut j: usize = 0;
        proof {
            crate::cbor_parser::lemma_shapes_index(chunks@[i as int].items@);
            assert(cs[i as int] == chunks@[i as int].shape());
        }
        while j < m && ok
            invariant
                n == chunks@.len(),
                cs == chunk_shapes(chunks@),
                0 <= i < n,
                m == cs[i as int].items.len(),
                m == chunks@[i as int].items@.len(),
                forall|b: int| 0 <= b < m ==> #[trigger] cs[i as int].items[b]
                    == chunks@[i as int].items@[b].shape(),
                0 <= j <= m,
                ok ==> forall|a: int, b: int|
                    0 <= a < i && 0 <= b < cs[a].items.len() ==> buildable(#[trigger] cs[a].items[b], 0)
                        && buildable(cs[a].items[b], 2),
                ok ==> forall|b: int|
                    0 <= b < j ==> buildable(#[trigger] cs[i as int].items[b], 0) && buildable(
                        cs[i as int].items[b],
                        2,
                    ),
                !ok ==> !chunks_buildable(cs),
            decreases m - j,
        {
            let item = &chunks[i].items[j];
            let good = item.is_buildable(0) && item.is_buildable(2);
            proof {
                assert(cs[i as int].items[j as int] == chunks@[i as int].items@[j as int].shape());
            }
            if !good {
                ok = false;
            }
            j += 1;
        }
        proof {
            if ok {
                assert forall|a: int, b: int| 0 <= a < i + 1 && 0 <= b < cs[a].items.len() implies buildable(
                    #[trigger] cs[a].items[b],
                    0,
                ) && buildable(cs[a].items[b], 2) by {
                    if a == i {
                        assert(buildable(cs[i as int].items[b], 0));
                    }
                }
            }
        }
        i += 1;
    }
    ok
}

/// The index of the first theme named `name`, if any.
fn find_theme(themes: &Vec<String>, name: &String) -> (r: Option<usize>)
    ensures
        r matches Some(k) ==> k < themes@.len() && themes@[k as int]@ == name@ && forall|j: int|
            0 <= j < k ==> #[trigger] themes@[j]@ != name@,
        r is None ==> forall|j: int| 0 <= j < themes@.len() ==> #[trigger] themes@[j]@ != name@,
{
    let n = themes.len();
    let mut k: usize = 0;
    while k < n
        invariant
            n == themes@.len(),
            0 <= k <= n,
            forall|j: int| 0 <= j < k ==> #[trigger] themes@[j]@ != name@,
        decreases n - k,
    {
        if themes[k] == *name {
            return Some(k);
        }
        k += 1;
    }
    None
}

impl App {
    /// The state right after `bytes` from the file `file_name` are opened
    /// with the settings `config`: the chunks of a `Single` scan, sorted by
    /// score, and their tree. `None` exactly when a chunk score overflows
    /// or an item cannot be shown.
    pub fn new(raw_bytes: Vec<u8>, file_name: String, config: AppConfig) -> (r: Option<App>)
        ensures
            r is Some <==> scan_showable(raw_bytes@, ScanMode::Single),
            r matches Some(app) ==> {
                &&& app.raw_bytes@ == raw_bytes@
                &&& chunk_shapes(app.chunks@) == sort_by_key(
                    spec_scan(raw_bytes@, ScanMode::Single).0,
                    chunk_key(true),
                )
                &&& tree_view(app.tree) == tree_of(
                    chunk_shapes(app.chunks@),
                    ScanMode::Single,
                    SortMode::Score,
                    raw_bytes@.len() as int,
                )
                &&& app.sort_mode == SortMode::Score
                &&& app.scan_mode == ScanMode::Single
                &&& (spec_scan(raw_bytes@, ScanMode::Single).0.len() == 0 <==> app.parse_error is Some)
                &&& app.parse_error matches Some(e) ==> e@ == "No valid CBOR data found"@
                &&& app.focus == Focus::Tree
                &&& app.tree_selected == 0 && app.tree_offset == 0
                &&& app.hex_offset == 0 && app.hex_selected == 0
                &&& app.visible_tree_height == 20 && app.visible_hex_height == 20
                &&& app.file_name@ == file_name@
                &&& app.cursor_row == 0
                &&& app.theme@ == theme_for(config.theme@)
                &&& app.original_theme is None
                &&& app.theme_index == 0
                &&& app.show_hex_integers == config.show_hex_integers
                &&& app.popups == PopupMode::Closed
                &&& app.show_popup
                &&& app.themes@.len() == theme_names().len()
                &&& forall|i: int| 0 <= i < app.themes@.len() ==> #[trigger] app.themes@[i]@
                    == theme_names()[i]
                &&& app.search_input@.len() == 0
                &&& app.search_cursor_position == 0
                &&& app.search_error is None
                &&& app.last_search_query is None
                &&& app.config == config
                &&& !app.save_pending && !app.should_quit && !app.is_zoomed
                &&& app.notification is None
                &&& app.tree_area == Rect::default_spec() && app.hex_area == Rect::default_spec()
            },
    {
        let scanned = {
            let scanner = CborScanner::new(raw_bytes.as_slice());
            scanner.try_scan_for_cbor_sequences(ScanMode::Single)
        };
        let chunks = match scanned {
            Some(c) => c,
            None => {
                return None;
            },
        };
        if !chunks_are_buildable(&chunks) {
            return None;
        }
        let parse_error = if chunks.len() == 0 {
            Some("No valid CBOR data found".to_owned())
        } else {
            None
        };
        let themes = theme_name_list();
        let theme = match find_theme(&themes, &config.theme) {
            Some(k) => themes[k].clone(),
            None => themes[0].clone(),
        };
        proof {
            if theme_names().contains(config.theme@) {
                let m = choose|m: int| 0 <= m < theme_names().len() && theme_names()[m] == config.theme@;
                assert(themes@[m]@ == config.theme@);
            }
        }
        let show_hex_integers = config.show_hex_integers;
        let mut app = App {
            raw_bytes,
            tree: None,
            chunks,
            sort_mode: SortMode::Score,
            scan_mode: ScanMode::Single,
            parse_error,
            focus: Focus::Tree,
            tree_selected: 0,
            tree_offset: 0,
            hex_offset: 0,
            hex_selected: 0,
            visible_tree_height: 20,
            visible_hex_height: 20,
            file_name,
            cursor_row: 0,
            theme,
            original_theme: None,
            theme_index: 0,
            show_hex_integers,
            popups: PopupMode::Closed,
            show_popup: true,
            themes,
            search_input: String::new(),
            search_cursor_position: 0,
            search_error: None,
            last_search_query: None,
            config,
            save_pending: false,
            should_quit: false,
            is_zoomed: false,
            notification: None,
            tree_area: Rect::default(),
            hex_area: Rect::default(),
        };
        app.rebuild_tree();
        Some(app)
    }
}

/// `a - b`, or zero when `b` is larger.
pub open spec fn sat_sub(a: int, b: int) -> int {
    if a >= b {
        a - b
    } else {
        0
    }
}

/// The tree scroll offset after the first step: the cursor is kept one row
/// below the top of the view.
pub open spec fn tree_scroll_top(sel: int, off: int) -> int {
    if sel < off + 1 {
        sat_sub(sel, 1)
    } else {
        off
    }
}

/// The last row from which the cursor is kept one row above the bottom
/// of the view.
pub open spec fn tree_scroll_bottom(sel: int, off: int, h: int) -> int {
    sat_sub(tree_scroll_top(sel, off) + sat_sub(h, 1), 1)
}

/// The tree scroll offset that keeps the cursor `sel` one row away from
/// the edges of a view of `h` rows scrolled to `off`.
pub open spec fn tree_scroll(sel: int, off: int, h: int) -> int {
    let off1 = tree_scroll_top(sel, off);
    if h > 0 && sel > tree_scroll_bottom(sel, off, h) {
        off1 + (sel - tree_scroll_bottom(sel, off, h))
    } else {
        off1
    }
}

/// The tree scroll offset can be computed without overflow.
pub open spec fn tree_scroll_fits(sel: int, off: int, h: int) -> bool {
    &&& off + 1 <= usize::MAX
    &&& h > 0 ==> tree_scroll_top(sel, off) + sat_sub(h, 1) <= usize::MAX
    &&& tree_scroll(sel, off, h) <= usize::MAX
}

/// The hex scroll offset that brings the row of byte `sel` into a view of
/// `h` rows (two of them borders) scrolled to `off`.
pub open spec fn hex_scroll(sel: int, off: int, h: int) -> int {
    let row = sel / BYTES_PER_ROW as int;
    let rows = sat_sub(h, 2);
    let top = off / BYTES_PER_ROW as int;
    if row < top {
        row * BYTES_PER_ROW
    } else if row >= top + rows {
        (row - rows + 1) * BYTES_PER_ROW
    } else {
        off
    }
}

/// The hex scroll offset can be computed without overflow.
pub open spec fn hex_scroll_fits(sel: int, off: int, h: int) -> bool {
    let row = sel / BYTES_PER_ROW as int;
    let rows = sat_sub(h, 2);
    let top = off / BYTES_PER_ROW as int;
    &&& top + rows <= usize::MAX
    &&& row >= top + rows ==> (row - rows + 1) * BYTES_PER_ROW <= usize::MAX
}

impl App {
    /// The visible nodes of the tree, in display order.
    pub open spec fn visible(&self) -> Seq<NodeView> {
        match tree_view(self.tree) {
            Some(v) => flat(v),
            None => seq![],
        }
    }

    /// The selected node, when the selection is among the visible nodes.
    pub open spec fn selected(&self) -> Option<NodeView> {
        if self.tree_selected < self.visible().len() {
            Some(self.visible()[self.tree_selected as int])
        } else {
            None
        }
    }

    /// The chunks can be shown: what every command that rebuilds the tree
    /// needs.
    pub open spec fn wf(&self) -> bool {
        chunks_buildable(chunk_shapes(self.chunks@))
    }

    pub fn get_selected_node(&self) -> (r: Option<&CborNode>)
        ensures
            match r {
                Some(n) => self.selected() == Some(n@),
                None => self.selected() is None,
            },
    {
        match &self.tree {
            Some(t) => {
                let flat_nodes = t.flatten();
                if self.tree_selected < flat_nodes.len() {
                    let n = flat_nodes[self.tree_selected];
                    proof {
                        assert(crate::cbor_tree::refs_view(flat_nodes@)[self.tree_selected as int] == n@);
                    }
                    Some(n)
                } else {
                    None
                }
            },
            None => None,
        }
    }

    /// The deepest node whose range holds the selected byte.
    pub fn get_node_at_hex_cursor(&self) -> (r: Option<&CborNode>)
        ensures
            match tree_view(self.tree) {
                Some(v) => match r {
                    Some(n) => path_to(v, self.hex_selected as int).len() > 0 && n@ == path_to(
                        v,
                        self.hex_selected as int,
                    ).last(),
                    None => path_to(v, self.hex_selected as int).len() == 0,
                },
                None => r is None,
            },
    {
        match &self.tree {
            Some(t) => {
                let path = t.get_path_to_offset(self.hex_selected);
                if path.len() > 0 {
                    let n = path[path.len() - 1];
                    proof {
                        assert(crate::cbor_tree::refs_view(path@)[path@.len() - 1] == n@);
                    }
                    Some(n)
                } else {
                    None
                }
            },
            None => None,
        }
    }

    /// Scrolls the tree view to keep the cursor one row away from its
    /// edges.
    pub fn adjust_tree_scroll(&mut self)
        requires
            tree_scroll_fits(
                old(self).tree_selected as int,
                old(self).tree_offset as int,
                old(self).visible_tree_height as int,
            ),
        ensures
            *final(self) == (App {
                tree_offset: tree_scroll(
                    old(self).tree_selected as int,
                    old(self).tree_offset as int,
                    old(self).visible_tree_height as int,
                ) as usize,
                ..*old(self)
            }),
    {
        let scrolloff: usize = 1;
        if self.tree_selected < self.tree_offset + scrolloff {
            self.tree_offset = self.tree_selected.saturating_sub(scrolloff);
        }
        let visible_rows = self.visible_tree_height;
        if visible_rows > 0 {
            let max_visible_idx = self.tree_offset + visible_rows.saturating_sub(1);
            let bottom_threshold = max_visible_idx.saturating_sub(scrolloff);
            if self.tree_selected > bottom_threshold {
                self.tree_offset = self.tree_offset + (self.tree_selected - bottom_threshold);
            }
        }
    }

    /// Scrolls the hex view to bring the row of the selected byte into it.
    pub fn adjust_hex_scroll(&mut self)
        requires
            hex_scroll_fits(
                old(self).hex_selected as int,
                old(self).hex_offset as int,
                old(self).visible_hex_height as int,
            ),
        ensures
            *final(self) == (App {
                hex_offset: hex_scroll(
                    old(self).hex_selected as int,
                    old(self).hex_offset as int,
                    old(self).visible_hex_height as int,
                ) as usize,
                ..*old(self)
            }),
    {
        let row = self.hex_selected / BYTES_PER_ROW;
        let visible_rows = self.visible_hex_height.saturating_sub(2);
        let current_offset_row = self.hex_offset / BYTES_PER_ROW;
        if row < current_offset_row {
            self.hex_offset = row * BYTES_PER_ROW;
        } else if row >= current_offset_row + visible_rows {
            self.hex_offset = (row - visible_rows + 1) * BYTES_PER_ROW;
        }
    }
}

/// The size of a node's byte range.
pub open spec fn range_len(v: NodeView) -> int {
    sat_sub(v.end, v.start)
}

/// A node may be chosen for byte `off`: its range holds it, and its size
/// is below `usize::MAX`.
pub open spec fn candidate(v: NodeView, off: int) -> bool {
    covers(v, off) && range_len(v) < usize::MAX
}

/// Position `i` holds the first of the smallest candidate nodes for `off`.
pub open spec fn is_deepest_at(nodes: Seq<NodeView>, off: int, i: int) -> bool {
    &&& 0 <= i < nodes.len()
    &&& candidate(nodes[i], off)
    &&& forall|j: int| 0 <= j < nodes.len() && candidate(#[trigger] nodes[j], off) ==> range_len(nodes[i]) <= range_len(nodes[j])
    &&& forall|j: int| 0 <= j < i && candidate(#[trigger] nodes[j], off) ==> range_len(nodes[j]) > range_len(nodes[i])
}

/// No node is a candidate for `off`.
pub open spec fn no_candidate(nodes: Seq<NodeView>, off: int) -> bool {
    forall|j: int| 0 <= j < nodes.len() ==> !candidate(#[trigger] nodes[j], off)
}

/// The position of the first of the smallest visible nodes that hold byte
/// `off`.
pub(crate) fn deepest_visible(nodes: &Vec<&CborNode>, off: usize) -> (r: Option<usize>)
    ensures
        match r {
            Some(i) => is_deepest_at(crate::cbor_tree::refs_view(nodes@), off as int, i as int),
            None => no_candidate(crate::cbor_tree::refs_view(nodes@), off as int),
        },
{
    let ghost vs = crate::cbor_tree::refs_view(nodes@);
    let n = nodes.len();
    let mut best: Option<usize> = None;
    let mut min_len: usize = usize::MAX;
    let mut i: usize = 0;
    while i < n
        invariant
            n == nodes@.len(),
            vs == crate::cbor_tree::refs_view(nodes@),
            vs.len() == n,
            0 <= i <= n,
            match best {
                Some(b) => b < i && candidate(vs[b as int], off as int) && min_len == range_len(vs[b as int])
                    && (forall|j: int| 0 <= j < i && candidate(#[trigger] vs[j], off as int) ==> range_len(vs[b as int]) <= range_len(vs[j]))
                    && (forall|j: int| 0 <= j < b && candidate(#[trigger] vs[j], off as int) ==> range_len(vs[j]) > range_len(vs[b as int])),
                None => min_len == usize::MAX && forall|j: int| 0 <= j < i ==> !candidate(#[trigger] vs[j], off as int),
            },
        decreases n - i,
    {
        let node = nodes[i];
        proof {
            assert(vs[i as int] == node@);
        }
        if node.range.start <= off && off < node.range.end {
            let len = node.range.end - node.range.start;
            if len < min_len {
                min_len = len;
                best = Some(i);
            }
        }
        i += 1;
    }
    best
}

/// `b` is `a` after the tree selection follows the hex cursor: the tree is
/// expanded along the path to the selected byte, and the first of the
/// smallest visible nodes holding it is selected (the selection stays when
/// none holds it); nothing else changes.
pub open spec fn hex_synced(a: App, b: App) -> bool {
    match tree_view(a.tree) {
        None => b == a,
        Some(v) => {
            let w = expand_path(v, a.hex_selected as int);
            &&& tree_view(b.tree) == Some(w)
            &&& b == (App { tree: b.tree, tree_selected: b.tree_selected, ..a })
            &&& (is_deepest_at(flat(w), a.hex_selected as int, b.tree_selected as int) || (no_candidate(
                flat(w),
                a.hex_selected as int,
            ) && b.tree_selected == a.tree_selected))
        },
    }
}

/// `a` with the tree view scrolled to its selection.
pub open spec fn tree_scrolled(a: App) -> App {
    App {
        tree_offset: tree_scroll(
            a.tree_selected as int,
            a.tree_offset as int,
            a.visible_tree_height as int,
        ) as usize,
        ..a
    }
}

/// `a` with the hex view scrolled to its cursor.
pub open spec fn hex_scrolled(a: App) -> App {
    App {
        hex_offset: hex_scroll(
            a.hex_selected as int,
            a.hex_offset as int,
            a.visible_hex_height as int,
        ) as usize,
        ..a
    }
}

/// The tree view of `a` can be scrolled to its selection.
pub open spec fn tree_scroll_ok(a: App) -> bool {
    tree_scroll_fits(a.tree_selected as int, a.tree_offset as int, a.visible_tree_height as int)
}

/// The hex view of `a` can be scrolled to its cursor.
pub open spec fn hex_scroll_ok(a: App) -> bool {
    hex_scroll_fits(a.hex_selected as int, a.hex_offset as int, a.visible_hex_height as int)
}

/// `input` is the text of one of the popups that take typed input.
pub open spec fn in_text_popup(p: PopupMode) -> bool {
    p == PopupMode::Search || p == PopupMode::GotoOffset
}

/// The focus can move: into the hex view, which scrolls to the selected
/// node; or into the tree, which scrolls to its selection.
pub open spec fn focus_toggle_ok(a: App) -> bool {
    &&& a.focus == Focus::Tree ==> (a.selected() matches Some(n) ==> hex_scroll_fits(
        n.start,
        a.hex_offset as int,
        a.visible_hex_height as int,
    ))
    &&& a.focus == Focus::Hex ==> tree_scroll_ok(a)
}

/// `a` with the focus moved: into the hex view with its cursor on the
/// first byte of the selected node, or into the tree scrolled to its
/// selection.
pub open spec fn focus_toggled(a: App) -> App {
    match a.focus {
        Focus::Tree => match a.selected() {
            Some(n) => App {
                focus: Focus::Hex,
                hex_selected: n.start as usize,
                hex_offset: hex_scroll(n.start, a.hex_offset as int, a.visible_hex_height as int) as usize,
                ..a
            },
            None => App { focus: Focus::Hex, ..a },
        },
        Focus::Hex => App { focus: Focus::Tree, ..tree_scrolled(a) },
    }
}

impl App {
    /// Moves the focus between the tree and the hex view: into the hex
    /// view with its cursor on the first byte of the selected node, or into
    /// the tree with its view scrolled to the selection.
    pub fn toggle_focus(&mut self)
        requires
            focus_toggle_ok(*old(self)),
        ensures
            *final(self) == focus_toggled(*old(self)),
    {
        match self.focus {
            Focus::Tree => {
                let start = match self.get_selected_node() {
                    Some(node) => Some(node.range.start),
                    None => None,
                };
                if let Some(st) = start {
                    self.hex_selected = st;
                    self.adjust_hex_scroll();
                }
                self.focus = Focus::Hex;
            },
            Focus::Hex => {
                self.adjust_tree_scroll();
                self.focus = Focus::Tree;
            },
        }
    }

    pub fn toggle_help(&mut self)
        ensures
            *final(self) == (App {
                popups: if old(self).popups == PopupMode::Help {
                    PopupMode::Closed
                } else {
                    PopupMode::Help
                },
                ..*old(self)
            }),
    {
        if self.popups == PopupMode::Help {
            self.popups = PopupMode::Closed;
        } else {
            self.popups = PopupMode::Help;
        }
    }

    /// Marks the settings to be saved by the program's settings store.
    pub fn save_config(&mut self)
        ensures
            *final(self) == (App { save_pending: true, ..*old(self) }),
    {
        self.save_pending = true;
    }

    /// Whether the settings are to be saved; the request is taken, so the
    /// next call says no until the settings change again.
    pub fn take_save_request(&mut self) -> (r: bool)
        ensures
            r == old(self).save_pending,
            *final(self) == (App { save_pending: false, ..*old(self) }),
    {
        let r = self.save_pending;
        self.save_pending = false;
        r
    }

    pub fn toggle_hex_integers(&mut self)
        ensures
            *final(self) == (App {
                show_hex_integers: !old(self).show_hex_integers,
                config: AppConfig { show_hex_integers: !old(self).show_hex_integers, ..old(self).config },
                save_pending: true,
                ..*old(self)
            }),
    {
        self.show_hex_integers = !self.show_hex_integers;
        self.config.show_hex_integers = self.show_hex_integers;
        self.save_config();
    }

    pub fn toggle_popup(&mut self)
        ensures
            *final(self) == (App { show_popup: !old(self).show_popup, ..*old(self) }),
    {
        self.show_popup = !self.show_popup;
    }

    /// Puts the hex cursor on the first byte of the selected node.
    pub fn update_hex_selection_from_tree(&mut self)
        requires
            old(self).selected() matches Some(n) ==> hex_scroll_fits(
                n.start,
                old(self).hex_offset as int,
                old(self).visible_hex_height as int,
            ),
        ensures
            *final(self) == (match old(self).selected() {
                Some(n) => App {
                    hex_selected: n.start as usize,
                    hex_offset: hex_scroll(
                        n.start,
                        old(self).hex_offset as int,
                        old(self).visible_hex_height as int,
                    ) as usize,
                    ..*old(self)
                },
                None => *old(self),
            }),
    {
        let start = match self.get_selected_node() {
            Some(node) => Some(node.range.start),
            None => None,
        };
        if let Some(st) = start {
            self.hex_selected = st;
            self.adjust_hex_scroll();
        }
    }

    /// Expands the tree along the path to the selected byte, and selects
    /// the first of the smallest visible nodes that hold it.
    pub fn update_tree_selection_from_hex(&mut self)
        ensures
            hex_synced(*old(self), *final(self)),
    {
        let off = self.hex_selected;
        match &mut self.tree {
            Some(tree) => {
                tree.expand_path_to_offset(off);
                let best = {
                    let flat_nodes = tree.flatten();
                    deepest_visible(&flat_nodes, off)
                };
                if let Some(idx) = best {
                    self.tree_selected = idx;
                }
            },
            None => {},
        }
    }

    /// `toggle_expand` changes the selected node: the tree has the focus,
    /// and the selected node has children.
    pub open spec fn toggles_selected(&self) -> bool {
        &&& self.focus == Focus::Tree
        &&& self.selected() is Some
        &&& self.selected()->0.children.len() > 0
    }

    /// Opens or closes the selected node, when it has children and the
    /// tree has the focus.
    pub fn toggle_expand(&mut self)
        ensures
            old(self).toggles_selected() ==> final(self).tree is Some && tree_view(final(self).tree)
                == Some(
                set_flat(
                    tree_view(old(self).tree)->0,
                    old(self).tree_selected as int,
                    NodeView { expanded: !old(self).selected()->0.expanded, ..old(self).selected()->0 },
                ),
            ),
            !old(self).toggles_selected() ==> *final(self) == *old(self),
            *final(self) == (App { tree: final(self).tree, ..*old(self) }),
    {
        if self.focus == Focus::Tree {
            let has = match self.get_selected_node() {
                Some(node) => node.has_children(),
                None => false,
            };
            if has {
                let sel = self.tree_selected;
                match &mut self.tree {
                    Some(tree) => {
                        match tree.get_node_at_index_mut(sel) {
                            Some(node) => {
                                node.expanded = !node.expanded;
                            },
                            None => {},
                        }
                    },
                    None => {},
                }
            }
        }
    }

    pub fn expand_all(&mut self)
        ensures
            tree_view(final(self).tree) == match tree_view(old(self).tree) {
                Some(v) => Some(with_all_expanded(v, true)),
                None => None,
            },
            *final(self) == (App { tree: final(self).tree, ..*old(self) }),
    {
        if let Some(tree) = &mut self.tree {
            tree.expand_all();
        }
    }

    pub fn collapse_all(&mut self)
        ensures
            tree_view(final(self).tree) == match tree_view(old(self).tree) {
                Some(v) => Some(with_all_expanded(v, false)),
                None => None,
            },
            *final(self) == (App { tree: final(self).tree, ..*old(self) }),
    {
        if let Some(tree) = &mut self.tree {
            tree.collapse_all();
        }
    }

    /// Shows a message for `duration_secs` seconds.
    pub fn set_notification(&mut self, message: String, severity: NotificationSeverity, duration_secs: u64)
        ensures
            final(self).notification matches Some(n) && n.message@ == message@ && n.severity == severity
                && n.duration_secs == duration_secs,
            *final(self) == (App { notification: final(self).notification, ..*old(self) }),
    {
        self.notification = Some(Notification::new(message, severity, duration_secs));
    }

    /// Drops the notification once it has been shown long enough; which
    /// depends on the clock.
    pub fn tick(&mut self)
        ensures
            final(self).notification is None || final(self).notification == old(self).notification,
            *final(self) == (App { notification: final(self).notification, ..*old(self) }),
    {
        let expired = match &self.notification {
            Some(n) => n.is_expired(),
            None => false,
        };
        if expired {
            self.notification = None;
        }
    }
}

/// The other scan mode.
pub open spec fn other_scan_mode(m: ScanMode) -> ScanMode {
    match m {
        ScanMode::Single => ScanMode::Auto,
        ScanMode::Auto => ScanMode::Single,
    }
}

/// The other sort mode.
pub open spec fn other_sort_mode(m: SortMode) -> SortMode {
    match m {
        SortMode::Score => SortMode::Offset,
        SortMode::Offset => SortMode::Score,
    }
}

/// `b` is `a` after its bytes are scanned anew in its scan mode: the
/// chunks found, sorted by the sort mode, their tree, an error message when
/// none was found, and the selection back at the top.
pub open spec fn rescanned(a: App, b: App) -> bool {
    let found = spec_scan(a.raw_bytes@, a.scan_mode).0;
    &&& chunk_shapes(b.chunks@) == sort_by_key(found, chunk_key(a.sort_mode == SortMode::Score))
    &&& tree_view(b.tree) == tree_of(chunk_shapes(b.chunks@), a.scan_mode, a.sort_mode, a.raw_bytes@.len() as int)
    &&& (found.len() == 0 <==> b.parse_error is Some)
    &&& (b.parse_error matches Some(e) ==> e@ == "No valid CBOR data found"@)
    &&& b == (App {
        chunks: b.chunks,
        tree: b.tree,
        parse_error: b.parse_error,
        tree_selected: 0,
        tree_offset: 0,
        ..a
    })
    &&& b.wf()
}

/// A character can be typed into `a`: in an input popup the cursor lies on
/// a character boundary and can move on.
pub open spec fn char_entry_ok(a: App) -> bool {
    in_text_popup(a.popups) ==> is_char_boundary(
        encode_utf8(a.search_input@),
        a.search_cursor_position as int,
    ) && a.search_cursor_position < usize::MAX
}

/// `b` is `a` after `c` is typed: in an input popup, `c` is put at the
/// cursor (a byte position) and the cursor moves one on.
pub open spec fn char_entered(a: App, b: App, c: char) -> bool {
    if in_text_popup(a.popups) {
        let bytes = encode_utf8(a.search_input@);
        let p = a.search_cursor_position as int;
        &&& b.search_input@ == decode_utf8(bytes.take(p)) + seq![c] + decode_utf8(bytes.skip(p))
        &&& b == (App { search_input: b.search_input, search_cursor_position: (p + 1) as usize, ..a })
    } else {
        b == a
    }
}

/// The character before the cursor of `a` can be deleted: it starts on a
/// character boundary within the text.
pub open spec fn char_deletion_ok(a: App) -> bool {
    in_text_popup(a.popups) && a.search_cursor_position > 0 ==> {
        let p = a.search_cursor_position - 1;
        &&& p < encode_utf8(a.search_input@).len()
        &&& is_char_boundary(encode_utf8(a.search_input@), p)
    }
}

/// `b` is `a` after the character that starts one byte before the cursor
/// is deleted, in an input popup with the cursor past the start.
pub open spec fn char_deleted(a: App, b: App) -> bool {
    if in_text_popup(a.popups) && a.search_cursor_position > 0 {
        let bytes = encode_utf8(a.search_input@);
        let p = a.search_cursor_position - 1;
        &&& b.search_input@ == decode_utf8(bytes.take(p)) + decode_utf8(bytes.skip(p)).drop_first()
        &&& b == (App { search_input: b.search_input, search_cursor_position: p as usize, ..a })
    } else {
        b == a
    }
}

/// `a` with the input cursor one byte to the left, if it can move.
pub open spec fn cursor_left(a: App) -> App {
    if in_text_popup(a.popups) && a.search_cursor_position > 0 {
        App { search_cursor_position: (a.search_cursor_position - 1) as usize, ..a }
    } else {
        a
    }
}

/// `a` with the input cursor one byte to the right, if it can move.
pub open spec fn cursor_right(a: App) -> App {
    if in_text_popup(a.popups) && a.search_cursor_position < encode_utf8(a.search_input@).len() {
        App { search_cursor_position: (a.search_cursor_position + 1) as usize, ..a }
    } else {
        a
    }
}

impl App {
    /// Scans the bytes anew in the current scan mode and rebuilds the tree.
    pub(crate) fn rescan_chunks(&mut self)
        requires
            scan_showable(old(self).raw_bytes@, old(self).scan_mode),
        ensures
            rescanned(*old(self), *final(self)),
    {
        let chunks = {
            let scanner = CborScanner::new(self.raw_bytes.as_slice());
            scanner.scan_for_cbor_sequences(self.scan_mode)
        };
        proof {
            assert(chunk_shapes(chunks@) == spec_scan(self.raw_bytes@, self.scan_mode).0);
        }
        let empty = chunks.len() == 0;
        self.chunks = chunks;
        if empty {
            self.parse_error = Some("No valid CBOR data found".to_owned());
        } else {
            self.parse_error = None;
        }
        self.rebuild_tree();
        self.tree_selected = 0;
        self.tree_offset = 0;
    }

    /// Switches between the `Single` and `Auto` scan and scans anew.
    pub fn toggle_scan_mode(&mut self)
        requires
            scan_showable(old(self).raw_bytes@, other_scan_mode(old(self).scan_mode)),
        ensures
            rescanned(App { scan_mode: other_scan_mode(old(self).scan_mode), ..*old(self) }, *final(self)),
    {
        self.scan_mode = match self.scan_mode {
            ScanMode::Single => ScanMode::Auto,
            ScanMode::Auto => ScanMode::Single,
        };
        self.rescan_chunks();
    }

    /// Switches between sorting by score and by offset, rebuilds the tree
    /// and puts the selection back at the top.
    pub fn toggle_sort(&mut self)
        requires
            old(self).wf(),
        ensures
            final(self).sort_mode == other_sort_mode(old(self).sort_mode),
            chunk_shapes(final(self).chunks@) == sort_by_key(
                chunk_shapes(old(self).chunks@),
                chunk_key(other_sort_mode(old(self).sort_mode) == SortMode::Score),
            ),
            tree_view(final(self).tree) == tree_of(
                chunk_shapes(final(self).chunks@),
                old(self).scan_mode,
                final(self).sort_mode,
                old(self).raw_bytes@.len() as int,
            ),
            final(self).wf(),
            *final(self) == (App {
                sort_mode: final(self).sort_mode,
                chunks: final(self).chunks,
                tree: final(self).tree,
                tree_selected: 0,
                tree_offset: 0,
                ..*old(self)
            }),
    {
        self.sort_mode = match self.sort_mode {
            SortMode::Score => SortMode::Offset,
            SortMode::Offset => SortMode::Score,
        };
        self.rebuild_tree();
        self.tree_selected = 0;
        self.tree_offset = 0;
    }

    pub fn open_search(&mut self)
        ensures
            final(self).search_input@.len() == 0,
            *final(self) == (App {
                popups: PopupMode::Search,
                search_input: final(self).search_input,
                search_cursor_position: 0,
                search_error: None,
                ..*old(self)
            }),
    {
        self.popups = PopupMode::Search;
        self.search_input = String::new();
        self.search_cursor_position = 0;
        self.search_error = None;
    }

    pub fn open_goto(&mut self)
        ensures
            final(self).search_input@.len() == 0,
            *final(self) == (App {
                popups: PopupMode::GotoOffset,
                search_input: final(self).search_input,
                search_cursor_position: 0,
                search_error: None,
                ..*old(self)
            }),
    {
        self.popups = PopupMode::GotoOffset;
        self.search_input = String::new();
        self.search_cursor_position = 0;
        self.search_error = None;
    }

    pub fn close_popup(&mut self)
        ensures
            *final(self) == (App { popups: PopupMode::Closed, search_error: None, ..*old(self) }),
    {
        self.popups = PopupMode::Closed;
        self.search_error = None;
    }

    /// Types a character at the cursor of the search or offset input.
    pub fn enter_char(&mut self, c: char)
        requires
            char_entry_ok(*old(self)),
        ensures
            char_entered(*old(self), *final(self), c),
    {
        if self.popups == PopupMode::Search || self.popups == PopupMode::GotoOffset {
            self.search_input.insert(self.search_cursor_position, c);
            self.search_cursor_position += 1;
        }
    }

    /// Deletes the character before the cursor of the search or offset
    /// input.
    pub fn delete_char(&mut self)
        requires
            char_deletion_ok(*old(self)),
        ensures
            char_deleted(*old(self), *final(self)),
    {
        if (self.popups == PopupMode::Search || self.popups == PopupMode::GotoOffset)
            && self.search_cursor_position > 0 {
            self.search_input.remove(self.search_cursor_position - 1);
            self.search_cursor_position -= 1;
        }
    }

    pub fn move_cursor_left(&mut self)
        ensures
            *final(self) == cursor_left(*old(self)),
    {
        if (self.popups == PopupMode::Search || self.popups == PopupMode::GotoOffset)
            && self.search_cursor_position > 0 {
            self.search_cursor_position -= 1;
        }
    }

    /// Moves the cursor of the input one byte to the right, up to the end
    /// of the text.
    pub fn move_cursor_right(&mut self)
        ensures
            *final(self) == cursor_right(*old(self)),
    {
        if (self.popups == PopupMode::Search || self.popups == PopupMode::GotoOffset)
            && self.search_cursor_position < self.search_input.as_str().as_bytes().len() {
            self.search_cursor_position += 1;
        }
    }
}

/// The position a hex move selects in `nodes`: the first of the smallest
/// candidates for `off`, or `cur` when there is none.
pub open spec fn deepest_or(nodes: Seq<NodeView>, off: int, cur: int) -> int {
    if exists|i: int| is_deepest_at(nodes, off, i) {
        choose|i: int| is_deepest_at(nodes, off, i)
    } else {
        cur
    }
}

/// The tree selection after it follows the hex cursor of `a`.
pub open spec fn synced_selection(a: App) -> int {
    match tree_view(a.tree) {
        None => a.tree_selected as int,
        Some(v) => deepest_or(
            flat(expand_path(v, a.hex_selected as int)),
            a.hex_selected as int,
            a.tree_selected as int,
        ),
    }
}

/// Only one position holds the first of the smallest candidates.
pub proof fn lemma_deepest_unique(nodes: Seq<NodeView>, off: int, i: int, j: int)
    requires
        is_deepest_at(nodes, off, i),
        is_deepest_at(nodes, off, j),
    ensures
        i == j,
{
    if i < j {
        assert(candidate(nodes[i], off));
    } else if j < i {
        assert(candidate(nodes[j], off));
    }
}

/// Following the hex cursor selects `synced_selection`.
pub proof fn lemma_hex_synced_selection(a: App, b: App)
    requires
        hex_synced(a, b),
    ensures
        b.tree_selected == synced_selection(a),
{
    match tree_view(a.tree) {
        None => {},
        Some(v) => {
            let nodes = flat(expand_path(v, a.hex_selected as int));
            let off = a.hex_selected as int;
            if is_deepest_at(nodes, off, b.tree_selected as int) {
                let k = choose|i: int| is_deepest_at(nodes, off, i);
                lemma_deepest_unique(nodes, off, k, b.tree_selected as int);
            } else {
                assert(!exists|i: int| is_deepest_at(nodes, off, i)) by {
                    if exists|i: int| is_deepest_at(nodes, off, i) {
                        let k = choose|i: int| is_deepest_at(nodes, off, i);
                        assert(candidate(nodes[k], off));
                    }
                }
            }
        },
    }
}


/// The encoding of two texts one after the other is the two encodings one
/// after the other.
proof fn lemma_encode_concat(a: Seq<char>, b: Seq<char>)
    ensures
        encode_utf8(a + b) == encode_utf8(a) + encode_utf8(b),
    decreases a.len(),
{
    if a.len() == 0 {
        assert(a + b =~= b);
        assert(encode_utf8(a) + encode_utf8(b) =~= encode_utf8(b));
    } else {
        lemma_encode_concat(a.drop_first(), b);
        assert((a + b).drop_first() =~= a.drop_first() + b);
        assert((a + b)[0] == a[0]);
        let e0 = vstd::utf8::encode_scalar(a[0] as u32);
        assert(e0 + (encode_utf8(a.drop_first()) + encode_utf8(b)) =~= (e0 + encode_utf8(a.drop_first()))
            + encode_utf8(b));
    }
}

/// In the encoding of two texts one after the other, the end of the first
/// is a character boundary.
proof fn lemma_encode_boundary(a: Seq<char>, b: Seq<char>)
    ensures
        is_char_boundary(encode_utf8(a + b), encode_utf8(a).len() as int),
    decreases a.len(),
{
    broadcast use vstd::utf8::encode_utf8_valid_utf8;

    lemma_encode_concat(a, b);
    if a.len() > 0 {
        let ab = a + b;
        let bytes = encode_utf8(ab);
        assert(ab[0] == a[0]);
        assert(ab.drop_first() =~= a.drop_first() + b);
        vstd::utf8::encode_utf8_first_scalar(ab);
        lemma_encode_boundary(a.drop_first(), b);
        lemma_encode_concat(a.drop_first(), b);
        let l = vstd::utf8::length_of_first_scalar(bytes);
        assert(vstd::utf8::pop_first_scalar(bytes) =~= encode_utf8(a.drop_first() + b));
        assert(encode_utf8(a).len() - l == encode_utf8(a.drop_first()).len());
    }
}

/// After a character is typed at a boundary, the character before the
/// cursor can be deleted (`delete_char` may be called); deleting it then
/// gives back the text and the cursor as they were.
pub proof fn law_delete_undoes_typing(a: App, b: App, d: App, c: char)
    requires
        in_text_popup(a.popups),
        char_entry_ok(a),
        char_entered(a, b, c),
    ensures
        in_text_popup(b.popups),
        b.search_cursor_position > 0,
        char_deletion_ok(b),
        char_deleted(b, d) ==> d.search_input@ == a.search_input@ && d == (App {
            search_input: d.search_input,
            ..a
        }),
{
    broadcast use vstd::utf8::encode_utf8_valid_utf8;

    let s = a.search_input@;
    let bytes = encode_utf8(s);
    let p = a.search_cursor_position as int;
    let left = decode_utf8(bytes.take(p));
    let right = decode_utf8(bytes.skip(p));
    assert(bytes.take(p) =~= bytes.subrange(0, p));
    assert(bytes.skip(p) =~= bytes.subrange(p, bytes.len() as int));
    vstd::utf8::valid_utf8_split(bytes, p);
    vstd::utf8::decode_utf8_split(bytes, p);
    vstd::utf8::encode_utf8_decode_utf8(s);
    vstd::utf8::decode_utf8_encode_utf8(bytes.take(p));
    vstd::utf8::decode_utf8_encode_utf8(bytes.skip(p));
    assert(s =~= left + right);
    let tail = seq![c] + right;
    assert(b.search_input@ =~= left + tail);
    lemma_encode_concat(left, tail);
    assert(tail[0] == c);
    assert(tail.drop_first() =~= right);
    let x = encode_utf8(tail);
    let nb = encode_utf8(b.search_input@);
    assert(nb == bytes.take(p) + x);
    assert(nb.take(p) =~= bytes.take(p));
    assert(nb.skip(p) =~= x);
    vstd::utf8::encode_utf8_decode_utf8(tail);
    assert(decode_utf8(x).drop_first() =~= right);
    lemma_encode_boundary(left, tail);
    assert(encode_utf8(left).len() == p);
    assert(x.len() > 0);
    if char_deleted(b, d) {
        assert(d.search_input@ =~= left + right);
    }
}

} // verus!
