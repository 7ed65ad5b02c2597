//! Zooming the view in on the CBOR found at the cursor, and out again.
use vstd::prelude::*;
use crate::app::{
    App,
    chunks_buildable,
    hex_scroll,
    hex_scroll_fits,
    rescanned,
    scan_showable,
    tree_of,
    tree_view,
};
use crate::cbor_parser::ParsedCbor;
use crate::scanner::{
    CborChunk,
    CborScanner,
    ChunkShape,
    ScanMode,
    all_shiftable,
    chunk_key,
    chunk_shapes,
    lemma_all_shiftable_index,
    lemma_shift_all_index,
    shift_all,
    shift_shape,
    shiftable,
    sort_by_key,
    spec_scan,
};
use crate::text::{decimal, hex_upper, push_decimal, push_hex_upper};
use crate::ui::notification::NotificationSeverity;

verus! {

/// A view that can zoom in on the data at its cursor and back out.
pub trait Zoomable {
    /// `zoom_in` can run.
    spec fn zoom_in_ready(&self) -> bool;

    /// `zoom_out` can run.
    spec fn zoom_out_ready(&self) -> bool;

    /// `zoom_toggle` can run.
    spec fn zoom_toggle_ready(&self) -> bool;

    fn zoom_in(&mut self)
        requires
            old(self).zoom_in_ready(),
    ;

    fn zoom_out(&mut self)
        requires
            old(self).zoom_out_ready(),
    ;

    fn zoom_toggle(&mut self)
        requires
            old(self).zoom_toggle_ready(),
    ;
}

/// The chunk moved `d` bytes further into the input.
pub open spec fn shift_chunk(c: ChunkShape, d: int) -> ChunkShape {
    ChunkShape { offset: c.offset + d, items: shift_all(c.items, d), score: c.score }
}

/// The chunk can be moved `d` bytes further without passing `usize::MAX`.
pub open spec fn chunk_shiftable(c: ChunkShape, d: int) -> bool {
    c.offset + d <= usize::MAX && all_shiftable(c.items, d)
}

/// Moves a chunk found in a tail of the input to where it lies in the
/// whole input, `offset` bytes further.
pub fn adjust_chunk_offset(chunk: &mut CborChunk, offset: usize)
    requires
        chunk_shiftable(old(chunk).shape(), offset as int),
    ensures
        final(chunk).shape() == shift_chunk(old(chunk).shape(), offset as int),
{
    let ghost old_items = ParsedCbor::shapes(chunk.items@);
    proof {
        crate::cbor_parser::lemma_shapes_index(chunk.items@);
        lemma_all_shiftable_index(old_items, offset as int);
        lemma_shift_all_index(old_items, offset as int);
    }
    chunk.offset = chunk.offset + offset;
    let n = chunk.items.len();
    let mut i: usize = 0;
    while i < n
        invariant
            n == chunk.items@.len(),
            old_items.len() == n,
            0 <= i <= n,
            forall|j: int| 0 <= j < i ==> (#[trigger] chunk.items@[j]).shape() == shift_shape(old_items[j], offset as int),
            forall|j: int| i <= j < n ==> (#[trigger] chunk.items@[j]).shape() == old_items[j],
            forall|j: int| 0 <= j < n ==> shiftable(#[trigger] old_items[j], offset as int),
            chunk.offset == old(chunk).offset + offset,
            chunk.score == old(chunk).score,
        decreases n - i,
    {
        CborScanner::adjust_ranges(&mut chunk.items[i], offset);
        i += 1;
    }
    proof {
        crate::cbor_parser::lemma_shapes_index(chunk.items@);
        assert(ParsedCbor::shapes(chunk.items@) =~= shift_all(old_items, offset as int));
    }
}

/// Moving an item does not change whether it can be shown.
pub proof fn lemma_buildable_shift(sh: crate::cbor_parser::ItemShape, d: int, depth: int)
    ensures
        crate::nodes::buildable(shift_shape(sh, d), depth) == crate::nodes::buildable(sh, depth),
    decreases sh, sh.children.len() + 1,
{
    lemma_shift_all_index(sh.children, d);
    let t = shift_shape(sh, d);
    assert(crate::nodes::pair_count(t) == crate::nodes::pair_count(sh));
    match sh.value {
        crate::value::CborValue::Array(_) => {
            lemma_items_buildable_shift(sh, d, sh.children.len() as int, depth + 1);
        },
        crate::value::CborValue::Mapping(_) => {
            lemma_pairs_buildable_shift(sh, d, crate::nodes::pair_count(sh), depth + 1);
        },
        crate::value::CborValue::Tag(_, _) => {
            if sh.children.len() > 0 {
                lemma_buildable_shift(sh.children[0], d, depth + 1);
            }
        },
        _ => {},
    }
}

proof fn lemma_items_buildable_shift(sh: crate::cbor_parser::ItemShape, d: int, n: int, dd: int)
    ensures
        crate::nodes::items_buildable(shift_shape(sh, d), n, dd) == crate::nodes::items_buildable(sh, n, dd),
    decreases sh, n,
{
    lemma_shift_all_index(sh.children, d);
    if 0 < n <= sh.children.len() {
        lemma_buildable_shift(sh.children[n - 1], d, dd);
        lemma_items_buildable_shift(sh, d, n - 1, dd);
    }
}

proof fn lemma_pairs_buildable_shift(sh: crate::cbor_parser::ItemShape, d: int, p: int, dd: int)
    ensures
        crate::nodes::pairs_buildable(shift_shape(sh, d), p, dd) == crate::nodes::pairs_buildable(sh, p, dd),
    decreases sh, p,
{
    lemma_shift_all_index(sh.children, d);
    if 0 < p && 2 * p <= sh.children.len() {
        lemma_buildable_shift(sh.children[2 * p - 1], d, dd);
        lemma_pairs_buildable_shift(sh, d, p - 1, dd);
    }
}

/// What zooming in at the cursor of `a` finds: the last chunk of a
/// `Single` scan of the bytes from the cursor on, if any.
pub open spec fn zoom_found(a: App) -> Seq<ChunkShape> {
    spec_scan(a.raw_bytes@.subrange(a.hex_selected as int, a.raw_bytes@.len() as int), ScanMode::Single).0
}

/// The message shown after zooming in at `sel` on a chunk at `co`.
pub open spec fn zoom_message(co: int, sel: int) -> Seq<char> {
    if co != sel {
        "Zoomed in at offset 0x"@ + hex_upper(co as nat) + " (skipped "@ + decimal((co - sel) as nat)
            + " bytes of garbage)"@
    } else {
        "Zoomed in at offset 0x"@ + hex_upper(co as nat)
    }
}

/// What zooming in does to `a`, giving `b`: only the run of CBOR items
/// that starts at the cursor, or the first one after it, is shown, and a
/// notification says how many bytes were skipped; or, where none is found,
/// only a notification says so.
pub open spec fn zoomed_in(a: App, b: App) -> bool {
    let cs = zoom_found(a);
    let sel = a.hex_selected as int;
    if cs.len() > 0 {
        let c = shift_chunk(cs.last(), sel);
        &&& chunk_shapes(b.chunks@) == seq![c]
        &&& tree_view(b.tree) == tree_of(
            seq![c],
            a.scan_mode,
            a.sort_mode,
            a.raw_bytes@.len() as int,
        )
        &&& b.notification matches Some(n) && n.message@ == zoom_message(c.offset, sel)
            && n.severity == (if c.offset != sel {
            NotificationSeverity::Warning
        } else {
            NotificationSeverity::Info
        }) && n.duration_secs == 5
        &&& b == (App {
            chunks: b.chunks,
            tree: b.tree,
            is_zoomed: true,
            tree_selected: 0,
            tree_offset: 0,
            hex_selected: c.offset as usize,
            hex_offset: hex_scroll(
                c.offset,
                a.hex_offset as int,
                a.visible_hex_height as int,
            ) as usize,
            notification: b.notification,
            ..a
        })
        &&& b.wf()
    } else {
        &&& b.notification matches Some(n) && n.message@
            == "No valid CBOR sequence found starting from cursor"@ && n.severity
            == NotificationSeverity::Error && n.duration_secs == 5
        &&& b == (App { notification: b.notification, ..a })
    }
}

/// What zooming out does to `a`, giving `b`: every run of CBOR items in the
/// file, found by an `Auto` scan, is shown again.
pub open spec fn zoomed_out(a: App, b: App) -> bool {
    &&& rescanned(
        App { is_zoomed: false, scan_mode: ScanMode::Auto, ..a },
        App { notification: a.notification, ..b },
    )
    &&& b.notification matches Some(n) && n.message@ == "Zoomed out to full file"@
        && n.severity == NotificationSeverity::Info && n.duration_secs == 5
}

impl Zoomable for App {
    /// The cursor lies within the bytes, the scan from it has its scores
    /// fit in `usize`, and the chunk it finds can be moved to where it lies,
    /// shown, and scrolled to.
    open spec fn zoom_in_ready(&self) -> bool {
        let cs = zoom_found(*self);
        &&& self.hex_selected <= self.raw_bytes@.len()
        &&& spec_scan(
            self.raw_bytes@.subrange(self.hex_selected as int, self.raw_bytes@.len() as int),
            ScanMode::Single,
        ).1
        &&& cs.len() > 0 ==> {
            &&& chunk_shiftable(cs.last(), self.hex_selected as int)
            &&& chunks_buildable(seq![shift_chunk(cs.last(), self.hex_selected as int)])
            &&& hex_scroll_fits(
                cs.last().offset + self.hex_selected,
                self.hex_offset as int,
                self.visible_hex_height as int,
            )
        }
    }

    open spec fn zoom_out_ready(&self) -> bool {
        scan_showable(self.raw_bytes@, ScanMode::Auto)
    }

    open spec fn zoom_toggle_ready(&self) -> bool {
        if self.is_zoomed {
            self.zoom_out_ready()
        } else {
            self.zoom_in_ready()
        }
    }

    /// Shows only the run of CBOR items that starts at the cursor, or the
    /// first one after it, and says how many bytes were skipped; or says
    /// that none was found.
    fn zoom_in(&mut self)
        ensures
            zoomed_in(*old(self), *final(self)),
    {
        let offset = self.hex_selected;
        let ghost cs = zoom_found(*self);
        let mut chunks = {
            let tail = vstd::slice::slice_subrange(self.raw_bytes.as_slice(), offset, self.raw_bytes.len());
            let scanner = CborScanner::new(tail);
            scanner.scan_for_cbor_sequences(ScanMode::Single)
        };
        proof {
            assert(chunk_shapes(chunks@) == cs);
        }
        match chunks.pop() {
            Some(chunk) => {
                let mut chunk = chunk;
                proof {
                    assert(chunk.shape() == cs.last());
                }
                adjust_chunk_offset(&mut chunk, offset);
                let chunk_offset = chunk.offset;
                let mut v: Vec<CborChunk> = Vec::new();
                v.push(chunk);
                proof {
                    let c = shift_chunk(cs.last(), offset as int);
                    assert(chunk_shapes(v@) =~= seq![c]);
                    let key = chunk_key(self.sort_mode == crate::app::SortMode::Score);
                    assert(seq![c].drop_last() =~= Seq::<ChunkShape>::empty());
                    assert(sort_by_key(Seq::<ChunkShape>::empty(), key) == Seq::<ChunkShape>::empty());
                    assert(Seq::<ChunkShape>::empty().push(c) =~= seq![c]);
                    assert(sort_by_key(seq![c], key) == seq![c]);
                }
                self.chunks = v;
                self.is_zoomed = true;
                self.rebuild_tree();
                self.tree_selected = 0;
                self.tree_offset = 0;
                self.hex_selected = chunk_offset;
                self.adjust_hex_scroll();
                let mut msg = String::new();
                msg.push_str("Zoomed in at offset 0x");
                push_hex_upper(&mut msg, chunk_offset as u128);
                proof {
                    assert(Seq::<char>::empty() + "Zoomed in at offset 0x"@ =~= "Zoomed in at offset 0x"@);
                }
                let severity = if chunk_offset != offset {
                    msg.push_str(" (skipped ");
                    push_decimal(&mut msg, (chunk_offset - offset) as u128);
                    msg.push_str(" bytes of garbage)");
                    NotificationSeverity::Warning
                } else {
                    NotificationSeverity::Info
                };
                proof {
                    assert(msg@ =~= zoom_message(chunk_offset as int, offset as int));
                }
                self.set_notification(msg, severity, 5);
            },
            None => {
                self.set_notification(
                    "No valid CBOR sequence found starting from cursor".to_owned(),
                    NotificationSeverity::Error,
                    5,
                );
            },
        }
    }

    /// Shows every run of CBOR items in the file again, found by an `Auto`
    /// scan.
    fn zoom_out(&mut self)
        ensures
            zoomed_out(*old(self), *final(self)),
    {
        self.is_zoomed = false;
        self.scan_mode = ScanMode::Auto;
        self.rescan_chunks();
        self.set_notification("Zoomed out to full file".to_owned(), NotificationSeverity::Info, 5);
    }

    fn zoom_toggle(&mut self)
        ensures
            if old(self).is_zoomed {
                zoomed_out(*old(self), *final(self))
            } else {
                zoomed_in(*old(self), *final(self))
            },
    {
        if self.is_zoomed {
            self.zoom_out();
        } else {
            self.zoom_in();
        }
    }
}


/// Zooming in and then out shows the whole file again, as an `Auto` scan
/// finds it, sorted as before; the data is untouched.
pub proof fn law_zoom_in_then_out_shows_the_whole_file(a: App, b: App, c: App)
    requires
        zoomed_in(a, b),
        zoomed_out(b, c),
    ensures
        c.raw_bytes@ == a.raw_bytes@,
        !c.is_zoomed,
        c.scan_mode == ScanMode::Auto,
        c.sort_mode == a.sort_mode,
        chunk_shapes(c.chunks@) == sort_by_key(
            spec_scan(a.raw_bytes@, ScanMode::Auto).0,
            chunk_key(a.sort_mode == crate::app::SortMode::Score),
        ),
{
}

} // verus!
