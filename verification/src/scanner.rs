//! Scanning arbitrary bytes for runs of CBOR items.
//!
//! Every position is tried as the start of an item. In `Auto` mode an item
//! is kept when it is a container, a text or byte string of a plausible
//! length, or when it starts the input or follows the previous item
//! directly. Adjacent items form a chunk; each chunk is scored, weak chunks
//! (below the threshold) are dropped, and the rest are sorted by score.
//! `Single` mode keeps the first run of items only and applies no heuristic.
use vstd::prelude::*;
use vstd::utf8::encode_utf8;
use crate::value::CborValue;
use crate::text::str_chars;
use crate::cbor_parser::{
    CborParser, ParsedCbor, ItemShape, ItemOutcome, spec_item, shape_within, laid_out,
    lemma_laid_out_le, lemma_shapes_index,
};

verus! {

// Scoring constants for the detection heuristic: nested containers with
// several children score high, maps with string keys highest.
pub const SCORE_MAP_BASE: usize = 20;
pub const SCORE_MAP_STRING_KEY_BONUS: usize = 100;
pub const SCORE_MAP_OTHER_KEY_BONUS: usize = 20;
pub const SCORE_ARRAY_BASE: usize = 10;
pub const SCORE_TAG_BASE: usize = 5;
pub const SCORE_TEXT_BASE: usize = 5;
pub const SCORE_TEXT_PRINTABLE_BONUS: usize = 15;
pub const SCORE_PRIMITIVE_BASE: usize = 5;
pub const SCORE_NESTING_BONUS: usize = 5;

pub const SCORE_THRESHOLD: usize = 30;

pub const MAX_TEXT_CHUNK_SIZE: usize = 128;
pub const MAX_BYTES_CHUNK_SIZE: usize = 128;

/// What `char::is_alphanumeric` answers for a character.
pub uninterp spec fn char_is_alphanumeric(c: char) -> bool;

/// A character with Unicode's White_Space property: tab, line feed,
/// vertical tab, form feed, carriage return, space, next line, no-break
/// space, ogham space mark, the spaces from en quad to hair space, line
/// and paragraph separators, narrow no-break space, medium mathematical
/// space and ideographic space.
pub open spec fn char_is_whitespace(c: char) -> bool {
    ||| '\u{9}' <= c <= '\u{d}'
    ||| c == ' '
    ||| c == '\u{85}'
    ||| c == '\u{a0}'
    ||| c == '\u{1680}'
    ||| '\u{2000}' <= c <= '\u{200a}'
    ||| c == '\u{2028}'
    ||| c == '\u{2029}'
    ||| c == '\u{202f}'
    ||| c == '\u{205f}'
    ||| c == '\u{3000}'
}

/// `char::is_alphanumeric`: the Unicode Alphabetic or Numeric property.
#[verifier::external_body]
fn is_alphanumeric(c: char) -> (r: bool)
    ensures
        r == char_is_alphanumeric(c),
{
    c.is_alphanumeric()
}

/// Whether the character has Unicode's White_Space property, as
/// `char::is_whitespace` answers: one of the 25 code points of
/// `char_is_whitespace`.
pub(crate) fn is_whitespace(c: char) -> (r: bool)
    ensures
        r == char_is_whitespace(c),
{
    ('\u{9}' <= c && c <= '\u{d}') || c == ' ' || c == '\u{85}' || c == '\u{a0}' || c == '\u{1680}' || (
    '\u{2000}' <= c && c <= '\u{200a}') || c == '\u{2028}' || c == '\u{2029}' || c == '\u{202f}' || c
        == '\u{205f}' || c == '\u{3000}'
}

/// ASCII punctuation: the graphic ASCII characters that are neither letters
/// nor digits.
pub open spec fn is_ascii_punctuation(c: char) -> bool {
    ('!' <= c <= '/') || (':' <= c <= '@') || ('[' <= c <= '`') || ('{' <= c <= '~')
}

fn ascii_punctuation(c: char) -> (r: bool)
    ensures
        r == is_ascii_punctuation(c),
{
    ('!' <= c && c <= '/') || (':' <= c && c <= '@') || ('[' <= c && c <= '`') || ('{' <= c
        && c <= '~')
}

pub open spec fn printable_char(c: char) -> bool {
    char_is_alphanumeric(c) || is_ascii_punctuation(c) || char_is_whitespace(c)
}

/// A text counts as printable when every character is a letter or digit,
/// ASCII punctuation, or whitespace.
pub open spec fn printable_text(s: Seq<char>) -> bool {
    forall|i: int| 0 <= i < s.len() ==> #[trigger] printable_char(s[i])
}

/// The bonus of a map for its keys: more for text keys.
pub open spec fn key_bonus(m: Seq<(CborValue, CborValue)>) -> int
    decreases m.len(),
{
    if m.len() == 0 {
        0
    } else {
        key_bonus(m.drop_last()) + if m.last().0 is Text {
            SCORE_MAP_STRING_KEY_BONUS as int
        } else {
            SCORE_MAP_OTHER_KEY_BONUS as int
        }
    }
}

/// The score of a value alone, without its nested items.
pub open spec fn base_score(v: CborValue) -> int {
    match v {
        CborValue::Mapping(m) => SCORE_MAP_BASE + key_bonus(m@),
        CborValue::Array(_) => SCORE_ARRAY_BASE as int,
        CborValue::Tag(_, _) => SCORE_TAG_BASE as int,
        CborValue::Text(s) => SCORE_TEXT_BASE + if printable_text(s@) {
            SCORE_TEXT_PRINTABLE_BONUS as int
        } else {
            0
        },
        CborValue::Bytes(_) => SCORE_TEXT_BASE as int,
        _ => SCORE_PRIMITIVE_BASE as int,
    }
}

/// The score of an item: its own score, those of its nested items, and a
/// bonus when it is itself nested.
pub open spec fn item_score(sh: ItemShape, nested: bool) -> int
    decreases sh,
{
    base_score(sh.value) + children_score(sh.children) + if nested {
        SCORE_NESTING_BONUS as int
    } else {
        0
    }
}

/// The sum of the scores of nested items.
pub open spec fn children_score(cs: Seq<ItemShape>) -> int
    decreases cs,
{
    if cs.len() == 0 {
        0
    } else {
        children_score(cs.drop_last()) + item_score(cs.last(), true)
    }
}

/// The sum of the scores of the top-level items of a chunk.
pub open spec fn items_score(items: Seq<ItemShape>) -> int
    decreases items.len(),
{
    if items.len() == 0 {
        0
    } else {
        items_score(items.drop_last()) + item_score(items.last(), false)
    }
}

pub proof fn lemma_key_bonus_nonneg(m: Seq<(CborValue, CborValue)>)
    ensures
        key_bonus(m) >= 0,
    decreases m.len(),
{
    if m.len() > 0 {
        lemma_key_bonus_nonneg(m.drop_last());
    }
}

pub proof fn lemma_base_nonneg(v: CborValue)
    ensures
        base_score(v) >= 5,
{
    if let CborValue::Mapping(m) = v {
        lemma_key_bonus_nonneg(m@);
    }
}

pub proof fn lemma_score_positive(sh: ItemShape, nested: bool)
    ensures
        item_score(sh, nested) >= 5,
        children_score(sh.children) >= 0,
    decreases sh,
{
    lemma_children_score_nonneg(sh.children);
    if let CborValue::Mapping(m) = sh.value {
        lemma_key_bonus_nonneg(m@);
    }
}

pub proof fn lemma_children_score_nonneg(cs: Seq<ItemShape>)
    ensures
        children_score(cs) >= 0,
    decreases cs,
{
    if cs.len() > 0 {
        lemma_children_score_nonneg(cs.drop_last());
        lemma_score_positive(cs.last(), true);
    }
}

pub proof fn lemma_items_score_nonneg(items: Seq<ItemShape>)
    ensures
        items_score(items) >= 0,
    decreases items.len(),
{
    if items.len() > 0 {
        lemma_items_score_nonneg(items.drop_last());
        lemma_score_positive(items.last(), false);
    }
}

/// An item moved `d` bytes further into the input, with everything under it.
pub open spec fn shift_shape(sh: ItemShape, d: int) -> ItemShape
    decreases sh,
{
    ItemShape {
        value: sh.value,
        start: sh.start + d,
        end: sh.end + d,
        children: shift_all(sh.children, d),
    }
}

pub open spec fn shift_all(cs: Seq<ItemShape>, d: int) -> Seq<ItemShape>
    decreases cs,
{
    if cs.len() == 0 {
        seq![]
    } else {
        shift_all(cs.drop_last(), d).push(shift_shape(cs.last(), d))
    }
}

/// Every range in the item stays within `usize` when moved by `d`.
pub open spec fn shiftable(sh: ItemShape, d: int) -> bool
    decreases sh,
{
    &&& 0 <= sh.start + d
    &&& sh.start + d <= usize::MAX
    &&& 0 <= sh.end + d
    &&& sh.end + d <= usize::MAX
    &&& all_shiftable(sh.children, d)
}

pub open spec fn all_shiftable(cs: Seq<ItemShape>, d: int) -> bool
    decreases cs,
{
    if cs.len() == 0 {
        true
    } else {
        all_shiftable(cs.drop_last(), d) && shiftable(cs.last(), d)
    }
}

pub proof fn lemma_shift_all_index(cs: Seq<ItemShape>, d: int)
    ensures
        shift_all(cs, d).len() == cs.len(),
        forall|i: int| 0 <= i < cs.len() ==> #[trigger] shift_all(cs, d)[i] == shift_shape(cs[i], d),
    decreases cs.len(),
{
    if cs.len() > 0 {
        lemma_shift_all_index(cs.drop_last(), d);
    }
}

pub proof fn lemma_all_shiftable_index(cs: Seq<ItemShape>, d: int)
    ensures
        all_shiftable(cs, d) <==> forall|i: int| 0 <= i < cs.len() ==> #[trigger] shiftable(cs[i], d),
    decreases cs.len(),
{
    reveal_with_fuel(all_shiftable, 2);
    if cs.len() > 0 {
        let p = cs.drop_last();
        lemma_all_shiftable_index(p, d);
        assert(all_shiftable(cs, d) == (all_shiftable(p, d) && shiftable(cs.last(), d)));
        if forall|i: int| 0 <= i < cs.len() ==> #[trigger] shiftable(cs[i], d) {
            assert forall|i: int| 0 <= i < p.len() implies #[trigger] shiftable(p[i], d) by {
                assert(p[i] == cs[i]);
            }
        }
        if all_shiftable(cs, d) {
            assert forall|i: int| 0 <= i < cs.len() implies #[trigger] shiftable(cs[i], d) by {
                if i < cs.len() - 1 {
                    assert(p[i] == cs[i]);
                }
            }
        }
    }
}

/// Moving an item by `a` and then by `b` moves it by `a + b`; and when
/// its ranges lie within `usize` and can be moved by `a + b`, each of the
/// two moves can be made.
pub proof fn law_shifts_compose(sh: ItemShape, a: int, b: int)
    requires
        0 <= a,
        0 <= b,
    ensures
        shift_shape(shift_shape(sh, a), b) == shift_shape(sh, a + b),
        shiftable(sh, 0) && shiftable(sh, a + b) ==> shiftable(sh, a) && shiftable(shift_shape(sh, a), b),
    decreases sh,
{
    reveal_with_fuel(shiftable, 2);
    let cs = sh.children;
    lemma_shift_all_index(cs, a);
    lemma_shift_all_index(shift_all(cs, a), b);
    lemma_shift_all_index(cs, a + b);
    lemma_all_shiftable_index(cs, 0);
    lemma_all_shiftable_index(cs, a);
    lemma_all_shiftable_index(cs, a + b);
    lemma_all_shiftable_index(shift_all(cs, a), b);
    assert forall|i: int| 0 <= i < cs.len() implies #[trigger] shift_all(shift_all(cs, a), b)[i] == shift_all(cs, a
        + b)[i] by {
        law_shifts_compose(cs[i], a, b);
    }
    if shiftable(sh, 0) && shiftable(sh, a + b) {
        assert forall|i: int| 0 <= i < cs.len() implies #[trigger] shiftable(cs[i], a) by {
            assert(shiftable(cs[i], 0) && shiftable(cs[i], a + b));
            law_shifts_compose(cs[i], a, b);
        }
        assert forall|i: int| 0 <= i < cs.len() implies #[trigger] shiftable(shift_all(cs, a)[i], b) by {
            assert(shiftable(cs[i], 0) && shiftable(cs[i], a + b));
            law_shifts_compose(cs[i], a, b);
        }
    }
    assert(shift_all(shift_all(cs, a), b) =~= shift_all(cs, a + b));
}

} // verus!

verus! {

/// Every item of a run laid out within `lo..hi` lies within `lo..hi`.
pub proof fn lemma_laid_out_each(cs: Seq<ItemShape>, lo: int, hi: int)
    requires
        laid_out(cs, lo, hi),
    ensures
        forall|i: int| 0 <= i < cs.len() ==> #[trigger] shape_within(cs[i], lo, hi),
    decreases cs.len(),
{
    reveal_with_fuel(laid_out, 2);
    if cs.len() > 0 {
        let rest = cs.drop_first();
        lemma_laid_out_each(rest, cs[0].end, hi);
        assert forall|i: int| 0 <= i < cs.len() implies #[trigger] shape_within(cs[i], lo, hi) by {
            reveal_with_fuel(shape_within, 2);
            if i > 0 {
                assert(cs[i] == rest[i - 1]);
                assert(shape_within(rest[i - 1], cs[0].end, hi));
            }
        }
    }
}

/// An item that lies within `lo..hi` can be moved by `d` when `lo..hi`
/// moved by `d` stays within `usize`.
pub proof fn lemma_within_shiftable(sh: ItemShape, lo: int, hi: int, d: int)
    requires
        shape_within(sh, lo, hi),
        0 <= lo + d,
        hi + d <= usize::MAX,
    ensures
        shiftable(sh, d),
    decreases sh,
{
    reveal_with_fuel(shape_within, 2);
    reveal_with_fuel(shiftable, 2);
    let cs = sh.children;
    lemma_laid_out_each(cs, sh.start, sh.end);
    assert forall|i: int| 0 <= i < cs.len() implies #[trigger] shiftable(cs[i], d) by {
        lemma_within_shiftable(cs[i], sh.start, sh.end, d);
    }
    lemma_all_shiftable_index(cs, d);
}

/// The score of the nested items grows with every further item.
pub proof fn lemma_children_split(cs: Seq<ItemShape>, i: int)
    requires
        0 <= i <= cs.len(),
    ensures
        children_score(cs.take(i)) <= children_score(cs),
    decreases cs.len(),
{
    if i < cs.len() {
        lemma_children_split(cs.drop_last(), i);
        assert(cs.drop_last().take(i) =~= cs.take(i));
        lemma_score_positive(cs.last(), true);
    } else {
        assert(cs.take(i) =~= cs);
    }
}

/// The score of a run grows with every further item.
pub proof fn lemma_items_split(items: Seq<ItemShape>, i: int)
    requires
        0 <= i <= items.len(),
    ensures
        items_score(items.take(i)) <= items_score(items),
    decreases items.len(),
{
    if i < items.len() {
        lemma_items_split(items.drop_last(), i);
        assert(items.drop_last().take(i) =~= items.take(i));
        lemma_score_positive(items.last(), false);
    } else {
        assert(items.take(i) =~= items);
    }
}

/// The key bonus grows with every further key.
pub proof fn lemma_key_bonus_split(m: Seq<(CborValue, CborValue)>, i: int)
    requires
        0 <= i <= m.len(),
    ensures
        key_bonus(m.take(i)) <= key_bonus(m),
    decreases m.len(),
{
    if i < m.len() {
        lemma_key_bonus_split(m.drop_last(), i);
        assert(m.drop_last().take(i) =~= m.take(i));
    } else {
        assert(m.take(i) =~= m);
    }
}

pub struct CborScanner<'a> {
    input: &'a [u8],
}

impl<'a> CborScanner<'a> {
    /// The bytes being scanned.
    pub closed spec fn input_seq(&self) -> Seq<u8> {
        self.input@
    }

    pub fn new(input: &'a [u8]) -> (r: Self)
        ensures
            r.input_seq() == input@,
    {
        Self { input }
    }

    /// The score of an item (see the module documentation for the weights).
    pub fn calculate_score(&self, item: &ParsedCbor) -> (r: usize)
        requires
            item_score(item.shape(), false) <= usize::MAX,
        ensures
            r == item_score(item.shape(), false),
    {
        proof {
            lemma_score_positive(item.shape(), false);
        }
        match Self::score_checked(item, false) {
            Some(s) => s,
            None => 0,
        }
    }

    /// The score of an item, or `None` when it does not fit in `usize`.
    pub fn score_checked(item: &ParsedCbor, nested: bool) -> (r: Option<usize>)
        ensures
            item_score(item.shape(), nested) <= usize::MAX ==> r == Some(
                item_score(item.shape(), nested) as usize,
            ),
            item_score(item.shape(), nested) > usize::MAX ==> r is None,
        decreases *item,
    {
        let ghost sh = item.shape();
        let ghost kids = ParsedCbor::shapes(item.children@);
        proof {
            lemma_shapes_index(item.children@);
            lemma_children_score_nonneg(kids);
            lemma_score_positive(sh, nested);
            lemma_base_nonneg(item.value);
            assert(kids.take(0) =~= Seq::<ItemShape>::empty());
        }
        let base = match Self::base_score_checked(&item.value) {
            Some(b) => b,
            None => {
                return None;
            },
        };
        let mut score: usize = base;
        let n = item.children.len();
        let mut i: usize = 0;
        while i < n
            invariant
                n == item.children@.len(),
                kids == ParsedCbor::shapes(item.children@),
                kids.len() == n,
                forall|j: int| 0 <= j < n ==> #[trigger] kids[j] == item.children@[j].shape(),
                0 <= i <= n,
                score == base_score(item.value) + children_score(kids.take(i as int)),
            decreases n - i,
        {
            proof {
                assert(kids.take(i + 1).drop_last() =~= kids.take(i as int));
                assert(decreases_to!(item.children => item.children@));
            }
            let child = Self::score_checked(&item.children[i], true);
            proof {
                lemma_score_positive(kids[i as int], true);
                lemma_children_score_nonneg(kids.take(i as int));
                assert(children_score(kids.take(i + 1)) == children_score(kids.take(i as int))
                    + item_score(kids[i as int], true));
            }
            match child {
                Some(c) => {
                    match score.checked_add(c) {
                        Some(t) => {
                            score = t;
                        },
                        None => {
                            proof {
                                lemma_children_split(kids, i as int + 1);
                                lemma_base_nonneg(item.value);
                            }
                            return None;
                        },
                    }
                },
                None => {
                    proof {
                        lemma_children_split(kids, i as int + 1);
                    }
                    return None;
                },
            }
            i += 1;
        }
        proof {
            assert(kids.take(n as int) =~= kids);
        }
        if nested {
            score.checked_add(SCORE_NESTING_BONUS)
        } else {
            Some(score)
        }
    }

    /// The score of a value alone, or `None` when it does not fit.
    fn base_score_checked(v: &CborValue) -> (r: Option<usize>)
        ensures
            base_score(*v) <= usize::MAX ==> r == Some(base_score(*v) as usize),
            base_score(*v) > usize::MAX ==> r is None,
    {
        match v {
            CborValue::Mapping(m) => {
                let mut map_score: usize = SCORE_MAP_BASE;
                assert(*v == CborValue::Mapping(*m));
                proof {
                    assert(m@.take(0) =~= Seq::<(CborValue, CborValue)>::empty());
                    lemma_key_bonus_nonneg(m@);
                }
                let n = m.len();
                let mut i: usize = 0;
                while i < n
                    invariant
                        n == m@.len(),
                        *v == CborValue::Mapping(*m),
                        0 <= i <= n,
                        map_score == SCORE_MAP_BASE + key_bonus(m@.take(i as int)),
                    decreases n - i,
                {
                    proof {
                        assert(m@.take(i + 1).drop_last() =~= m@.take(i as int));
                    }
                    let bonus = if let CborValue::Text(_) = &m[i].0 {
                        SCORE_MAP_STRING_KEY_BONUS
                    } else {
                        SCORE_MAP_OTHER_KEY_BONUS
                    };
                    proof {
                        assert(key_bonus(m@.take(i + 1)) == key_bonus(m@.take(i as int)) + bonus);
                        lemma_key_bonus_nonneg(m@.take(i as int));
                    }
                    match map_score.checked_add(bonus) {
                        Some(t) => {
                            map_score = t;
                        },
                        None => {
                            proof {
                                lemma_key_bonus_split(m@, i as int + 1);
                            }
                            return None;
                        },
                    }
                    i += 1;
                }
                proof {
                    assert(m@.take(n as int) =~= m@);
                }
                Some(map_score)
            },
            CborValue::Array(_) => Some(SCORE_ARRAY_BASE),
            CborValue::Tag(_, _) => Some(SCORE_TAG_BASE),
            CborValue::Text(s) => {
                let chars = str_chars(s.as_str());
                let n = chars.len();
                let mut printable = true;
                let mut i: usize = 0;
                while i < n
                    invariant
                        n == chars@.len(),
                        chars@ == s@,
                        0 <= i <= n,
                        printable == (forall|j: int| 0 <= j < i ==> #[trigger] printable_char(chars@[j])),
                    decreases n - i,
                {
                    let c = chars[i];
                    let ok = is_alphanumeric(c) || ascii_punctuation(c) || is_whitespace(c);
                    assert(printable_char(chars@[i as int]) == ok);
                    if !ok {
                        printable = false;
                    }
                    i += 1;
                }
                if printable {
                    Some(SCORE_TEXT_BASE + SCORE_TEXT_PRINTABLE_BONUS)
                } else {
                    Some(SCORE_TEXT_BASE)
                }
            },
            CborValue::Bytes(_) => Some(SCORE_TEXT_BASE),
            _ => Some(SCORE_PRIMITIVE_BASE),
        }
    }

    /// Scans the input for runs of CBOR items (see the module documentation),
    /// when every chunk score fits in `usize`.
    pub fn scan_for_cbor_sequences(&self, mode: ScanMode) -> (r: Vec<CborChunk>)
        requires
            spec_scan(self.input_seq(), mode).1,
        ensures
            chunk_shapes(r@) == spec_scan(self.input_seq(), mode).0,
    {
        match self.try_scan_for_cbor_sequences(mode) {
            Some(v) => v,
            None => Vec::new(),
        }
    }

    /// Scans the input for runs of CBOR items (see the module documentation).
    /// Gives `None` exactly when a chunk score does not fit in `usize`.
    pub fn try_scan_for_cbor_sequences(&self, mode: ScanMode) -> (r: Option<Vec<CborChunk>>)
        ensures
            r is Some <==> spec_scan(self.input_seq(), mode).1,
            r matches Some(v) ==> chunk_shapes(v@) == spec_scan(self.input_seq(), mode).0,
    {
        let ghost input = self.input@;
        let ghost goal = scan_from(input, mode, 0, Seq::<ChunkShape>::empty(), true, Seq::<ItemShape>::empty(), 0);
        let mut chunks: Vec<CborChunk> = Vec::new();
        let mut current: Vec<ParsedCbor> = Vec::new();
        let mut current_offset: usize = 0;
        let mut pos: usize = 0;
        let mut done = false;
        let len = self.input.len();
        proof {
            assert(chunk_shapes(chunks@) =~= Seq::<ChunkShape>::empty());
            assert(ParsedCbor::shapes(current@) =~= Seq::<ItemShape>::empty());
        }
        while pos < len && !done
            invariant
                len == input.len(),
                input == self.input@,
                goal == scan_from(input, mode, 0, Seq::<ChunkShape>::empty(), true, Seq::<ItemShape>::empty(), 0),
                pos <= len,
                !done ==> scan_from(
                    input,
                    mode,
                    pos as int,
                    chunk_shapes(chunks@),
                    true,
                    ParsedCbor::shapes(current@),
                    current_offset as int,
                ) == goal,
                done ==> goal == (chunk_shapes(chunks@), true) && current@.len() == 0,
            decreases len - pos + if done {
                0int
            } else {
                1int
            },
        {
            let ghost cur_shapes = ParsedCbor::shapes(current@);
            let ghost chunks0 = chunk_shapes(chunks@);
            proof {
                lemma_shapes_index(current@);
            }
            let slice = &self.input[pos..len];
            proof {
                assert(slice@ =~= input.subrange(pos as int, len as int));
            }
            let mut parser = CborParser::new(slice);
            let parsed = parser.parse();
            let mut took = false;
            match parsed {
                Some(mut item) => {
                    let ghost sh = item.shape();
                    proof {
                        lemma_within_shiftable(sh, 0, (len - pos) as int, pos as int);
                    }
                    let item_len = item.range.end - item.range.start;
                    Self::adjust_ranges(&mut item, pos);
                    let ghost it = item.shape();
                    let accept_item = match mode {
                        ScanMode::Single => true,
                        ScanMode::Auto => {
                            let is_complex = match &item.value {
                                CborValue::Mapping(_) => true,
                                CborValue::Array(_) => true,
                                CborValue::Tag(_, _) => true,
                                _ => false,
                            };
                            let is_significant_simple = match &item.value {
                                CborValue::Text(s) => {
                                    let l = s.as_str().len();
                                    l > 2 && l < MAX_TEXT_CHUNK_SIZE
                                },
                                CborValue::Bytes(b) => b.len() > 2 && b.len() < MAX_BYTES_CHUNK_SIZE,
                                _ => false,
                            };
                            let is_adjacent = current.len() > 0 && current[current.len() - 1].range.end
                                == item.range.start;
                            let is_start = item.range.start == 0;
                            let is_anchored = is_start || is_adjacent;
                            is_complex || is_significant_simple || is_anchored
                        },
                    };
                    proof {
                        assert(accept_item == accepts(mode, it, cur_shapes));
                    }
                    if accept_item {
                        took = true;
                        let is_adjacent = current.len() > 0 && current[current.len() - 1].range.end
                            == item.range.start;
                        if !is_adjacent && current.len() > 0 {
                            let mut items: Vec<ParsedCbor> = Vec::new();
                            std::mem::swap(&mut items, &mut current);
                            if !self.finalize_chunk(&mut chunks, items, current_offset, mode) {
                                proof {
                                    let f = finalize(chunks0, true, cur_shapes, current_offset as int, mode);
                                    assert(item_at(input, pos as int) == Some(it));
                                    assert(pos < it.end);
                                    assert(!f.1);
                                    lemma_scan_unfit(input, mode, it.end, f.0, seq![it], it.start);
                                    assert(!goal.1);
                                }
                                return None;
                            }
                            current_offset = item.range.start;
                            if mode == ScanMode::Single {
                                done = true;
                            }
                        } else if current.len() == 0 {
                            current_offset = item.range.start;
                        }
                        if !done {
                            proof {
                                crate::cbor_parser::lemma_shapes_push(current@, item);
                            }
                            current.push(item);
                            pos += item_len;
                            proof {
                                assert(cur_shapes.len() == 0 ==> Seq::<ItemShape>::empty().push(it) =~= seq![it]);
                                assert(ParsedCbor::shapes(current@) =~= seq![it] || current@.len() > 1);
                            }
                        }
                    }
                },
                None => {},
            }
            if !took {
                if current.len() > 0 {
                    let mut items: Vec<ParsedCbor> = Vec::new();
                    std::mem::swap(&mut items, &mut current);
                    if !self.finalize_chunk(&mut chunks, items, current_offset, mode) {
                        proof {
                            let f = finalize(chunks0, true, cur_shapes, current_offset as int, mode);
                            assert(!f.1);
                            lemma_scan_unfit(input, mode, pos + 1, f.0, seq![], current_offset as int);
                            assert(!goal.1);
                        }
                        return None;
                    }
                    if mode == ScanMode::Single {
                        done = true;
                    }
                }
                if !done {
                    pos += 1;
                }
            }
        }
        if current.len() > 0 {
            let mut items: Vec<ParsedCbor> = Vec::new();
            std::mem::swap(&mut items, &mut current);
            if !self.finalize_chunk(&mut chunks, items, current_offset, mode) {
                return None;
            }
        }
        if mode == ScanMode::Auto {
            sort_chunks(&mut chunks, true);
        }
        Some(chunks)
    }

    /// Closes a run of items: scores it and keeps it as a chunk in `Single`
    /// mode or when the score reaches the threshold. Gives `false` when the
    /// score does not fit in `usize`.
    fn finalize_chunk(
        &self,
        chunks: &mut Vec<CborChunk>,
        items: Vec<ParsedCbor>,
        offset: usize,
        mode: ScanMode,
    ) -> (ok: bool)
        ensures
            ok == finalize(chunk_shapes(old(chunks)@), true, ParsedCbor::shapes(items@), offset as int, mode).1,
            ok ==> chunk_shapes(final(chunks)@) == finalize(
                chunk_shapes(old(chunks)@),
                true,
                ParsedCbor::shapes(items@),
                offset as int,
                mode,
            ).0,
    {
        let ghost shs = ParsedCbor::shapes(items@);
        proof {
            lemma_shapes_index(items@);
            lemma_items_score_nonneg(shs);
            assert(shs.take(0) =~= Seq::<ItemShape>::empty());
        }
        let mut score: usize = 0;
        let n = items.len();
        let mut i: usize = 0;
        while i < n
            invariant
                n == items@.len(),
                shs == ParsedCbor::shapes(items@),
                shs.len() == n,
                forall|j: int| 0 <= j < n ==> #[trigger] shs[j] == items@[j].shape(),
                0 <= i <= n,
                score == items_score(shs.take(i as int)),
            decreases n - i,
        {
            proof {
                assert(shs.take(i + 1).drop_last() =~= shs.take(i as int));
                lemma_score_positive(shs[i as int], false);
                lemma_items_split(shs, i as int + 1);
            }
            match Self::score_checked(&items[i], false) {
                Some(s) => {
                    match score.checked_add(s) {
                        Some(t) => {
                            score = t;
                        },
                        None => {
                            return false;
                        },
                    }
                },
                None => {
                    proof {
                        lemma_items_score_nonneg(shs.take(i as int));
                    }
                    return false;
                },
            }
            i += 1;
        }
        proof {
            assert(shs.take(n as int) =~= shs);
        }
        let keep = match mode {
            ScanMode::Single => true,
            ScanMode::Auto => score >= SCORE_THRESHOLD,
        };
        if keep {
            let ghost old_chunks = chunk_shapes(chunks@);
            chunks.push(CborChunk { offset, items, score });
            proof {
                assert(chunk_shapes(chunks@) =~= old_chunks.push(chunks@.last().shape()));
            }
        }
        true
    }

    /// Whether every range in the item stays within `usize` when moved by
    /// `offset`.
    pub fn is_shiftable(item: &ParsedCbor, offset: usize) -> (r: bool)
        ensures
            r == shiftable(item.shape(), offset as int),
        decreases item,
    {
        proof {
            reveal_with_fuel(shiftable, 2);
            lemma_shapes_index(item.children@);
            lemma_all_shiftable_index(ParsedCbor::shapes(item.children@), offset as int);
        }
        if item.range.start > usize::MAX - offset || item.range.end > usize::MAX - offset {
            return false;
        }
        let n = item.children.len();
        let mut i: usize = 0;
        while i < n
            invariant
                n == item.children@.len(),
                0 <= i <= n,
                forall|j: int| 0 <= j < i ==> shiftable(#[trigger] ParsedCbor::shapes(item.children@)[j], offset as int),
                ParsedCbor::shapes(item.children@).len() == n,
                forall|j: int| 0 <= j < n ==> #[trigger] ParsedCbor::shapes(item.children@)[j] == item.children@[j].shape(),
            decreases n - i,
        {
            proof {
                assert(decreases_to!(item.children => item.children@));
            }
            if !Self::is_shiftable(&item.children[i], offset) {
                proof {
                    let cs = ParsedCbor::shapes(item.children@);
                    lemma_all_shiftable_index(cs, offset as int);
                    assert(!shiftable(cs[i as int], offset as int));
                    assert(item.shape().children == cs);
                }
                return false;
            }
            i += 1;
        }
        true
    }


    /// Moves every range in the item, and in everything under it, `offset`
    /// bytes further.
    pub fn adjust_ranges(item: &mut ParsedCbor, offset: usize)
        requires
            shiftable(old(item).shape(), offset as int),
        ensures
            final(item).shape() == shift_shape(old(item).shape(), offset as int),
        decreases *old(item),
    {
        proof {
            reveal_with_fuel(shiftable, 2);
            let cs = ParsedCbor::shapes(item.children@);
            lemma_shapes_index(item.children@);
            lemma_all_shiftable_index(cs, offset as int);
            assert forall|j: int| 0 <= j < item.children@.len() implies shiftable(
                #[trigger] item.children@[j].shape(),
                offset as int,
            ) by {
                assert(cs[j] == item.children@[j].shape());
            }
        }
        item.range.start += offset;
        item.range.end += offset;
        let n = item.children.len();
        let mut i: usize = 0;
        while i < n
            invariant
                n == item.children@.len(),
                n == old(item).children@.len(),
                0 <= i <= n,
                item.value == old(item).value,
                item.range.start == old(item).range.start + offset,
                item.range.end == old(item).range.end + offset,
                forall|j: int| 0 <= j < i ==> #[trigger] item.children@[j].shape() == shift_shape(
                    old(item).children@[j].shape(),
                    offset as int,
                ),
                forall|j: int| i <= j < n ==> #[trigger] item.children@[j] == old(item).children@[j],
                forall|j: int| 0 <= j < n ==> shiftable(#[trigger] old(item).children@[j].shape(), offset as int),
            decreases n - i,
        {
            proof {
                lemma_shapes_index(old(item).children@);
                assert(ParsedCbor::shapes(old(item).children@)[i as int] == old(item).children@[i as int].shape());
            }
            proof {
                assert(decreases_to!(*old(item) => old(item).children));
                assert(decreases_to!(old(item).children => old(item).children@));
                assert(decreases_to!(old(item).children@ => old(item).children@[i as int]));
            }
            Self::adjust_ranges(&mut item.children[i], offset);
            i += 1;
        }
        proof {
            let olds = ParsedCbor::shapes(old(item).children@);
            let news = ParsedCbor::shapes(item.children@);
            lemma_shapes_index(old(item).children@);
            lemma_shapes_index(item.children@);
            lemma_shift_all_index(olds, offset as int);
            assert(news =~= shift_all(olds, offset as int));
        }
    }
}

} // verus!

verus! {

/// A chunk: a run of adjacent top-level items, with the offset of the first
/// and the sum of their scores.
#[derive(Debug)]
pub struct CborChunk {
    pub offset: usize,
    pub items: Vec<ParsedCbor>,
    pub score: usize,
}

/// The mathematical shape of a chunk.
pub struct ChunkShape {
    pub offset: int,
    pub items: Seq<ItemShape>,
    pub score: int,
}

impl CborChunk {
    pub open spec fn shape(&self) -> ChunkShape {
        ChunkShape {
            offset: self.offset as int,
            items: ParsedCbor::shapes(self.items@),
            score: self.score as int,
        }
    }
}

pub open spec fn chunk_shapes(cs: Seq<CborChunk>) -> Seq<ChunkShape> {
    cs.map_values(|c: CborChunk| c.shape())
}

#[derive(Debug, Clone, Copy, PartialEq, Eq, Structural)]
pub enum ScanMode {
    /// Stop after the first run of items; no heuristics.
    Single,
    /// Scan the whole input, with heuristics.
    Auto,
}

/// Inserts `x` into `s` after the last element whose key is at most that of
/// `x` (after the run of elements of larger key at the end of `s`).
pub open spec fn insert_by<T>(s: Seq<T>, x: T, key: spec_fn(T) -> int) -> Seq<T>
    decreases s.len(),
{
    if s.len() == 0 || key(s.last()) <= key(x) {
        s.push(x)
    } else {
        insert_by(s.drop_last(), x, key).push(s.last())
    }
}

/// Insertion sort by ascending key; elements of equal key keep their order.
pub open spec fn sort_by_key<T>(s: Seq<T>, key: spec_fn(T) -> int) -> Seq<T>
    decreases s.len(),
{
    if s.len() == 0 {
        s
    } else {
        insert_by(sort_by_key(s.drop_last(), key), s.last(), key)
    }
}

/// The keys of `s` never decrease.
pub open spec fn sorted_by<T>(s: Seq<T>, key: spec_fn(T) -> int) -> bool {
    forall|i: int, j: int| 0 <= i < j < s.len() ==> key(#[trigger] s[i]) <= key(#[trigger] s[j])
}

/// Inserting adds `x` and keeps every element of `s`.
proof fn lemma_insert_by_multiset<T>(s: Seq<T>, x: T, key: spec_fn(T) -> int)
    ensures
        insert_by(s, x, key).to_multiset() =~= s.to_multiset().insert(x),
    decreases s.len(),
{
    broadcast use vstd::seq_lib::to_multiset_build, vstd::multiset::group_multiset_axioms;

    if s.len() == 0 || key(s.last()) <= key(x) {
    } else {
        let d = s.drop_last();
        lemma_insert_by_multiset(d, x, key);
        assert(d.push(s.last()) =~= s);
    }
}

/// An element of an insertion is the inserted one or one of `s`.
proof fn lemma_insert_by_elements<T>(s: Seq<T>, x: T, key: spec_fn(T) -> int, i: int)
    requires
        0 <= i < insert_by(s, x, key).len(),
    ensures
        insert_by(s, x, key)[i] == x || s.contains(insert_by(s, x, key)[i]),
{
    broadcast use vstd::seq_lib::to_multiset_contains, vstd::multiset::group_multiset_axioms;

    let r = insert_by(s, x, key);
    lemma_insert_by_multiset(s, x, key);
    assert(r.contains(r[i]));
    assert(r.to_multiset().count(r[i]) > 0);
}

/// Inserting into a sorted sequence keeps it sorted.
proof fn lemma_insert_by_sorted<T>(s: Seq<T>, x: T, key: spec_fn(T) -> int)
    requires
        sorted_by(s, key),
    ensures
        sorted_by(insert_by(s, x, key), key),
        insert_by(s, x, key).len() == s.len() + 1,
    decreases s.len(),
{
    if s.len() == 0 || key(s.last()) <= key(x) {
        let r = s.push(x);
        assert forall|i: int, j: int| 0 <= i < j < r.len() implies key(#[trigger] r[i]) <= key(#[trigger] r[j]) by {
            if j == s.len() && i < s.len() - 1 {
                assert(key(s[i]) <= key(s[s.len() - 1]));
            }
        }
    } else {
        let d = s.drop_last();
        assert(sorted_by(d, key));
        lemma_insert_by_sorted(d, x, key);
        let t = insert_by(d, x, key);
        let r = t.push(s.last());
        assert forall|i: int, j: int| 0 <= i < j < r.len() implies key(#[trigger] r[i]) <= key(#[trigger] r[j]) by {
            if j == t.len() {
                lemma_insert_by_elements(d, x, key, i);
                if t[i] != x {
                    let k = choose|k: int| 0 <= k < d.len() && d[k] == t[i];
                    assert(key(s[k]) <= key(s[s.len() - 1]));
                }
            }
        }
    }
}

/// Sorting keeps exactly the elements it is given, each as often.
pub proof fn law_sort_keeps_elements<T>(s: Seq<T>, key: spec_fn(T) -> int)
    ensures
        sort_by_key(s, key).to_multiset() =~= s.to_multiset(),
    decreases s.len(),
{
    broadcast use vstd::seq_lib::to_multiset_build;

    if s.len() > 0 {
        let d = s.drop_last();
        law_sort_keeps_elements(d, key);
        lemma_insert_by_multiset(sort_by_key(d, key), s.last(), key);
        assert(d.push(s.last()) =~= s);
    }
}

/// Sorting puts the elements in order of their keys.
pub proof fn law_sort_orders_by_key<T>(s: Seq<T>, key: spec_fn(T) -> int)
    ensures
        sorted_by(sort_by_key(s, key), key),
        sort_by_key(s, key).len() == s.len(),
    decreases s.len(),
{
    if s.len() > 0 {
        law_sort_orders_by_key(s.drop_last(), key);
        lemma_insert_by_sorted(sort_by_key(s.drop_last(), key), s.last(), key);
    }
}

/// The score of nested items adds up over a split of the run.
proof fn lemma_children_score_concat(a: Seq<ItemShape>, b: Seq<ItemShape>)
    ensures
        children_score(a + b) == children_score(a) + children_score(b),
    decreases b.len(),
{
    if b.len() == 0 {
        assert(a + b =~= a);
    } else {
        lemma_children_score_concat(a, b.drop_last());
        assert((a + b).drop_last() =~= a + b.drop_last());
        assert((a + b).last() == b.last());
    }
}

/// A run of one item scores as that item, nested.
proof fn lemma_children_score_single(c: ItemShape)
    ensures
        children_score(seq![c]) == item_score(c, true),
{
    reveal_with_fuel(children_score, 2);
    assert(seq![c].drop_last() =~= Seq::<ItemShape>::empty());
    assert(seq![c].last() == c);
}

/// One more nested item, anywhere in a run, adds its score, which is at
/// least ten.
pub proof fn law_one_more_child_adds_its_score(cs: Seq<ItemShape>, j: int, c: ItemShape)
    requires
        0 <= j <= cs.len(),
    ensures
        children_score(cs.insert(j, c)) == children_score(cs) + item_score(c, true),
        item_score(c, true) >= 10,
{
    lemma_children_score_concat(cs.take(j), cs.skip(j));
    assert(cs.take(j) + cs.skip(j) =~= cs);
    lemma_children_score_concat(cs.take(j), seq![c]);
    lemma_children_score_concat(cs.take(j) + seq![c], cs.skip(j));
    assert(cs.take(j) + seq![c] + cs.skip(j) =~= cs.insert(j, c));
    lemma_children_score_single(c);
    lemma_score_positive(c, true);
    lemma_base_nonneg(c.value);
}

/// Replacing a nested item changes the run's score by the change in that
/// item's score.
pub proof fn law_replacing_a_child_changes_the_score_by_its_change(cs: Seq<ItemShape>, j: int, c: ItemShape)
    requires
        0 <= j < cs.len(),
    ensures
        children_score(cs.update(j, c)) == children_score(cs) - item_score(cs[j], true) + item_score(c, true),
{
    lemma_children_score_concat(cs.take(j), cs.skip(j + 1));
    lemma_children_score_concat(cs.take(j), seq![cs[j]]);
    lemma_children_score_concat(cs.take(j) + seq![cs[j]], cs.skip(j + 1));
    assert(cs.take(j) + seq![cs[j]] + cs.skip(j + 1) =~= cs);
    lemma_children_score_concat(cs.take(j), seq![c]);
    lemma_children_score_concat(cs.take(j) + seq![c], cs.skip(j + 1));
    assert(cs.take(j) + seq![c] + cs.skip(j + 1) =~= cs.update(j, c));
    lemma_children_score_single(c);
    lemma_children_score_single(cs[j]);
}

/// Giving an item one more nested item raises its score by at least ten,
/// and a nested item whose score grows by `d` raises the score of the item
/// holding it by `d`: more children, anywhere in a tree, score higher.
pub proof fn law_more_children_score_higher(sh: ItemShape, nested: bool, j: int, c: ItemShape)
    requires
        0 <= j <= sh.children.len(),
    ensures
        item_score(ItemShape { children: sh.children.insert(j, c), ..sh }, nested) >= item_score(sh, nested) + 10,
        j < sh.children.len() ==> item_score(ItemShape { children: sh.children.update(j, c), ..sh }, nested)
            == item_score(sh, nested) + (item_score(c, true) - item_score(sh.children[j], true)),
{
    law_one_more_child_adds_its_score(sh.children, j, c);
    if j < sh.children.len() {
        law_replacing_a_child_changes_the_score_by_its_change(sh.children, j, c);
    }
}

/// Two maps whose keys are the same but at `i`, where the first has a text
/// key and the second a key of another kind: the first map's key bonus is
/// higher by the difference of the two bonuses.
proof fn lemma_key_bonus_text_key(m1: Seq<(CborValue, CborValue)>, m2: Seq<(CborValue, CborValue)>, i: int)
    requires
        m1.len() == m2.len(),
        0 <= i < m1.len(),
        m1[i].0 is Text,
        !(m2[i].0 is Text),
        forall|j: int| 0 <= j < m1.len() && j != i ==> m1[j] == m2[j],
    ensures
        key_bonus(m1) == key_bonus(m2) + (SCORE_MAP_STRING_KEY_BONUS - SCORE_MAP_OTHER_KEY_BONUS),
    decreases m1.len(),
{
    if i == m1.len() - 1 {
        assert(m1.drop_last() =~= m2.drop_last());
    } else {
        lemma_key_bonus_text_key(m1.drop_last(), m2.drop_last(), i);
    }
}

/// Nested items that each score at least as much make a run that scores at
/// least as much.
proof fn lemma_children_score_pointwise(a: Seq<ItemShape>, b: Seq<ItemShape>)
    requires
        a.len() == b.len(),
        forall|j: int| 0 <= j < a.len() ==> item_score(#[trigger] a[j], true) >= item_score(b[j], true),
    ensures
        children_score(a) >= children_score(b),
    decreases a.len(),
{
    if a.len() > 0 {
        lemma_children_score_pointwise(a.drop_last(), b.drop_last());
        assert(a.last() == a[a.len() - 1]);
    }
}

/// Maps are preferred with text keys: of two maps that are the same but
/// for key `i`, a text in the first and an integer in the second (with the
/// same nested items), the first scores at least 80 more.
pub proof fn law_text_keys_score_higher(sh1: ItemShape, sh2: ItemShape, nested: bool, i: int)
    requires
        sh1.value matches CborValue::Mapping(m1) && sh2.value matches CborValue::Mapping(m2) && {
            &&& m1@.len() == m2@.len()
            &&& 0 <= i < m1@.len()
            &&& m1@[i].0 is Text
            &&& m2@[i].0 is Integer
            &&& forall|j: int| 0 <= j < m1@.len() && j != i ==> m1@[j] == m2@[j]
        },
        sh1.children.len() == sh2.children.len(),
        0 <= 2 * i < sh1.children.len(),
        forall|j: int| 0 <= j < sh1.children.len() && j != 2 * i ==> sh1.children[j] == sh2.children[j],
        sh1.children[2 * i].value is Text,
        sh2.children[2 * i].value is Integer,
        sh1.children[2 * i].children == sh2.children[2 * i].children,
    ensures
        item_score(sh1, nested) >= item_score(sh2, nested) + 80,
{
    if let CborValue::Mapping(m1) = sh1.value {
        if let CborValue::Mapping(m2) = sh2.value {
            lemma_key_bonus_text_key(m1@, m2@, i);
        }
    }
    let k1 = sh1.children[2 * i];
    let k2 = sh2.children[2 * i];
    assert(item_score(k1, true) >= item_score(k2, true));
    lemma_children_score_pointwise(sh1.children, sh2.children);
}

/// The item reached from `sh` by following the child positions `p`.
pub open spec fn subtree_at(sh: ItemShape, p: Seq<int>) -> ItemShape
    decreases p.len(),
{
    if p.len() == 0 {
        sh
    } else {
        subtree_at(sh.children[p[0]], p.drop_first())
    }
}

/// The child positions `p` lead from `sh` to an item.
pub open spec fn valid_position(sh: ItemShape, p: Seq<int>) -> bool
    decreases p.len(),
{
    p.len() == 0 || (0 <= p[0] < sh.children.len() && valid_position(sh.children[p[0]], p.drop_first()))
}

/// `sh` with the item at the child positions `p` replaced by `n`.
pub open spec fn replace_at(sh: ItemShape, p: Seq<int>, n: ItemShape) -> ItemShape
    decreases p.len(),
{
    if p.len() == 0 {
        n
    } else {
        ItemShape { children: sh.children.update(p[0], replace_at(sh.children[p[0]], p.drop_first(), n)), ..sh }
    }
}

/// Replacing an item anywhere in a tree changes the tree's score by the
/// change in that item's score (scored as nested, unless it is the root).
pub proof fn law_replacing_anywhere_changes_the_score_by_its_change(
    sh: ItemShape,
    nested: bool,
    p: Seq<int>,
    n: ItemShape,
)
    requires
        valid_position(sh, p),
    ensures
        item_score(replace_at(sh, p, n), nested) == item_score(sh, nested) + item_score(
            n,
            if p.len() == 0 {
                nested
            } else {
                true
            },
        ) - item_score(
            subtree_at(sh, p),
            if p.len() == 0 {
                nested
            } else {
                true
            },
        ),
    decreases p.len(),
{
    if p.len() > 0 {
        let j = p[0];
        let child = sh.children[j];
        let rest = p.drop_first();
        law_replacing_anywhere_changes_the_score_by_its_change(child, true, rest, n);
        law_more_children_score_higher(sh, nested, j, replace_at(child, rest, n));
    }
}

/// One more nested item, under any item of a tree, raises the tree's score
/// by at least ten.
pub proof fn law_one_more_child_anywhere_scores_higher(
    sh: ItemShape,
    nested: bool,
    p: Seq<int>,
    j: int,
    c: ItemShape,
)
    requires
        valid_position(sh, p),
        0 <= j <= subtree_at(sh, p).children.len(),
    ensures
        item_score(
            replace_at(sh, p, ItemShape { children: subtree_at(sh, p).children.insert(j, c), ..subtree_at(sh, p) }),
            nested,
        ) >= item_score(sh, nested) + 10,
{
    let t = subtree_at(sh, p);
    let nz = if p.len() == 0 {
        nested
    } else {
        true
    };
    law_replacing_anywhere_changes_the_score_by_its_change(
        sh,
        nested,
        p,
        ItemShape { children: t.children.insert(j, c), ..t },
    );
    law_more_children_score_higher(t, nz, j, c);
}

/// A map anywhere in a tree that gets a text key in place of an integer key
/// (see `law_text_keys_score_higher`) raises the tree's score by at least
/// 80.
pub proof fn law_text_key_anywhere_scores_higher(
    sh: ItemShape,
    nested: bool,
    p: Seq<int>,
    m: ItemShape,
    i: int,
)
    requires
        valid_position(sh, p),
        m.value matches CborValue::Mapping(m1) && subtree_at(sh, p).value matches CborValue::Mapping(m2) && {
            &&& m1@.len() == m2@.len()
            &&& 0 <= i < m1@.len()
            &&& m1@[i].0 is Text
            &&& m2@[i].0 is Integer
            &&& forall|j: int| 0 <= j < m1@.len() && j != i ==> m1@[j] == m2@[j]
        },
        m.children.len() == subtree_at(sh, p).children.len(),
        0 <= 2 * i < m.children.len(),
        forall|j: int|
            0 <= j < m.children.len() && j != 2 * i ==> m.children[j] == subtree_at(sh, p).children[j],
        m.children[2 * i].value is Text,
        subtree_at(sh, p).children[2 * i].value is Integer,
        m.children[2 * i].children == subtree_at(sh, p).children[2 * i].children,
    ensures
        item_score(replace_at(sh, p, m), nested) >= item_score(sh, nested) + 80,
{
    let nz = if p.len() == 0 {
        nested
    } else {
        true
    };
    law_replacing_anywhere_changes_the_score_by_its_change(sh, nested, p, m);
    law_text_keys_score_higher(m, subtree_at(sh, p), nz, i);
}

/// The elements of key `k`, in the order they come.
pub open spec fn with_key<T>(s: Seq<T>, key: spec_fn(T) -> int, k: int) -> Seq<T> {
    s.filter(|e: T| key(e) == k)
}

/// Inserting places `x` after every element of its key.
proof fn lemma_insert_by_with_key<T>(s: Seq<T>, x: T, key: spec_fn(T) -> int, k: int)
    ensures
        with_key(insert_by(s, x, key), key, k) == if key(x) == k {
            with_key(s, key, k).push(x)
        } else {
            with_key(s, key, k)
        },
    decreases s.len(),
{
    reveal(Seq::filter);
    if s.len() == 0 || key(s.last()) <= key(x) {
        assert(s.push(x).drop_last() =~= s);
    } else {
        let d = s.drop_last();
        lemma_insert_by_with_key(d, x, key, k);
        let t = insert_by(d, x, key);
        assert(t.push(s.last()).drop_last() =~= t);
    }
}

/// Sorting is stable: the elements of each key keep the order they had.
pub proof fn law_sort_is_stable<T>(s: Seq<T>, key: spec_fn(T) -> int, k: int)
    ensures
        with_key(sort_by_key(s, key), key, k) == with_key(s, key, k),
    decreases s.len(),
{
    reveal(Seq::filter);
    if s.len() > 0 {
        let d = s.drop_last();
        law_sort_is_stable(d, key, k);
        lemma_insert_by_with_key(sort_by_key(d, key), s.last(), key, k);
    }
}

/// The sort key of a chunk: descending score, or ascending offset.
pub open spec fn chunk_key(by_score: bool) -> spec_fn(ChunkShape) -> int {
    |c: ChunkShape| if by_score { -c.score } else { c.offset }
}

/// Inserting at the place where a scan from the end stops.
pub proof fn lemma_insert_by_at<T>(s: Seq<T>, x: T, key: spec_fn(T) -> int, j: int)
    requires
        0 <= j <= s.len(),
        forall|k: int| j <= k < s.len() ==> key(#[trigger] s[k]) > key(x),
        j == 0 || key(s[j - 1]) <= key(x),
    ensures
        insert_by(s, x, key) == s.take(j).push(x) + s.skip(j),
    decreases s.len(),
{
    if j == s.len() {
        assert(s.take(j).push(x) + s.skip(j) =~= s.push(x));
    } else {
        let d = s.drop_last();
        assert(key(s[s.len() - 1]) > key(x));
        lemma_insert_by_at(d, x, key, j);
        assert(d.take(j) =~= s.take(j));
        assert((d.take(j).push(x) + d.skip(j)).push(s.last()) =~= s.take(j).push(x) + s.skip(j));
    }
}

fn chunk_key_gt(a: &CborChunk, b: &CborChunk, by_score: bool) -> (r: bool)
    ensures
        r == ((chunk_key(by_score))(a.shape()) > (chunk_key(by_score))(b.shape())),
{
    if by_score {
        a.score < b.score
    } else {
        a.offset > b.offset
    }
}

/// Sorts chunks by descending score (`by_score`) or ascending offset,
/// keeping the order of chunks with equal keys.
pub fn sort_chunks(chunks: &mut Vec<CborChunk>, by_score: bool)
    ensures
        chunk_shapes(final(chunks)@) == sort_by_key(chunk_shapes(old(chunks)@), chunk_key(by_score)),
{
    let ghost key = chunk_key(by_score);
    let ghost orig = chunk_shapes(chunks@);
    let n = chunks.len();
    let mut i: usize = 0;
    proof {
        assert(chunk_shapes(chunks@).take(0) =~= Seq::<ChunkShape>::empty());
    }
    while i < n
        invariant
            n == chunks@.len(),
            orig == chunk_shapes(old(chunks)@),
            orig.len() == n,
            key == chunk_key(by_score),
            0 <= i <= n,
            chunk_shapes(chunks@).take(i as int) == sort_by_key(orig.take(i as int), key),
            chunk_shapes(chunks@).skip(i as int) == orig.skip(i as int),
        decreases n - i,
    {
        let ghost before = chunk_shapes(chunks@);
        let x = chunks.remove(i);
        let ghost xs = x.shape();
        let ghost pre = chunk_shapes(chunks@).take(i as int);
        proof {
            assert(pre =~= before.take(i as int));
            assert(xs == before[i as int]);
        }
        let mut j: usize = i;
        while j > 0 && chunk_key_gt(&chunks[j - 1], &x, by_score)
            invariant
                0 <= j <= i,
                i < n,
                chunks@.len() == n - 1,
                pre == chunk_shapes(chunks@).take(i as int),
                xs == x.shape(),
                key == chunk_key(by_score),
                forall|k: int| j <= k < i ==> key(#[trigger] pre[k]) > key(xs),
            decreases j,
        {
            j -= 1;
        }
        proof {
            lemma_insert_by_at(pre, xs, key, j as int);
        }
        chunks.insert(j, x);
        proof {
            let after = chunk_shapes(chunks@);
            assert(orig.take(i + 1).drop_last() =~= orig.take(i as int));
            assert(orig.take(i + 1).last() == xs) by {
                assert(before.skip(i as int)[0] == before[i as int]);
            }
            assert(after.take(i + 1) =~= pre.take(j as int).push(xs) + pre.skip(j as int));
            assert(after.skip(i + 1) =~= before.skip(i + 1));
            assert(orig.skip(i + 1) =~= orig.skip(i as int).drop_first());
            assert(before.skip(i + 1) =~= before.skip(i as int).drop_first());
        }
        i += 1;
    }
    proof {
        assert(chunk_shapes(chunks@).take(n as int) =~= chunk_shapes(chunks@));
        assert(orig.take(n as int) =~= orig);
    }
}

} // verus!

verus! {

/// The number of bytes of a text in UTF-8 (`str::len`).
pub open spec fn text_len(s: Seq<char>) -> int {
    (encode_utf8(s).len() as usize) as int
}

/// The item that parses at `pos` (the parser run on the input from `pos`),
/// with its ranges counted from the start of the input.
pub open spec fn item_at(input: Seq<u8>, pos: int) -> Option<ItemShape> {
    match spec_item(input.subrange(pos, input.len() as int), 0) {
        ItemOutcome::Done(sh) => Some(shift_shape(sh, pos)),
        ItemOutcome::Fail(_) => None,
    }
}

/// A container or tag.
pub open spec fn is_complex(v: CborValue) -> bool {
    v is Mapping || v is Array || v is Tag
}

/// A text or byte string of a plausible length for a top-level item.
pub open spec fn is_significant_simple(v: CborValue) -> bool {
    match v {
        CborValue::Text(s) => 2 < text_len(s@) < MAX_TEXT_CHUNK_SIZE,
        CborValue::Bytes(b) => 2 < b@.len() < MAX_BYTES_CHUNK_SIZE,
        _ => false,
    }
}

/// Whether the scan keeps a parsed item, given the run it would extend.
pub open spec fn accepts(mode: ScanMode, it: ItemShape, current: Seq<ItemShape>) -> bool {
    match mode {
        ScanMode::Single => true,
        ScanMode::Auto => is_complex(it.value) || is_significant_simple(it.value) || it.start == 0
            || (current.len() > 0 && current.last().end == it.start),
    }
}

/// Closes a run: its chunk is kept in `Single` mode, or when it scores at
/// least the threshold. The flag records that every score so far fits in
/// `usize`.
pub open spec fn finalize(
    chunks: Seq<ChunkShape>,
    fits: bool,
    items: Seq<ItemShape>,
    offset: int,
    mode: ScanMode,
) -> (Seq<ChunkShape>, bool) {
    let score = items_score(items);
    let fits2 = fits && score <= usize::MAX;
    if mode == ScanMode::Single || score >= SCORE_THRESHOLD {
        (chunks.push(ChunkShape { offset, items, score }), fits2)
    } else {
        (chunks, fits2)
    }
}

/// Scanning from `pos`, with the chunks closed so far and the open run
/// `current` starting at `offset`. Gives the chunks in the order found.
pub open spec fn scan_from(
    input: Seq<u8>,
    mode: ScanMode,
    pos: int,
    chunks: Seq<ChunkShape>,
    fits: bool,
    current: Seq<ItemShape>,
    offset: int,
) -> (Seq<ChunkShape>, bool)
    decreases input.len() - pos,
{
    if pos < 0 || pos >= input.len() {
        if current.len() > 0 {
            finalize(chunks, fits, current, offset, mode)
        } else {
            (chunks, fits)
        }
    } else {
        let parsed = item_at(input, pos);
        if parsed is Some && accepts(mode, parsed->0, current) && pos < parsed->0.end {
            let it = parsed->0;
            let adjacent = current.len() > 0 && current.last().end == it.start;
            if !adjacent && current.len() > 0 {
                let f = finalize(chunks, fits, current, offset, mode);
                if mode == ScanMode::Single {
                    f
                } else {
                    scan_from(input, mode, it.end, f.0, f.1, seq![it], it.start)
                }
            } else {
                let off = if current.len() == 0 {
                    it.start
                } else {
                    offset
                };
                scan_from(input, mode, it.end, chunks, fits, current.push(it), off)
            }
        } else if current.len() > 0 {
            let f = finalize(chunks, fits, current, offset, mode);
            if mode == ScanMode::Single {
                f
            } else {
                scan_from(input, mode, pos + 1, f.0, f.1, seq![], offset)
            }
        } else {
            scan_from(input, mode, pos + 1, chunks, fits, current, offset)
        }
    }
}

/// The result of scanning: the chunks (sorted by descending score in `Auto`
/// mode, in input order in `Single` mode), and whether every chunk score
/// fits in `usize`.
pub open spec fn spec_scan(input: Seq<u8>, mode: ScanMode) -> (Seq<ChunkShape>, bool) {
    let r = scan_from(input, mode, 0, Seq::<ChunkShape>::empty(), true, Seq::<ItemShape>::empty(), 0);
    if mode == ScanMode::Auto {
        (sort_by_key(r.0, chunk_key(true)), r.1)
    } else {
        r
    }
}

/// Once a score has overflowed, the scan reports it.
pub proof fn lemma_scan_unfit(
    input: Seq<u8>,
    mode: ScanMode,
    pos: int,
    chunks: Seq<ChunkShape>,
    current: Seq<ItemShape>,
    offset: int,
)
    ensures
        !scan_from(input, mode, pos, chunks, false, current, offset).1,
    decreases input.len() - pos,
{
    if 0 <= pos < input.len() {
        let parsed = item_at(input, pos);
        if parsed is Some && accepts(mode, parsed->0, current) && pos < parsed->0.end {
            let it = parsed->0;
            let adjacent = current.len() > 0 && current.last().end == it.start;
            if !adjacent && current.len() > 0 {
                let f = finalize(chunks, false, current, offset, mode);
                lemma_scan_unfit(input, mode, it.end, f.0, seq![it], it.start);
            } else {
                let off = if current.len() == 0 {
                    it.start
                } else {
                    offset
                };
                lemma_scan_unfit(input, mode, it.end, chunks, current.push(it), off);
            }
        } else if current.len() > 0 {
            let f = finalize(chunks, false, current, offset, mode);
            lemma_scan_unfit(input, mode, pos + 1, f.0, seq![], offset);
        } else {
            lemma_scan_unfit(input, mode, pos + 1, chunks, current, offset);
        }
    }
}


/// A run of items back to back from `offset`, each the item that the
/// parser reads where it starts.
pub open spec fn parsed_run(input: Seq<u8>, items: Seq<ItemShape>, offset: int) -> bool {
    &&& items.len() > 0 ==> items[0].start == offset
    &&& forall|k: int| 0 <= k < items.len() ==> item_at(input, #[trigger] items[k].start) == Some(items[k])
    &&& forall|k: int| 0 <= k < items.len() - 1 ==> #[trigger] items[k].end == items[k + 1].start
}

/// A chunk that the scan can report: a non-empty parsed run from its offset.
pub open spec fn found_chunk(input: Seq<u8>, c: ChunkShape) -> bool {
    c.items.len() > 0 && parsed_run(input, c.items, c.offset)
}

/// An item read at `pos` starts there.
proof fn lemma_item_at_start(input: Seq<u8>, pos: int)
    requires
        0 <= pos <= input.len(),
    ensures
        item_at(input, pos) matches Some(it) ==> it.start == pos && pos < it.end && item_at(input, it.start)
            == Some(it),
{
    crate::cbor_parser::lemma_item_bounds(input.subrange(pos, input.len() as int), 0);
}

/// Closing a parsed run keeps every chunk a found one.
proof fn lemma_finalize_found(
    input: Seq<u8>,
    chunks: Seq<ChunkShape>,
    fits: bool,
    items: Seq<ItemShape>,
    offset: int,
    mode: ScanMode,
)
    requires
        forall|i: int| 0 <= i < chunks.len() ==> found_chunk(input, #[trigger] chunks[i]),
        items.len() > 0,
        parsed_run(input, items, offset),
    ensures
        forall|i: int|
            0 <= i < finalize(chunks, fits, items, offset, mode).0.len() ==> found_chunk(
                input,
                #[trigger] finalize(chunks, fits, items, offset, mode).0[i],
            ),
{
}

/// Scanning on from `pos` reports found chunks only.
proof fn lemma_scan_from_found(
    input: Seq<u8>,
    mode: ScanMode,
    pos: int,
    chunks: Seq<ChunkShape>,
    fits: bool,
    current: Seq<ItemShape>,
    offset: int,
)
    requires
        0 <= pos,
        forall|i: int| 0 <= i < chunks.len() ==> found_chunk(input, #[trigger] chunks[i]),
        parsed_run(input, current, offset),
    ensures
        forall|i: int|
            0 <= i < scan_from(input, mode, pos, chunks, fits, current, offset).0.len() ==> found_chunk(
                input,
                #[trigger] scan_from(input, mode, pos, chunks, fits, current, offset).0[i],
            ),
    decreases input.len() - pos,
{
    let r = scan_from(input, mode, pos, chunks, fits, current, offset);
    if pos >= input.len() {
        if current.len() > 0 {
            lemma_finalize_found(input, chunks, fits, current, offset, mode);
        }
    } else {
        lemma_item_at_start(input, pos);
        let parsed = item_at(input, pos);
        if parsed is Some && accepts(mode, parsed->0, current) && pos < parsed->0.end {
            let it = parsed->0;
            let adjacent = current.len() > 0 && current.last().end == it.start;
            if !adjacent && current.len() > 0 {
                lemma_finalize_found(input, chunks, fits, current, offset, mode);
                let f = finalize(chunks, fits, current, offset, mode);
                if mode != ScanMode::Single {
                    assert(r == scan_from(input, mode, it.end, f.0, f.1, seq![it], it.start));
                    lemma_scan_from_found(input, mode, it.end, f.0, f.1, seq![it], it.start);
                } else {
                    assert(r == f);
                }
            } else {
                let off = if current.len() == 0 {
                    it.start
                } else {
                    offset
                };
                let next = current.push(it);
                assert(forall|k: int| 0 <= k < current.len() ==> next[k] == current[k]);
                assert(next[current.len() as int] == it);
                assert forall|k: int| 0 <= k < next.len() implies item_at(input, #[trigger] next[k].start)
                    == Some(next[k]) by {
                    if k < current.len() {
                        assert(next[k] == current[k]);
                    }
                }
                assert forall|k: int| 0 <= k < next.len() - 1 implies #[trigger] next[k].end == next[k
                    + 1].start by {
                    if k < current.len() - 1 {
                        assert(next[k] == current[k] && next[k + 1] == current[k + 1]);
                    }
                }
                assert(parsed_run(input, next, off));
                assert(r == scan_from(input, mode, it.end, chunks, fits, next, off));
                lemma_scan_from_found(input, mode, it.end, chunks, fits, next, off);
            }
        } else if current.len() > 0 {
            lemma_finalize_found(input, chunks, fits, current, offset, mode);
            let f = finalize(chunks, fits, current, offset, mode);
            if mode != ScanMode::Single {
                assert(r == scan_from(input, mode, pos + 1, f.0, f.1, seq![], offset));
                lemma_scan_from_found(input, mode, pos + 1, f.0, f.1, seq![], offset);
            } else {
                assert(r == f);
            }
        } else {
            assert(r == scan_from(input, mode, pos + 1, chunks, fits, current, offset));
            lemma_scan_from_found(input, mode, pos + 1, chunks, fits, current, offset);
        }
    }
}

/// The score of a run of items is the sum of its items' scores: a single
/// item scores as itself, and two runs one after the other score together
/// as much as each.
pub proof fn law_items_score_is_a_sum(a: Seq<ItemShape>, b: Seq<ItemShape>, x: ItemShape)
    ensures
        items_score(seq![x]) == item_score(x, false),
        items_score(a + b) == items_score(a) + items_score(b),
    decreases b.len(),
{
    reveal_with_fuel(items_score, 2);
    assert(seq![x].drop_last() =~= Seq::<ItemShape>::empty());
    if b.len() == 0 {
        assert(a + b =~= a);
    } else {
        law_items_score_is_a_sum(a, b.drop_last(), x);
        assert((a + b).drop_last() =~= a + b.drop_last());
        assert((a + b).last() == b.last());
    }
}

/// A chunk as a scan reports it: its score is the sum of the scores of
/// its items, and in `Auto` mode that sum reaches the threshold.
pub open spec fn scored_chunk(mode: ScanMode, c: ChunkShape) -> bool {
    &&& c.score == items_score(c.items)
    &&& mode == ScanMode::Auto ==> c.score >= SCORE_THRESHOLD
}

/// Closing a run keeps it, with the sum of its items' scores as its score,
/// in `Single` mode always and in `Auto` mode exactly when that sum reaches
/// the threshold; otherwise the chunks stay as they were.
pub proof fn law_closing_a_run(
    chunks: Seq<ChunkShape>,
    fits: bool,
    items: Seq<ItemShape>,
    offset: int,
    mode: ScanMode,
)
    ensures
        finalize(chunks, fits, items, offset, mode).0 == if mode == ScanMode::Single || items_score(items)
            >= SCORE_THRESHOLD {
            chunks.push(ChunkShape { offset, items, score: items_score(items) })
        } else {
            chunks
        },
{
}

/// Closing a run keeps every chunk a scored one.
proof fn lemma_finalize_scored(
    chunks: Seq<ChunkShape>,
    fits: bool,
    items: Seq<ItemShape>,
    offset: int,
    mode: ScanMode,
)
    requires
        forall|i: int| 0 <= i < chunks.len() ==> scored_chunk(mode, #[trigger] chunks[i]),
    ensures
        forall|i: int|
            0 <= i < finalize(chunks, fits, items, offset, mode).0.len() ==> scored_chunk(
                mode,
                #[trigger] finalize(chunks, fits, items, offset, mode).0[i],
            ),
{
    law_closing_a_run(chunks, fits, items, offset, mode);
}

/// Scanning on from `pos` reports scored chunks only.
proof fn lemma_scan_from_scored(
    input: Seq<u8>,
    mode: ScanMode,
    pos: int,
    chunks: Seq<ChunkShape>,
    fits: bool,
    current: Seq<ItemShape>,
    offset: int,
)
    requires
        0 <= pos,
        forall|i: int| 0 <= i < chunks.len() ==> scored_chunk(mode, #[trigger] chunks[i]),
    ensures
        forall|i: int|
            0 <= i < scan_from(input, mode, pos, chunks, fits, current, offset).0.len() ==> scored_chunk(
                mode,
                #[trigger] scan_from(input, mode, pos, chunks, fits, current, offset).0[i],
            ),
    decreases input.len() - pos,
{
    let r = scan_from(input, mode, pos, chunks, fits, current, offset);
    if pos >= input.len() {
        if current.len() > 0 {
            lemma_finalize_scored(chunks, fits, current, offset, mode);
        }
    } else {
        lemma_item_at_start(input, pos);
        let parsed = item_at(input, pos);
        if parsed is Some && accepts(mode, parsed->0, current) && pos < parsed->0.end {
            let it = parsed->0;
            let adjacent = current.len() > 0 && current.last().end == it.start;
            if !adjacent && current.len() > 0 {
                lemma_finalize_scored(chunks, fits, current, offset, mode);
                let f = finalize(chunks, fits, current, offset, mode);
                if mode != ScanMode::Single {
                    assert(r == scan_from(input, mode, it.end, f.0, f.1, seq![it], it.start));
                    lemma_scan_from_scored(input, mode, it.end, f.0, f.1, seq![it], it.start);
                } else {
                    assert(r == f);
                }
            } else {
                let off = if current.len() == 0 {
                    it.start
                } else {
                    offset
                };
                let next = current.push(it);
                assert(r == scan_from(input, mode, it.end, chunks, fits, next, off));
                lemma_scan_from_scored(input, mode, it.end, chunks, fits, next, off);
            }
        } else if current.len() > 0 {
            lemma_finalize_scored(chunks, fits, current, offset, mode);
            let f = finalize(chunks, fits, current, offset, mode);
            if mode != ScanMode::Single {
                assert(r == scan_from(input, mode, pos + 1, f.0, f.1, seq![], offset));
                lemma_scan_from_scored(input, mode, pos + 1, f.0, f.1, seq![], offset);
            } else {
                assert(r == f);
            }
        } else {
            assert(r == scan_from(input, mode, pos + 1, chunks, fits, current, offset));
            lemma_scan_from_scored(input, mode, pos + 1, chunks, fits, current, offset);
        }
    }
}


/// Every chunk a scan reports has as its score the sum of the scores of its
/// items, and an `Auto` scan reports only chunks whose sum reaches the
/// threshold.
pub proof fn law_scan_scores_chunks(input: Seq<u8>, mode: ScanMode)
    ensures
        forall|i: int|
            0 <= i < spec_scan(input, mode).0.len() ==> scored_chunk(mode, #[trigger] spec_scan(input, mode).0[i]),
{
    broadcast use vstd::seq_lib::to_multiset_contains;

    let r = scan_from(input, mode, 0, Seq::<ChunkShape>::empty(), true, Seq::<ItemShape>::empty(), 0);
    lemma_scan_from_scored(input, mode, 0, Seq::<ChunkShape>::empty(), true, Seq::<ItemShape>::empty(), 0);
    if mode == ScanMode::Auto {
        let s = sort_by_key(r.0, chunk_key(true));
        law_sort_keeps_elements(r.0, chunk_key(true));
        assert forall|i: int| 0 <= i < s.len() implies scored_chunk(mode, #[trigger] s[i]) by {
            assert(s.contains(s[i]));
            assert(s.to_multiset().count(s[i]) > 0);
            assert(r.0.contains(s[i]));
        }
    }
}

/// Every chunk a scan reports is a non-empty run of CBOR items back to
/// back from the chunk's offset, each of them the item that the parser
/// reads where it starts.
pub proof fn law_scan_reports_parsed_runs(input: Seq<u8>, mode: ScanMode)
    ensures
        forall|i: int|
            0 <= i < spec_scan(input, mode).0.len() ==> found_chunk(input, #[trigger] spec_scan(input, mode).0[i]),
{
    broadcast use vstd::seq_lib::to_multiset_contains;

    let r = scan_from(input, mode, 0, Seq::<ChunkShape>::empty(), true, Seq::<ItemShape>::empty(), 0);
    lemma_scan_from_found(input, mode, 0, Seq::<ChunkShape>::empty(), true, Seq::<ItemShape>::empty(), 0);
    if mode == ScanMode::Auto {
        let s = sort_by_key(r.0, chunk_key(true));
        law_sort_keeps_elements(r.0, chunk_key(true));
        assert forall|i: int| 0 <= i < s.len() implies found_chunk(input, #[trigger] s[i]) by {
            assert(s.contains(s[i]));
            assert(s.to_multiset().count(s[i]) > 0);
            assert(r.0.contains(s[i]));
        }
    }
}


/// A `Single` scan stops at the end of its first run.
proof fn lemma_single_scan_one_chunk(
    input: Seq<u8>,
    pos: int,
    fits: bool,
    current: Seq<ItemShape>,
    offset: int,
)
    ensures
        scan_from(input, ScanMode::Single, pos, Seq::<ChunkShape>::empty(), fits, current, offset).0.len() <= 1,
    decreases input.len() - pos,
{
    let mode = ScanMode::Single;
    if 0 <= pos < input.len() {
        let parsed = item_at(input, pos);
        if parsed is Some && accepts(mode, parsed->0, current) && pos < parsed->0.end {
            let it = parsed->0;
            let adjacent = current.len() > 0 && current.last().end == it.start;
            if adjacent || current.len() == 0 {
                let off = if current.len() == 0 {
                    it.start
                } else {
                    offset
                };
                lemma_single_scan_one_chunk(input, it.end, fits, current.push(it), off);
            }
        } else if current.len() == 0 {
            lemma_single_scan_one_chunk(input, pos + 1, fits, current, offset);
        }
    }
}

/// A scan lists its chunks by descending score: an `Auto` scan sorts them,
/// and a `Single` scan finds at most one.
pub proof fn law_scan_order(input: Seq<u8>)
    ensures
        spec_scan(input, ScanMode::Single).0.len() <= 1,
        sorted_by(spec_scan(input, ScanMode::Single).0, chunk_key(true)),
        sorted_by(spec_scan(input, ScanMode::Auto).0, chunk_key(true)),
{
    lemma_single_scan_one_chunk(input, 0, true, Seq::<ItemShape>::empty(), 0);
    let r = scan_from(input, ScanMode::Auto, 0, Seq::<ChunkShape>::empty(), true, Seq::<ItemShape>::empty(), 0);
    law_sort_orders_by_key(r.0, chunk_key(true));
}

} // verus!
