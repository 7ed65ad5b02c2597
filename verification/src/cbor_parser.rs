//! A structural CBOR parser that records the byte range of every data item.
use vstd::prelude::*;
use crate::value::{CborValue, ciborium_value, decode_value};
use std::ops::Range;

verus! {

/// A parsed CBOR item with its byte range (relative to the parser's input)
/// and its nested items: the elements of an array, the keys and values of a
/// map in turn, the item under a tag, or the chunks of an indefinite-length
/// string.
#[derive(Debug)]
pub struct ParsedCbor {
    pub value: CborValue,
    pub range: Range<usize>,
    pub children: Vec<ParsedCbor>,
}

/// The mathematical shape of a parsed item.
pub struct ItemShape {
    pub value: CborValue,
    pub start: int,
    pub end: int,
    pub children: Seq<ItemShape>,
}

impl ParsedCbor {
    /// The shape of this item and of everything under it.
    pub open spec fn shape(&self) -> ItemShape
        decreases self,
    {
        ItemShape {
            value: self.value,
            start: self.range.start as int,
            end: self.range.end as int,
            children: Self::shapes(self.children@),
        }
    }

    /// The shapes of a sequence of items.
    pub open spec fn shapes(items: Seq<ParsedCbor>) -> Seq<ItemShape>
        decreases items,
    {
        if items.len() == 0 {
            seq![]
        } else {
            Self::shapes(items.drop_last()).push(items.last().shape())
        }
    }
}

/// The outcome of parsing one item: failure at a byte position (which may
/// lie past the end of the input), or an item.
pub enum ItemOutcome {
    Fail(int),
    Done(ItemShape),
}

/// The outcome of parsing a run of items: failure at a position, or the
/// items and the position after them.
pub enum RunOutcome {
    Fail(int),
    Done(Seq<ItemShape>, int),
}

/// The big-endian number held by `n` bytes of `input` starting at `p`.
pub open spec fn be_number(input: Seq<u8>, p: int, n: nat) -> nat
    decreases n,
{
    if n == 0 {
        0
    } else {
        be_number(input, p, (n - 1) as nat) * 256 + input[p + n - 1] as nat
    }
}

/// The argument of an item head: the additional information `info` and the
/// bytes that follow the head at `p`. Yields the argument and the position
/// after it; `u64::MAX` stands for an indefinite length.
pub open spec fn spec_read_len(input: Seq<u8>, p: int, info: u8) -> Option<(u64, int)> {
    let n: nat = if info == 24 { 1 } else if info == 25 { 2 } else if info == 26 { 4 } else { 8 };
    if info <= 23 {
        Some((info as u64, p))
    } else if info == 31 {
        Some((u64::MAX, p))
    } else if 24 <= info <= 27 {
        if p + n <= input.len() {
            Some((be_number(input, p, n) as u64, p + n))
        } else {
            None
        }
    } else {
        None
    }
}

/// The items that follow the head of a container, read until the given end
/// and checked by `ciborium`.
pub open spec fn finish_item(
    input: Seq<u8>,
    start: int,
    end: int,
    children: Seq<ItemShape>,
) -> ItemOutcome {
    if end > input.len() {
        ItemOutcome::Fail(end)
    } else {
        match ciborium_value(input.subrange(start, end)) {
            None => ItemOutcome::Fail(end),
            Some(v) => ItemOutcome::Done(ItemShape { value: v, start, end, children }),
        }
    }
}

/// Parsing one CBOR item at position `pos` of `input`.
pub open spec fn spec_item(input: Seq<u8>, pos: int) -> ItemOutcome
    decreases input.len() - pos, 0int, 0int,
{
    if pos < 0 || pos >= input.len() {
        ItemOutcome::Fail(pos)
    } else {
        let head = input[pos];
        let major = head / 32;
        let info = head % 32;
        let p = pos + 1;
        match spec_read_len(input, p, info) {
            None => ItemOutcome::Fail(p),
            Some((len, q)) => {
                if major <= 1 || major == 7 {
                    finish_item(input, pos, q, seq![])
                } else if major <= 3 {
                    if len == u64::MAX {
                        match spec_until_break(input, q, 1) {
                            RunOutcome::Fail(f) => ItemOutcome::Fail(f),
                            RunOutcome::Done(cs, e) => finish_item(input, pos, e, cs),
                        }
                    } else {
                        finish_item(input, pos, q + len, seq![])
                    }
                } else if major == 4 || major == 5 {
                    let k: nat = if major == 4 { 1 } else { 2 };
                    if len == u64::MAX {
                        match spec_until_break(input, q, k) {
                            RunOutcome::Fail(f) => ItemOutcome::Fail(f),
                            RunOutcome::Done(cs, e) => finish_item(input, pos, e, cs),
                        }
                    } else {
                        match spec_items(input, q, k * (len as nat)) {
                            RunOutcome::Fail(f) => ItemOutcome::Fail(f),
                            RunOutcome::Done(cs, e) => finish_item(input, pos, e, cs),
                        }
                    }
                } else {
                    // a tag: the tagged item is kept when it parses
                    match spec_item(input, q) {
                        ItemOutcome::Fail(f) => finish_item(input, pos, f, seq![]),
                        ItemOutcome::Done(c) => finish_item(input, pos, c.end, seq![c]),
                    }
                }
            },
        }
    }
}

/// Parsing `n` items one after another from `pos`.
pub open spec fn spec_items(input: Seq<u8>, pos: int, n: nat) -> RunOutcome
    decreases input.len() - pos, 1int, n,
{
    if n == 0 {
        RunOutcome::Done(seq![], pos)
    } else {
        match spec_item(input, pos) {
            ItemOutcome::Fail(f) => RunOutcome::Fail(f),
            ItemOutcome::Done(it) => {
                if pos < it.end <= input.len() {
                    match spec_items(input, it.end, (n - 1) as nat) {
                        RunOutcome::Fail(f) => RunOutcome::Fail(f),
                        RunOutcome::Done(rest, e) => RunOutcome::Done(seq![it] + rest, e),
                    }
                } else {
                    RunOutcome::Fail(it.end)
                }
            },
        }
    }
}

/// Parsing groups of `k` items from `pos` until a break byte (0xFF) is next;
/// the position after the break ends the run.
pub open spec fn spec_until_break(input: Seq<u8>, pos: int, k: nat) -> RunOutcome
    decreases input.len() - pos, 2int, 0int,
{
    if 0 <= pos < input.len() && input[pos] == 0xFF {
        RunOutcome::Done(seq![], pos + 1)
    } else {
        match spec_items(input, pos, k) {
            RunOutcome::Fail(f) => RunOutcome::Fail(f),
            RunOutcome::Done(g, e) => {
                if pos < e <= input.len() {
                    match spec_until_break(input, e, k) {
                        RunOutcome::Fail(f) => RunOutcome::Fail(f),
                        RunOutcome::Done(rest, e2) => RunOutcome::Done(g + rest, e2),
                    }
                } else {
                    RunOutcome::Fail(e)
                }
            },
        }
    }
}

} // verus!

verus! {

/// Prepends items to the items of a run.
pub open spec fn prefix_run(cs: Seq<ItemShape>, r: RunOutcome) -> RunOutcome {
    match r {
        RunOutcome::Fail(f) => RunOutcome::Fail(f),
        RunOutcome::Done(rest, e) => RunOutcome::Done(cs + rest, e),
    }
}

/// The item lies within `lo..hi`, is at least one byte long, and its nested
/// items lie one after another within its own range.
pub open spec fn shape_within(sh: ItemShape, lo: int, hi: int) -> bool
    decreases sh,
{
    &&& lo <= sh.start
    &&& sh.start < sh.end
    &&& sh.end <= hi
    &&& laid_out(sh.children, sh.start, sh.end)
}

/// The items lie one after another, in order and without overlap, within
/// `lo..hi`.
pub open spec fn laid_out(cs: Seq<ItemShape>, lo: int, hi: int) -> bool
    decreases cs,
{
    if cs.len() == 0 {
        lo <= hi
    } else {
        shape_within(cs[0], lo, hi) && laid_out(cs.drop_first(), cs[0].end, hi)
    }
}

pub proof fn lemma_laid_out_le(cs: Seq<ItemShape>, lo: int, hi: int)
    requires
        laid_out(cs, lo, hi),
    ensures
        lo <= hi,
    decreases cs.len(),
{
    reveal_with_fuel(laid_out, 2);
    if cs.len() > 0 {
        lemma_laid_out_le(cs.drop_first(), cs[0].end, hi);
    }
}

pub proof fn lemma_laid_out_widen(cs: Seq<ItemShape>, lo: int, hi: int, lo2: int)
    requires
        laid_out(cs, lo, hi),
        lo2 <= lo,
    ensures
        laid_out(cs, lo2, hi),
{
    reveal_with_fuel(laid_out, 2);
}

pub proof fn lemma_laid_out_concat(a: Seq<ItemShape>, b: Seq<ItemShape>, lo: int, m: int, hi: int)
    requires
        laid_out(a, lo, m),
        laid_out(b, m, hi),
    ensures
        laid_out(a + b, lo, hi),
    decreases a.len(),
{
    reveal_with_fuel(laid_out, 2);
    lemma_laid_out_le(b, m, hi);
    if a.len() == 0 {
        assert(a + b =~= b);
    } else {
        lemma_laid_out_concat(a.drop_first(), b, a[0].end, m, hi);
        assert((a + b).drop_first() =~= a.drop_first() + b);
    }
}

/// When the first item of a run fails, the run fails at the same place.
proof fn lemma_first_fails(input: Seq<u8>, p: int, k: nat)
    requires
        k >= 1,
        spec_item(input, p) is Fail,
    ensures
        spec_items(input, p, k) == RunOutcome::Fail(spec_item(input, p)->Fail_0),
        !(0 <= p < input.len() && input[p] == 0xFF) ==> spec_until_break(input, p, k)
            == RunOutcome::Fail(spec_item(input, p)->Fail_0),
{
}

pub proof fn lemma_prefix_assoc(a: Seq<ItemShape>, b: Seq<ItemShape>, r: RunOutcome)
    ensures
        prefix_run(a, prefix_run(b, r)) == prefix_run(a + b, r),
{
    match r {
        RunOutcome::Fail(_) => {},
        RunOutcome::Done(rest, e) => {
            assert(a + (b + rest) =~= (a + b) + rest);
        },
    }
}

pub proof fn lemma_shapes_push(items: Seq<ParsedCbor>, x: ParsedCbor)
    ensures
        ParsedCbor::shapes(items.push(x)) == ParsedCbor::shapes(items).push(x.shape()),
{
    assert(items.push(x).drop_last() =~= items);
}

pub proof fn lemma_shapes_index(items: Seq<ParsedCbor>)
    ensures
        ParsedCbor::shapes(items).len() == items.len(),
        forall|i: int| 0 <= i < items.len() ==> #[trigger] ParsedCbor::shapes(items)[i] == items[i].shape(),
    decreases items.len(),
{
    if items.len() > 0 {
        lemma_shapes_index(items.drop_last());
    }
}

proof fn lemma_read_len_bounds(input: Seq<u8>, p: int, info: u8)
    ensures
        spec_read_len(input, p, info) matches Some((len, q)) ==> p <= q && (q > input.len() ==> q == p),
{
}

/// Every item parsed at `pos` starts there and ends after it, within the
/// input; a failure is reported at or after `pos`.
pub proof fn lemma_item_bounds(input: Seq<u8>, pos: int)
    requires
        0 <= pos,
    ensures
        match spec_item(input, pos) {
            ItemOutcome::Fail(f) => f >= pos,
            ItemOutcome::Done(it) => it.start == pos && pos < it.end <= input.len()
                && shape_within(it, pos, input.len() as int),
        },
    decreases input.len() - pos, 0int, 0int,
{
    if pos < input.len() {
        let head = input[pos];
        let major = head / 32;
        let info = head % 32;
        let p = pos + 1;
        lemma_read_len_bounds(input, p, info);
        match spec_read_len(input, p, info) {
            None => {},
            Some((len, q)) => {
                if major <= 1 || major == 7 {
                } else if major <= 3 {
                    if len == u64::MAX {
                        lemma_until_bounds(input, q, 1);
                        if let RunOutcome::Done(cs, e) = spec_until_break(input, q, 1) {
                            lemma_laid_out_widen(cs, q, e, pos);
                        }
                    }
                } else if major == 4 || major == 5 {
                    let k: nat = if major == 4 { 1 } else { 2 };
                    if len == u64::MAX {
                        lemma_until_bounds(input, q, k);
                        if let RunOutcome::Done(cs, e) = spec_until_break(input, q, k) {
                            lemma_laid_out_widen(cs, q, e, pos);
                        }
                    } else {
                        lemma_items_bounds(input, q, k * (len as nat));
                        if let RunOutcome::Done(cs, e) = spec_items(input, q, k * (len as nat)) {
                            lemma_laid_out_widen(cs, q, e, pos);
                        }
                    }
                } else {
                    lemma_item_bounds(input, q);
                    if let ItemOutcome::Done(c) = spec_item(input, q) {
                        assert(seq![c].drop_first() =~= Seq::<ItemShape>::empty());
                        reveal_with_fuel(laid_out, 2);
                        assert(laid_out(seq![c], pos, c.end));
                    }
                }
            },
        }
    }
}

/// A run of `n` items has `n` items and ends after its start.
pub proof fn lemma_items_bounds(input: Seq<u8>, pos: int, n: nat)
    requires
        0 <= pos,
    ensures
        match spec_items(input, pos, n) {
            RunOutcome::Fail(f) => f >= pos,
            RunOutcome::Done(cs, e) => cs.len() == n && e >= pos && (n > 0 ==> pos < e
                <= input.len()) && (n == 0 ==> e == pos) && laid_out(cs, pos, e),
        },
    decreases input.len() - pos, 1int, n,
{
    if n > 0 {
        lemma_item_bounds(input, pos);
        match spec_item(input, pos) {
            ItemOutcome::Fail(_) => {},
            ItemOutcome::Done(it) => {
                if pos < it.end <= input.len() {
                    lemma_items_bounds(input, it.end, (n - 1) as nat);
                    if let RunOutcome::Done(rest, e) = spec_items(input, it.end, (n - 1) as nat) {
                        lemma_laid_out_le(rest, it.end, e);
                        assert((seq![it] + rest).drop_first() =~= rest);
                        reveal_with_fuel(laid_out, 2);
                        assert(laid_out(seq![it] + rest, pos, e));
                    }
                }
            },
        }
    }
}

/// A run closed by a break byte ends after its start, within the input.
pub proof fn lemma_until_bounds(input: Seq<u8>, pos: int, k: nat)
    requires
        0 <= pos,
        k >= 1,
    ensures
        match spec_until_break(input, pos, k) {
            RunOutcome::Fail(f) => f >= pos,
            RunOutcome::Done(cs, e) => pos < e <= input.len() && laid_out(cs, pos, e),
        },
    decreases input.len() - pos, 2int, 0int,
{
    if !(0 <= pos < input.len() && input[pos] == 0xFF) {
        lemma_items_bounds(input, pos, k);
        match spec_items(input, pos, k) {
            RunOutcome::Fail(_) => {},
            RunOutcome::Done(g, e) => {
                if pos < e <= input.len() {
                    lemma_until_bounds(input, e, k);
                    if let RunOutcome::Done(rest, e2) = spec_until_break(input, e, k) {
                        lemma_laid_out_concat(g, rest, pos, e, e2);
                    }
                }
            },
        }
    }
}

} // verus!

verus! {

/// A parser over a byte slice. It reads one item at a time from its current
/// position; after a string that runs past the end of the input it is
/// "overrun": its position is then the end of the input.
pub struct CborParser<'a> {
    input: &'a [u8],
    position: usize,
    overrun: bool,
}

impl<'a> CborParser<'a> {
    /// The bytes being parsed.
    pub closed spec fn input_seq(&self) -> Seq<u8> {
        self.input@
    }

    /// The current position (the end of the input when overrun).
    pub closed spec fn pos(&self) -> int {
        self.position as int
    }

    pub closed spec fn wf(&self) -> bool {
        &&& self.position <= self.input@.len()
        &&& self.overrun ==> self.position == self.input@.len()
    }

    /// The parser stands at position `q`, where a `q` past the end of the
    /// input is recorded as an overrun.
    pub closed spec fn at(&self, q: int) -> bool {
        if q > self.input@.len() {
            self.overrun && self.position == self.input@.len()
        } else {
            !self.overrun && self.position == q
        }
    }

    pub fn new(input: &'a [u8]) -> (r: Self)
        ensures
            r.wf(),
            r.input_seq() == input@,
            r.at(0),
            r.pos() == 0,
    {
        Self { input, position: 0, overrun: false }
    }

    /// Parses the item at the current position. Gives `None`, and leaves
    /// the parser as it was, when the position is at the end of the input.
    pub fn parse(&mut self) -> (r: Option<ParsedCbor>)
        requires
            old(self).wf(),
        ensures
            final(self).wf(),
            final(self).input_seq() == old(self).input_seq(),
            old(self).pos() >= old(self).input_seq().len() ==> r is None && *final(self)
                == *old(self),
            old(self).pos() < old(self).input_seq().len() ==> match spec_item(
                old(self).input_seq(),
                old(self).pos(),
            ) {
                ItemOutcome::Fail(f) => r is None && final(self).at(f),
                ItemOutcome::Done(sh) => r matches Some(x) && x.shape() == sh && final(self).at(
                    sh.end,
                ) && shape_within(sh, old(self).pos(), old(self).input_seq().len() as int),
            },
    {
        if self.position >= self.input.len() {
            return None;
        }
        proof {
            lemma_item_bounds(self.input@, self.position as int);
        }
        self.parse_item()
    }

    fn parse_item(&mut self) -> (r: Option<ParsedCbor>)
        requires
            old(self).wf(),
        ensures
            final(self).wf(),
            final(self).input == old(self).input,
            old(self).position >= old(self).input@.len() ==> r is None && *final(self)
                == *old(self),
            old(self).position < old(self).input@.len() ==> match spec_item(
                old(self).input@,
                old(self).position as int,
            ) {
                ItemOutcome::Fail(f) => r is None && final(self).at(f),
                ItemOutcome::Done(sh) => r matches Some(x) && x.shape() == sh && final(self).at(
                    sh.end,
                ),
            },
        decreases old(self).input@.len() - old(self).position, 0int,
    {
        if self.position >= self.input.len() {
            return None;
        }
        let ghost input = self.input@;
        let ghost pos = self.position as int;
        let start = self.position;
        let head = self.input[self.position];
        self.position += 1;

        let major = (head & 0xE0) >> 5;
        let info = head & 0x1F;
        assert(major == head / 32 && info == head % 32) by (bit_vector)
            requires
                major == (head & 0xE0) >> 5,
                info == head & 0x1F,
        ;

        let (len, _is_indefinite) = match self.read_len(info) {
            Some(x) => x,
            None => {
                return None;
            },
        };
        let ghost q = self.position as int;
        let mut children: Vec<ParsedCbor> = Vec::new();
        proof {
            lemma_read_len_bounds(input, pos + 1, info);
            assert(ParsedCbor::shapes(children@) =~= Seq::<ItemShape>::empty());
        }

        match major {
            0 | 1 => {},
            2 | 3 => {
                if len == u64::MAX {
                    if !self.parse_until_break(&mut children, 1) {
                        return None;
                    }
                    proof {
                        lemma_until_bounds(input, q, 1);
                    }
                } else {
                    if len > (self.input.len() - self.position) as u64 {
                        self.position = self.input.len();
                        self.overrun = true;
                        return None;
                    }
                    self.position += len as usize;
                }
            },
            4 => {
                // Array
                if len == u64::MAX {
                    if !self.parse_until_break(&mut children, 1) {
                        return None;
                    }
                    proof {
                        lemma_until_bounds(input, q, 1);
                    }
                } else {
                    if !self.parse_counted(&mut children, len, 1) {
                        return None;
                    }
                    proof {
                        lemma_items_bounds(input, q, 1 * (len as nat));
                    }
                }
            },
            5 => {
                // Map
                if len == u64::MAX {
                    if !self.parse_until_break(&mut children, 2) {
                        return None;
                    }
                    proof {
                        lemma_until_bounds(input, q, 2);
                    }
                } else {
                    if !self.parse_counted(&mut children, len, 2) {
                        return None;
                    }
                    proof {
                        lemma_items_bounds(input, q, 2 * (len as nat));
                    }
                }
            },
            6 => {
                // Tag
                proof {
                    lemma_item_bounds(input, q);
                }
                match self.parse_item() {
                    Some(child) => {
                        children.push(child);
                        proof {
                            lemma_shapes_push(Seq::empty(), child);
                            assert(children@ =~= Seq::<ParsedCbor>::empty().push(child));
                        }
                    },
                    None => {},
                }
                if self.overrun {
                    return None;
                }
            },
            7 => {},
            _ => {
                return None;
            },
        }

        let end = self.position;
        let slice = &self.input[start..end];
        let value = match decode_value(slice) {
            Some(v) => v,
            None => {
                return None;
            },
        };
        proof {
            assert(slice@ =~= input.subrange(pos, end as int));
        }
        Some(ParsedCbor { value, range: start..end, children })
    }

    /// Parses groups of `k` items until a break byte is next, appending them
    /// to `children`, and consumes the break. Gives `false` when an item fails.
    fn parse_until_break(&mut self, children: &mut Vec<ParsedCbor>, k: u8) -> (ok: bool)
        requires
            old(self).wf(),
            !old(self).overrun,
            k == 1 || k == 2,
        ensures
            final(self).wf(),
            final(self).input == old(self).input,
            match spec_until_break(old(self).input@, old(self).position as int, k as nat) {
                RunOutcome::Fail(f) => !ok && final(self).at(f),
                RunOutcome::Done(cs, e) => ok && final(self).at(e) && ParsedCbor::shapes(
                    final(children)@,
                ) == ParsedCbor::shapes(old(children)@) + cs,
            },
        decreases old(self).input@.len() - old(self).position, 1int,
    {
        let ghost input = self.input@;
        let ghost p0 = self.position as int;
        let ghost c0 = ParsedCbor::shapes(children@);
        proof {
            assert(c0 + Seq::<ItemShape>::empty() =~= c0);
        }
        while !self.at_break()
            invariant
                self.wf(),
                self.input == old(self).input,
                self.input@ == input,
                !self.overrun,
                p0 <= self.position,
                p0 == old(self).position,
                k == 1 || k == 2,
                prefix_run(c0, spec_until_break(input, p0, k as nat)) == prefix_run(
                    ParsedCbor::shapes(children@),
                    spec_until_break(input, self.position as int, k as nat),
                ),
            decreases input.len() - self.position,
        {
            let ghost p = self.position as int;
            let ghost before = ParsedCbor::shapes(children@);
            proof {
                lemma_item_bounds(input, p);
            }
            let first = self.parse_item();
            let ghost e1 = self.position as int;
            match first {
                Some(c) => {
                    proof {
                        lemma_shapes_push(children@, c);
                    }
                    children.push(c);
                },
                None => {
                    proof {
                        lemma_first_fails(input, p, k as nat);
                    }
                    return false;
                },
            }
            let ghost it1 = children@.last().shape();
            if k == 2 {
                proof {
                    lemma_item_bounds(input, e1);
                }
                let second = self.parse_item();
                match second {
                    Some(c) => {
                        proof {
                            lemma_shapes_push(children@, c);
                        }
                        children.push(c);
                    },
                    None => {
                        proof {
                            assert(spec_items(input, p, 2) == prefix_run(seq![it1], spec_items(input, e1, 1)));
                        }
                        return false;
                    },
                }
                proof {
                    let it2 = children@.last().shape();
                    let e2 = self.position as int;
                    assert(spec_items(input, e2, 0) == RunOutcome::Done(Seq::empty(), e2));
                    assert(spec_items(input, e1, 1) == RunOutcome::Done(seq![it2], e2)) by {
                        assert(seq![it2] + Seq::<ItemShape>::empty() =~= seq![it2]);
                    }
                    assert(spec_items(input, p, 2) == RunOutcome::Done(seq![it1, it2], e2)) by {
                        assert(seq![it1] + seq![it2] =~= seq![it1, it2]);
                    }
                    lemma_prefix_assoc(before, seq![it1, it2], spec_until_break(input, e2, 2));
                    assert(before + seq![it1, it2] =~= before.push(it1).push(it2));
                }
            } else {
                proof {
                    assert(spec_items(input, e1, 0) == RunOutcome::Done(Seq::empty(), e1));
                    assert(spec_items(input, p, 1) == RunOutcome::Done(seq![it1], e1)) by {
                        assert(seq![it1] + Seq::<ItemShape>::empty() =~= seq![it1]);
                    }
                    lemma_prefix_assoc(before, seq![it1], spec_until_break(input, e1, 1));
                    assert(before + seq![it1] =~= before.push(it1));
                }
            }
        }
        proof {
            let here = ParsedCbor::shapes(children@);
            assert(here + Seq::<ItemShape>::empty() =~= here);
        }
        self.position += 1;
        true
    }

    /// Parses `count` groups of `k` items, appending them to `children`.
    /// Gives `false` when an item fails.
    fn parse_counted(&mut self, children: &mut Vec<ParsedCbor>, count: u64, k: u8) -> (ok: bool)
        requires
            old(self).wf(),
            !old(self).overrun,
            k == 1 || k == 2,
        ensures
            final(self).wf(),
            final(self).input == old(self).input,
            match spec_items(old(self).input@, old(self).position as int, (k as nat) * (count as nat)) {
                RunOutcome::Fail(f) => !ok && final(self).at(f),
                RunOutcome::Done(cs, e) => ok && final(self).at(e) && ParsedCbor::shapes(
                    final(children)@,
                ) == ParsedCbor::shapes(old(children)@) + cs,
            },
        decreases old(self).input@.len() - old(self).position, 1int,
    {
        let ghost input = self.input@;
        let ghost p0 = self.position as int;
        let ghost c0 = ParsedCbor::shapes(children@);
        let mut i: u64 = 0;
        while i < count
            invariant
                self.wf(),
                self.input == old(self).input,
                self.input@ == input,
                !self.overrun,
                p0 <= self.position,
                p0 == old(self).position,
                k == 1 || k == 2,
                i <= count,
                prefix_run(c0, spec_items(input, p0, (k as nat) * (count as nat))) == prefix_run(
                    ParsedCbor::shapes(children@),
                    spec_items(input, self.position as int, (k as nat) * ((count - i) as nat)),
                ),
            decreases count - i,
        {
            let ghost p = self.position as int;
            let ghost m: nat = (k as nat) * ((count - i) as nat);
            let ghost before = ParsedCbor::shapes(children@);
            proof {
                lemma_item_bounds(input, p);
                assert(m >= k) by (nonlinear_arith)
                    requires
                        m == (k as nat) * ((count - i) as nat),
                        i < count,
                ;
                assert((k as nat) * ((count - (i + 1)) as nat) == m - k) by (nonlinear_arith)
                    requires
                        m == (k as nat) * ((count - i) as nat),
                        i < count,
                ;
            }
            let first = self.parse_item();
            let ghost e1 = self.position as int;
            match first {
                Some(c) => {
                    proof {
                        lemma_shapes_push(children@, c);
                    }
                    children.push(c);
                },
                None => {
                    proof {
                        lemma_first_fails(input, p, k as nat);
                    }
                    return false;
                },
            }
            let ghost it1 = children@.last().shape();
            proof {
                lemma_prefix_assoc(before, seq![it1], spec_items(input, e1, (m - 1) as nat));
                assert(before + seq![it1] =~= before.push(it1));
            }
            if k == 2 {
                let ghost mid = ParsedCbor::shapes(children@);
                proof {
                    lemma_item_bounds(input, e1);
                }
                let second = self.parse_item();
                let ghost e2 = self.position as int;
                match second {
                    Some(c) => {
                        proof {
                            lemma_shapes_push(children@, c);
                        }
                        children.push(c);
                    },
                    None => {
                        return false;
                    },
                }
                proof {
                    let it2 = children@.last().shape();
                    lemma_prefix_assoc(mid, seq![it2], spec_items(input, e2, (m - 2) as nat));
                    assert(mid + seq![it2] =~= mid.push(it2));
                }
            }
            i += 1;
        }
        proof {
            let here = ParsedCbor::shapes(children@);
            assert(here + Seq::<ItemShape>::empty() =~= here);
        }
        true
    }

    /// The argument of an item head (`u64::MAX` for an indefinite length),
    /// and whether it is indefinite; consumes the bytes that hold it.
    fn read_len(&mut self, info: u8) -> (r: Option<(u64, bool)>)
        requires
            old(self).wf(),
            !old(self).overrun,
        ensures
            final(self).wf(),
            final(self).input == old(self).input,
            !final(self).overrun,
            match spec_read_len(old(self).input@, old(self).position as int, info) {
                None => r is None && final(self).position == old(self).position,
                Some((len, q)) => r == Some((len, info == 31)) && final(self).position == q,
            },
    {
        proof {
            reveal_with_fuel(be_number, 9);
        }
        if info <= 23 {
            Some((info as u64, false))
        } else if info == 24 {
            match self.read_u8() {
                Some(v) => Some((v as u64, false)),
                None => None,
            }
        } else if info == 25 {
            match self.read_u16() {
                Some(v) => Some((v as u64, false)),
                None => None,
            }
        } else if info == 26 {
            match self.read_u32() {
                Some(v) => Some((v as u64, false)),
                None => None,
            }
        } else if info == 27 {
            match self.read_u64() {
                Some(v) => Some((v, false)),
                None => None,
            }
        } else if info == 31 {
            Some((u64::MAX, true))
        } else {
            None
        }
    }

    fn read_u8(&mut self) -> (r: Option<u8>)
        requires
            old(self).wf(),
            !old(self).overrun,
        ensures
            final(self).input == old(self).input,
            !final(self).overrun,
            final(self).wf(),
            old(self).position + 1 <= old(self).input@.len() ==> r == Some(
                be_number(old(self).input@, old(self).position as int, 1) as u8,
            ) && final(self).position == old(self).position + 1,
            old(self).position + 1 > old(self).input@.len() ==> r is None && final(self).position
                == old(self).position,
    {
        if self.position < self.input.len() {
            let b = self.input[self.position];
            self.position += 1;
            proof {
                reveal_with_fuel(be_number, 2);
            }
            Some(b)
        } else {
            None
        }
    }

    fn read_u16(&mut self) -> (r: Option<u16>)
        requires
            old(self).wf(),
            !old(self).overrun,
        ensures
            final(self).input == old(self).input,
            !final(self).overrun,
            final(self).wf(),
            old(self).position + 2 <= old(self).input@.len() ==> r == Some(
                be_number(old(self).input@, old(self).position as int, 2) as u16,
            ) && final(self).position == old(self).position + 2,
            old(self).position + 2 > old(self).input@.len() ==> r is None && final(self).position
                == old(self).position,
    {
        if self.input.len() - self.position >= 2 {
            let p = self.position;
            let v = (self.input[p] as u16) * 256 + (self.input[p + 1] as u16);
            self.position += 2;
            proof {
                reveal_with_fuel(be_number, 3);
            }
            Some(v)
        } else {
            None
        }
    }

    fn read_u32(&mut self) -> (r: Option<u32>)
        requires
            old(self).wf(),
            !old(self).overrun,
        ensures
            final(self).input == old(self).input,
            !final(self).overrun,
            final(self).wf(),
            old(self).position + 4 <= old(self).input@.len() ==> r == Some(
                be_number(old(self).input@, old(self).position as int, 4) as u32,
            ) && final(self).position == old(self).position + 4,
            old(self).position + 4 > old(self).input@.len() ==> r is None && final(self).position
                == old(self).position,
    {
        if self.input.len() - self.position >= 4 {
            let p = self.position;
            let mut v: u32 = self.input[p] as u32;
            v = v * 256 + self.input[p + 1] as u32;
            v = v * 256 + self.input[p + 2] as u32;
            v = v * 256 + self.input[p + 3] as u32;
            self.position += 4;
            proof {
                reveal_with_fuel(be_number, 5);
            }
            Some(v)
        } else {
            None
        }
    }

    fn read_u64(&mut self) -> (r: Option<u64>)
        requires
            old(self).wf(),
            !old(self).overrun,
        ensures
            final(self).input == old(self).input,
            !final(self).overrun,
            final(self).wf(),
            old(self).position + 8 <= old(self).input@.len() ==> r == Some(
                be_number(old(self).input@, old(self).position as int, 8) as u64,
            ) && final(self).position == old(self).position + 8,
            old(self).position + 8 > old(self).input@.len() ==> r is None && final(self).position
                == old(self).position,
    {
        if self.input.len() - self.position >= 8 {
            let p = self.position;
            let mut v: u64 = self.input[p] as u64;
            v = v * 256 + self.input[p + 1] as u64;
            v = v * 256 + self.input[p + 2] as u64;
            v = v * 256 + self.input[p + 3] as u64;
            v = v * 256 + self.input[p + 4] as u64;
            v = v * 256 + self.input[p + 5] as u64;
            v = v * 256 + self.input[p + 6] as u64;
            v = v * 256 + self.input[p + 7] as u64;
            self.position += 8;
            proof {
                reveal_with_fuel(be_number, 9);
            }
            Some(v)
        } else {
            None
        }
    }

    fn peek_byte(&self) -> (r: Option<u8>)
        ensures
            self.position < self.input@.len() ==> r == Some(self.input@[self.position as int]),
            self.position >= self.input@.len() ==> r is None,
    {
        if self.position < self.input.len() {
            Some(self.input[self.position])
        } else {
            None
        }
    }

    fn at_break(&self) -> (r: bool)
        ensures
            r == (self.position < self.input@.len() && self.input@[self.position as int] == 0xFF),
    {
        match self.peek_byte() {
            Some(b) => b == 0xFF,
            None => false,
        }
    }
}

/// The items follow one another with no byte between them, from `lo` to
/// `hi`.
pub open spec fn back_to_back(cs: Seq<ItemShape>, lo: int, hi: int) -> bool
    decreases cs.len(),
{
    if cs.len() == 0 {
        lo == hi
    } else {
        cs[0].start == lo && back_to_back(cs.drop_first(), cs[0].end, hi)
    }
}

/// Every item is the one the parser reads where it starts.
pub open spec fn each_parses_where_it_starts(input: Seq<u8>, cs: Seq<ItemShape>) -> bool {
    forall|i: int| 0 <= i < cs.len() ==> spec_item(input, (#[trigger] cs[i]).start) == ItemOutcome::Done(cs[i])
}

proof fn lemma_back_to_back_concat(a: Seq<ItemShape>, b: Seq<ItemShape>, lo: int, m: int, hi: int)
    requires
        back_to_back(a, lo, m),
        back_to_back(b, m, hi),
    ensures
        back_to_back(a + b, lo, hi),
    decreases a.len(),
{
    if a.len() == 0 {
        assert(a + b =~= b);
    } else {
        lemma_back_to_back_concat(a.drop_first(), b, a[0].end, m, hi);
        assert((a + b).drop_first() =~= a.drop_first() + b);
        assert((a + b)[0] == a[0]);
    }
}

/// A run of `n` items is `n` items back to back, each read where it
/// starts.
proof fn lemma_items_back_to_back(input: Seq<u8>, pos: int, n: nat)
    requires
        0 <= pos,
    ensures
        spec_items(input, pos, n) matches RunOutcome::Done(cs, e) ==> cs.len() == n && back_to_back(cs, pos, e)
            && each_parses_where_it_starts(input, cs),
    decreases n,
{
    if n > 0 {
        lemma_item_bounds(input, pos);
        if let ItemOutcome::Done(it) = spec_item(input, pos) {
            if pos < it.end <= input.len() {
                lemma_items_back_to_back(input, it.end, (n - 1) as nat);
                if let RunOutcome::Done(rest, e) = spec_items(input, it.end, (n - 1) as nat) {
                    let cs = seq![it] + rest;
                    assert(cs.drop_first() =~= rest);
                    assert(cs[0] == it);
                    assert forall|i: int| 0 <= i < cs.len() implies spec_item(input, (#[trigger] cs[i]).start)
                        == ItemOutcome::Done(cs[i]) by {
                        if i > 0 {
                            assert(cs[i] == rest[i - 1]);
                        }
                    }
                }
            }
        }
    }
}

/// A run read until a break is whole groups of `k` items back to back,
/// each read where it starts, followed by the break byte.
proof fn lemma_until_back_to_back(input: Seq<u8>, pos: int, k: nat)
    requires
        0 <= pos,
        k >= 1,
    ensures
        spec_until_break(input, pos, k) matches RunOutcome::Done(cs, e) ==> {
            &&& back_to_back(cs, pos, e - 1)
            &&& 0 <= e - 1 < input.len() && input[e - 1] == 0xFF
            &&& cs.len() % k == 0
            &&& each_parses_where_it_starts(input, cs)
        },
    decreases input.len() - pos,
{
    if 0 <= pos < input.len() && input[pos] == 0xFF {
        assert(0nat % k == 0) by (nonlinear_arith)
            requires
                k >= 1,
        ;
    } else {
        lemma_items_back_to_back(input, pos, k);
        if let RunOutcome::Done(g, e1) = spec_items(input, pos, k) {
            if pos < e1 <= input.len() {
                lemma_until_back_to_back(input, e1, k);
                if let RunOutcome::Done(rest, e2) = spec_until_break(input, e1, k) {
                    lemma_back_to_back_concat(g, rest, pos, e1, e2 - 1);
                    let cs = g + rest;
                    assert forall|i: int| 0 <= i < cs.len() implies spec_item(input, (#[trigger] cs[i]).start)
                        == ItemOutcome::Done(cs[i]) by {
                        if i < g.len() {
                            assert(cs[i] == g[i]);
                        } else {
                            assert(cs[i] == rest[i - g.len()]);
                        }
                    }
                    assert(cs.len() == k + rest.len());
                    assert((k + rest.len()) % k == 0) by (nonlinear_arith)
                        requires
                            k >= 1,
                            rest.len() % k == 0,
                    ;
                }
            }
        }
    }
}

/// An item's nested items are what its head announces: a definite array
/// has as many elements as its length says and a definite map twice as many
/// (keys and values), back to back after the head up to the item's end; an
/// indefinite array, map or string has its elements (or pairs, or pieces)
/// back to back after the head up to the break byte that ends it; a tag
/// holds at most the one item it tags; any other item holds none. Each
/// nested item is the one the parser reads where it starts.
pub proof fn law_items_hold_their_elements(input: Seq<u8>, pos: int)
    requires
        0 <= pos,
    ensures
        spec_item(input, pos) matches ItemOutcome::Done(it) ==> {
            let major = input[pos] / 32;
            let info = input[pos] % 32;
            &&& each_parses_where_it_starts(input, it.children)
            &&& spec_read_len(input, pos + 1, info) matches Some((len, q)) && {
                &&& (major <= 1 || major == 7) ==> it.children.len() == 0
                &&& (major == 2 || major == 3) && len != u64::MAX ==> it.children.len() == 0
                &&& (2 <= major <= 5 && len == u64::MAX) ==> {
                    &&& back_to_back(it.children, q, it.end - 1)
                    &&& input[it.end - 1] == 0xFF
                    &&& major == 5 ==> it.children.len() % 2 == 0
                }
                &&& (major == 4 && len != u64::MAX) ==> it.children.len() == len && back_to_back(it.children, q, it.end)
                &&& (major == 5 && len != u64::MAX) ==> it.children.len() == 2 * len && back_to_back(
                    it.children,
                    q,
                    it.end,
                )
                &&& major == 6 ==> it.children.len() <= 1
            }
        },
{
    if 0 <= pos < input.len() {
        let head = input[pos];
        let major = head / 32;
        let info = head % 32;
        let p = pos + 1;
        lemma_read_len_bounds(input, p, info);
        if let Some((len, q)) = spec_read_len(input, p, info) {
            if 2 <= major <= 3 && len == u64::MAX {
                lemma_until_back_to_back(input, q, 1);
            } else if major == 4 || major == 5 {
                let k: nat = if major == 4 { 1 } else { 2 };
                if len == u64::MAX {
                    lemma_until_back_to_back(input, q, k);
                } else {
                    lemma_items_back_to_back(input, q, k * (len as nat));
                }
            } else if major == 6 {
                lemma_item_bounds(input, q);
                if let ItemOutcome::Done(c) = spec_item(input, q) {
                    assert(seq![c][0] == c);
                }
            }
        }
    }
}

} // verus!
