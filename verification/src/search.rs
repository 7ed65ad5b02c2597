//! Searching the tree for text, and going to a byte offset.
use vstd::prelude::*;
use crate::app::{
    App,
    hex_scroll_fits,
    Focus,
    PopupMode,
    hex_scroll,
    hex_scroll_ok,
    hex_scrolled,
    hex_synced,
    sat_sub,
    tree_scroll_fits,
    tree_scroll,
    tree_view,
};
use crate::cbor_tree::{CborNode, NodeView, all_nodes, expand_path, flat, refs_view};
use crate::scanner::{char_is_whitespace, is_whitespace};
use crate::text::{decimal, hex_lower, hex_upper, str_chars};

verus! {

/// What `str::to_lowercase` makes of a text (Unicode lower-case mapping).
pub uninterp spec fn lowercase(s: Seq<char>) -> Seq<char>;

/// `str::to_lowercase`: the text with every character mapped to lower case
/// by Unicode's rules; the result is named, not stated.
#[verifier::external_body]
pub(crate) fn to_lowercase(s: &str) -> (r: String)
    ensures
        r@ == lowercase(s@),
{
    s.to_lowercase()
}

/// `needle` occurs in `hay` (the empty text occurs everywhere).
pub open spec fn has_sub(hay: Seq<char>, needle: Seq<char>) -> bool {
    exists|i: int|
        0 <= i && i + needle.len() <= hay.len() && #[trigger] hay.subrange(i, i + needle.len()) == needle
}

/// Whether `needle` occurs in `hay`.
pub fn contains_text(hay: &str, needle: &str) -> (r: bool)
    ensures
        r == has_sub(hay@, needle@),
{
    let h = str_chars(hay);
    let n = str_chars(needle);
    let hl = h.len();
    let nl = n.len();
    if nl > hl {
        proof {
            assert forall|i: int| 0 <= i && i + nl <= hl implies #[trigger] h@.subrange(i, i + nl) != n@ by {}
        }
        return false;
    }
    let mut i: usize = 0;
    while i <= hl - nl
        invariant
            h@ == hay@,
            n@ == needle@,
            hl == h@.len(),
            nl == n@.len(),
            nl <= hl,
            0 <= i <= hl - nl + 1,
            forall|k: int| 0 <= k < i ==> #[trigger] h@.subrange(k, k + nl) != n@,
        decreases hl - nl + 1 - i,
    {
        let mut j: usize = 0;
        let mut same = true;
        while j < nl && same
            invariant
                h@ == hay@,
                n@ == needle@,
                hl == h@.len(),
                nl == n@.len(),
                i + nl <= hl,
                0 <= j <= nl,
                same == forall|m: int| 0 <= m < j ==> h@[i + m] == n@[m],
            decreases nl - j,
        {
            if h[i + j] != n[j] {
                same = false;
            }
            j += 1;
        }
        if same {
            proof {
                assert(h@.subrange(i as int, i + nl) =~= n@);
            }
            return true;
        }
        proof {
            let m = choose|m: int| 0 <= m < j && h@[i + m] != n@[m];
            assert(h@.subrange(i as int, i + nl)[m] != n@[m]);
        }
        i += 1;
    }
    false
}

/// A node matches a query (given in lower case) when its key, preview or
/// full text holds it, in lower case.
pub open spec fn node_matches(n: NodeView, query: Seq<char>) -> bool {
    ||| (n.key is Some && has_sub(lowercase(n.key->0), query))
    ||| has_sub(lowercase(n.value_preview), query)
    ||| has_sub(lowercase(n.full_value), query)
}

/// The positions a search visits among `len` nodes, starting next to
/// position `cur`: forward from `cur + 1` round to `cur`, or backward from
/// `cur - 1` round to `cur`.
pub open spec fn search_order(len: int, cur: int, forward: bool) -> Seq<int> {
    if forward {
        Seq::new(sat_sub(len, cur + 1) as nat, |k: int| cur + 1 + k) + Seq::new(
            (if cur + 1 <= len {
                cur + 1
            } else {
                len
            }) as nat,
            |k: int| k,
        )
    } else {
        Seq::new(cur as nat, |k: int| cur - 1 - k) + Seq::new(
            sat_sub(len, cur) as nat,
            |k: int| len - 1 - k,
        )
    }
}

/// The first position in `order` whose node matches.
pub open spec fn first_match(nodes: Seq<NodeView>, query: Seq<char>, order: Seq<int>) -> Option<int>
    decreases order.len(),
{
    if order.len() == 0 {
        None
    } else if node_matches(nodes[order[0]], query) {
        Some(order[0])
    } else {
        first_match(nodes, query, order.drop_first())
    }
}

/// The first position whose node starts at byte `start`, if any.
pub open spec fn first_with_start(nodes: Seq<NodeView>, start: int) -> Option<int>
    decreases nodes.len(),
{
    if nodes.len() == 0 {
        None
    } else if nodes[0].start == start {
        Some(0)
    } else {
        match first_with_start(nodes.drop_first(), start) {
            Some(i) => Some(i + 1),
            None => None,
        }
    }
}

/// The first byte of the node a search finds in `app`, if any.
pub open spec fn search_hit(app: App, query: Seq<char>, forward: bool) -> Option<int> {
    match tree_view(app.tree) {
        None => None,
        Some(v) => {
            let all = all_nodes(v);
            let start = match app.selected() {
                Some(n) => n.start,
                None => 0,
            };
            let cur = match first_with_start(all, start) {
                Some(i) => i,
                None => 0,
            };
            match first_match(all, lowercase(query), search_order(all.len() as int, cur, forward)) {
                Some(i) => Some(all[i].start),
                None => None,
            }
        },
    }
}

/// Where a search leaves the tree and the selection: the tree expanded
/// along the path to the node found, and the first visible node that
/// starts where it does selected (the selection stays if none does).
pub open spec fn search_result(app: App, query: Seq<char>, forward: bool) -> Option<(NodeView, int)> {
    match search_hit(app, query, forward) {
        Some(off) => {
            let w = expand_path(tree_view(app.tree)->0, off);
            let sel = match first_with_start(flat(w), off) {
                Some(i) => i,
                None => app.tree_selected as int,
            };
            Some((w, sel))
        },
        None => None,
    }
}

/// The tree view can be scrolled to where a search leaves the selection.
pub open spec fn search_fits(a: App, query: Seq<char>, forward: bool) -> bool {
    search_result(a, query, forward) matches Some((_, sel)) ==> tree_scroll_fits(
        sel,
        a.tree_offset as int,
        a.visible_tree_height as int,
    )
}

/// `b` is `a` after a search for `query`: the node found is shown and
/// selected, with the focus on the tree; or an error says nothing was
/// found.
pub open spec fn search_done(a: App, b: App, query: Seq<char>, forward: bool) -> bool {
    match search_result(a, query, forward) {
        Some((w, sel)) => {
            &&& tree_view(b.tree) == Some(w)
            &&& b == (App {
                tree: b.tree,
                tree_selected: sel as usize,
                focus: Focus::Tree,
                tree_offset: tree_scroll(sel, a.tree_offset as int, a.visible_tree_height as int) as usize,
                search_error: None,
                ..a
            })
        },
        None => {
            &&& b.search_error matches Some(e) && e@ == seq!['\''] + query + "' not found"@
            &&& b == (App { search_error: b.search_error, ..a })
        },
    }
}

proof fn lemma_first_with_start(nodes: Seq<NodeView>, start: int, k: int)
    requires
        0 <= k <= nodes.len(),
        forall|j: int| 0 <= j < k ==> (#[trigger] nodes[j]).start != start,
    ensures
        first_with_start(nodes, start) == (match first_with_start(nodes.skip(k), start) {
            Some(i) => Some(i + k),
            None => None::<int>,
        }),
    decreases k,
{
    if k > 0 {
        let d = nodes.drop_first();
        assert forall|j: int| 0 <= j < k - 1 implies (#[trigger] d[j]).start != start by {
            assert(d[j] == nodes[j + 1]);
        }
        lemma_first_with_start(d, start, k - 1);
        assert(d.skip(k - 1) =~= nodes.skip(k));
    } else {
        assert(nodes.skip(0) =~= nodes);
    }
}

/// The first position whose node starts at byte `start`.
pub(crate) fn position_with_start(nodes: &Vec<&CborNode>, start: usize) -> (r: Option<usize>)
    ensures
        r matches Some(i) ==> i < nodes@.len(),
        match r {
            Some(i) => first_with_start(refs_view(nodes@), start as int) == Some(i as int),
            None => first_with_start(refs_view(nodes@), start as int) is None,
        },
{
    let ghost vs = refs_view(nodes@);
    let n = nodes.len();
    let mut i: usize = 0;
    while i < n
        invariant
            n == nodes@.len(),
            vs == refs_view(nodes@),
            0 <= i <= n,
            forall|j: int| 0 <= j < i ==> (#[trigger] vs[j]).start != start,
        decreases n - i,
    {
        if nodes[i].range.start == start {
            proof {
                lemma_first_with_start(vs, start as int, i as int);
                assert(vs.skip(i as int)[0] == vs[i as int]);
            }
            return Some(i);
        }
        i += 1;
    }
    proof {
        lemma_first_with_start(vs, start as int, n as int);
        assert(vs.skip(n as int).len() == 0);
    }
    None
}

/// Position `k` of the search order.
fn order_at(n: usize, cur: usize, forward: bool, k: usize) -> (r: usize)
    requires
        cur < n,
        k < n,
    ensures
        search_order(n as int, cur as int, forward).len() == n,
        r == search_order(n as int, cur as int, forward)[k as int],
        r < n,
{
    if forward {
        if k < n - (cur + 1) {
            cur + 1 + k
        } else {
            k - (n - cur - 1)
        }
    } else {
        if k < cur {
            cur - 1 - k
        } else {
            n - 1 - (k - cur)
        }
    }
}

proof fn lemma_first_match_step(nodes: Seq<NodeView>, q: Seq<char>, order: Seq<int>, k: int)
    requires
        0 <= k < order.len(),
        !node_matches(nodes[order[k]], q),
    ensures
        first_match(nodes, q, order.skip(k)) == first_match(nodes, q, order.skip(k + 1)),
{
    assert(order.skip(k).drop_first() =~= order.skip(k + 1));
    assert(order.skip(k)[0] == order[k]);
}

impl App {
    /// Whether a node matches a query given in lower case.
    pub fn node_matches_query(&self, node: &CborNode, query: &str) -> (r: bool)
        ensures
            r == node_matches(node@, query@),
    {
        if let Some(key) = &node.key {
            if contains_text(to_lowercase(key.as_str()).as_str(), query) {
                return true;
            }
        }
        if contains_text(to_lowercase(node.value_preview.as_str()).as_str(), query) {
            return true;
        }
        if contains_text(to_lowercase(node.full_value.as_str()).as_str(), query) {
            return true;
        }
        false
    }

    /// The first byte of the node a search finds, if any.
    pub(crate) fn search_hit_offset(&self, query: &str, forward: bool) -> (r: Option<usize>)
        ensures
            match r {
                Some(o) => search_hit(*self, query@, forward) == Some(o as int),
                None => search_hit(*self, query@, forward) is None,
            },
    {
        let ghost q = lowercase(query@);
        let current_range_start = match self.get_selected_node() {
            Some(node) => node.range.start,
            None => 0,
        };
        match &self.tree {
            Some(tree) => {
                let all = tree.flatten_all();
                let ghost vs = refs_view(all@);
                let query_lower = to_lowercase(query);
                let n = all.len();
                let cur = match position_with_start(&all, current_range_start) {
                    Some(i) => i,
                    None => 0,
                };
                let ghost order = search_order(n as int, cur as int, forward);
                let mut result: Option<usize> = None;
                if n > 0 {
                    let mut k: usize = 0;
                    proof {
                        assert(order.skip(0) =~= order);
                        assert(order.len() == n);
                    }
                    while k < n && result.is_none()
                        invariant
                            n == all@.len(),
                            vs == refs_view(all@),
                            cur < n,
                            order == search_order(n as int, cur as int, forward),
                            order.len() == n,
                            query_lower@ == q,
                            0 <= k <= n,
                            result is None ==> first_match(vs, q, order) == first_match(vs, q, order.skip(k as int)),
                            result matches Some(st) ==> (first_match(vs, q, order) matches Some(i) && st == vs[i].start),
                        decreases n - k + if result is None { 1int } else { 0int },
                    {
                        let i = order_at(n, cur, forward, k);
                        let node = all[i];
                        proof {
                            assert(vs[i as int] == node@);
                        }
                        if self.node_matches_query(node, query_lower.as_str()) {
                            proof {
                                assert(order.skip(k as int)[0] == order[k as int]);
                            }
                            result = Some(node.range.start);
                        } else {
                            proof {
                                lemma_first_match_step(vs, q, order, k as int);
                            }
                            k += 1;
                        }
                    }
                    proof {
                        if result is None {
                            assert(order.skip(n as int).len() == 0);
                        }
                    }
                } else {
                    proof {
                        assert(order.len() == 0);
                    }
                }
                result
            },
            None => None,
        }
    }

    /// Finds the next (or previous) node, round from the selected one, whose
    /// key, preview or full text holds `query` in lower case; shows it, or
    /// reports that nothing was found.
    #[verifier::rlimit(40)]
    pub fn execute_search(&mut self, query: &str, forward: bool)
        requires
            search_fits(*old(self), query@, forward),
        ensures
            search_done(*old(self), *final(self), query@, forward),
    {
        let found = self.search_hit_offset(query, forward);
        match found {
            Some(offset) => {
                match &mut self.tree {
                    Some(tree) => {
                        tree.expand_path_to_offset(offset);
                        let pos = {
                            let flat_nodes = tree.flatten();
                            position_with_start(&flat_nodes, offset)
                        };
                        if let Some(new_idx) = pos {
                            self.tree_selected = new_idx;
                        }
                    },
                    None => {},
                }
                self.focus = Focus::Tree;
                self.adjust_tree_scroll();
                self.search_error = None;
            },
            None => {
                let mut msg = String::new();
                msg.push('\'');
                msg.push_str(query);
                msg.push_str("' not found");
                proof {
                    assert(Seq::<char>::empty().push('\'') =~= seq!['\'']);
                }
                self.search_error = Some(msg);
            },
        }
    }
}

/// The value of a digit character: `0`-`9`, then `a`-`z` or `A`-`Z` for
/// ten to thirty-five.
pub open spec fn digit_of(c: char) -> Option<nat> {
    if '0' <= c <= '9' {
        Some((c as int - 48) as nat)
    } else if 'a' <= c <= 'z' {
        Some((c as int - 87) as nat)
    } else if 'A' <= c <= 'Z' {
        Some((c as int - 55) as nat)
    } else {
        None
    }
}

/// The number the digits spell in base `radix`, or `None` when a character
/// is not a digit of that base.
pub open spec fn digits_value(cs: Seq<char>, radix: nat) -> Option<nat>
    decreases cs.len(),
{
    if cs.len() == 0 {
        Some(0)
    } else {
        match (digits_value(cs.drop_last(), radix), digit_of(cs.last())) {
            (Some(v), Some(d)) => if d < radix {
                Some(v * radix + d)
            } else {
                None
            },
            _ => None,
        }
    }
}

/// An unsigned number in base `radix`: an optional `+` and at least one
/// digit, with a value of at most `max`.
pub open spec fn parse_number(cs: Seq<char>, radix: nat, max: int) -> Option<nat> {
    let ds = if cs.len() > 0 && cs[0] == '+' {
        cs.drop_first()
    } else {
        cs
    };
    if ds.len() == 0 {
        None
    } else {
        match digits_value(ds, radix) {
            Some(v) => if v <= max {
                Some(v)
            } else {
                None
            },
            None => None,
        }
    }
}

/// An unsigned number in base `radix` that fits in `usize`.
pub open spec fn parse_unsigned(cs: Seq<char>, radix: nat) -> Option<nat> {
    parse_number(cs, radix, usize::MAX as int)
}

/// `usize::from_str_radix`: an optional `+` followed by digits of the base
/// (`0`-`9`, `a`-`z`, `A`-`Z`); an error for an empty text, any other
/// character, or a value that does not fit.
#[verifier::external_body]
fn usize_from_str_radix(s: &str, radix: u32) -> (r: Option<usize>)
    requires
        2 <= radix <= 36,
    ensures
        match r {
            Some(v) => parse_unsigned(s@, radix as nat) == Some(v as nat),
            None => parse_unsigned(s@, radix as nat) is None,
        },
{
    usize::from_str_radix(s, radix).ok()
}

/// `str::parse::<usize>`, which reads a decimal number as
/// `usize::from_str_radix` does with base ten.
#[verifier::external_body]
fn parse_usize(s: &str) -> (r: Option<usize>)
    ensures
        match r {
            Some(v) => parse_unsigned(s@, 10) == Some(v as nat),
            None => parse_unsigned(s@, 10) is None,
        },
{
    s.parse::<usize>().ok()
}

/// The text without its leading whitespace.
pub open spec fn trim_start(cs: Seq<char>) -> Seq<char>
    decreases cs.len(),
{
    if cs.len() > 0 && char_is_whitespace(cs[0]) {
        trim_start(cs.drop_first())
    } else {
        cs
    }
}

/// The text without its trailing whitespace.
pub open spec fn trim_end(cs: Seq<char>) -> Seq<char>
    decreases cs.len(),
{
    if cs.len() > 0 && char_is_whitespace(cs.last()) {
        trim_end(cs.drop_last())
    } else {
        cs
    }
}

/// The text without leading and trailing whitespace, as `str::trim` gives
/// it.
pub open spec fn trimmed(cs: Seq<char>) -> Seq<char> {
    trim_end(trim_start(cs))
}

/// The text with leading and trailing whitespace removed.
pub fn trim_text(s: &str) -> (r: String)
    ensures
        r@ == trimmed(s@),
{
    let cs = str_chars(s);
    let n = cs.len();
    let mut i: usize = 0;
    proof {
        assert(cs@.skip(0) =~= cs@);
    }
    while i < n && is_whitespace(cs[i])
        invariant
            cs@ == s@,
            n == cs@.len(),
            0 <= i <= n,
            trim_start(cs@) == trim_start(cs@.skip(i as int)),
        decreases n - i,
    {
        proof {
            assert(cs@.skip(i as int).drop_first() =~= cs@.skip(i + 1));
        }
        i += 1;
    }
    let ghost rest = cs@.skip(i as int);
    proof {
        assert(trim_start(rest) == rest);
    }
    let mut j: usize = n;
    proof {
        assert(rest.take(n - i) =~= rest);
    }
    while j > i && is_whitespace(cs[j - 1])
        invariant
            cs@ == s@,
            n == cs@.len(),
            0 <= i <= j <= n,
            rest == cs@.skip(i as int),
            trim_end(rest) == trim_end(rest.take(j - i)),
        decreases j,
    {
        proof {
            assert(rest.take(j - i).drop_last() =~= rest.take(j - i - 1));
            assert(rest.take(j - i).last() == cs@[j - 1]);
        }
        j -= 1;
    }
    proof {
        if j > i {
            assert(rest.take(j - i).last() == cs@[j - 1]);
        }
        assert(trim_end(rest.take(j - i)) == rest.take(j - i));
    }
    let mut r = String::new();
    let mut k: usize = i;
    while k < j
        invariant
            cs@ == s@,
            n == cs@.len(),
            0 <= i <= k <= j <= n,
            r@ == cs@.subrange(i as int, k as int),
        decreases j - k,
    {
        r.push(cs[k]);
        k += 1;
        proof {
            assert(r@ =~= cs@.subrange(i as int, k as int));
        }
    }
    proof {
        assert(r@ =~= rest.take(j - i));
    }
    r
}

/// The byte offset typed into the offset input: after trimming, `0x` or
/// `0X` and a hexadecimal number, or a decimal number.
pub open spec fn goto_target(input: Seq<char>) -> Option<nat> {
    let t = trimmed(input);
    if t.len() >= 2 && t[0] == '0' && (t[1] == 'x' || t[1] == 'X') {
        parse_unsigned(t.skip(2), 16)
    } else {
        parse_unsigned(t, 10)
    }
}

/// Reads the byte offset typed into the offset input.
pub fn parse_goto_offset(input: &str) -> (r: Option<usize>)
    ensures
        match r {
            Some(v) => goto_target(input@) == Some(v as nat),
            None => goto_target(input@) is None,
        },
{
    let t = trim_text(input);
    let cs = str_chars(t.as_str());
    if cs.len() >= 2 && cs[0] == '0' && (cs[1] == 'x' || cs[1] == 'X') {
        let mut rest = String::new();
        let mut k: usize = 2;
        while k < cs.len()
            invariant
                2 <= k <= cs@.len(),
                rest@ == cs@.subrange(2, k as int),
            decreases cs@.len() - k,
        {
            rest.push(cs[k]);
            k += 1;
            proof {
                assert(rest@ =~= cs@.subrange(2, k as int));
            }
        }
        proof {
            assert(rest@ =~= t@.skip(2));
        }
        usize_from_str_radix(rest.as_str(), 16)
    } else {
        parse_usize(t.as_str())
    }
}

/// The state `a` goes to when the offset input holds a valid offset `off`:
/// the focus on the hex view with its cursor there, and the tree following
/// it.
pub open spec fn goto_moved(a: App, off: int) -> App {
    hex_scrolled(App { focus: Focus::Hex, hex_selected: off as usize, ..a })
}

/// The hex view can be scrolled to the offset typed into the input, when
/// it is a valid one.
pub open spec fn goto_fits(a: App) -> bool {
    match goto_target(a.search_input@) {
        Some(off) => off < a.raw_bytes@.len() ==> hex_scroll_fits(
            off as int,
            a.hex_offset as int,
            a.visible_hex_height as int,
        ),
        None => true,
    }
}

/// `b` is `a` after the offset input is submitted: an empty input closes;
/// a valid offset moves the hex cursor there, the tree follows, and the
/// input closes; else an error says why.
pub open spec fn goto_submitted(a: App, b: App) -> bool {
    if a.search_input@.len() == 0 {
        b == (App { popups: PopupMode::Closed, search_error: None, ..a })
    } else {
        match goto_target(a.search_input@) {
            Some(off) => if off < a.raw_bytes@.len() {
                &&& hex_synced(
                    goto_moved(a, off as int),
                    App { popups: a.popups, search_error: a.search_error, ..b },
                )
                &&& b.popups == PopupMode::Closed
                &&& b.search_error is None
            } else {
                &&& b.search_error matches Some(e) && e@ == "Offset out of bounds"@
                &&& b == (App { search_error: b.search_error, ..a })
            },
            None => {
                &&& b.search_error matches Some(e) && e@ == "Invalid number"@
                &&& b == (App { search_error: b.search_error, ..a })
            },
        }
    }
}

/// `b` is `a` after the search input is submitted: an empty input closes;
/// else the text is remembered and searched forward, and the input closes
/// unless nothing was found.
pub open spec fn search_submitted(a: App, b: App) -> bool {
    if a.search_input@.len() == 0 {
        b == (App { popups: PopupMode::Closed, search_error: None, ..a })
    } else {
        let a1 = App { last_search_query: b.last_search_query, ..a };
        &&& b.last_search_query matches Some(q) && q@ == a.search_input@
        &&& search_done(a1, App { popups: a.popups, ..b }, a.search_input@, true)
        &&& b.popups == if b.search_error is None {
            PopupMode::Closed
        } else {
            a.popups
        }
    }
}

impl App {
    /// Goes to the byte offset typed into the offset input, or reports
    /// why it cannot.
    fn submit_goto(&mut self)
        requires
            old(self).search_input@.len() > 0 ==> goto_fits(*old(self)),
        ensures
            goto_submitted(*old(self), *final(self)),
    {
        if self.search_input.as_str().is_empty() {
            self.close_popup();
            return;
        }
        let offset = parse_goto_offset(self.search_input.as_str());
        match offset {
            Some(off) => {
                if off < self.raw_bytes.len() {
                    self.focus = Focus::Hex;
                    self.hex_selected = off;
                    self.adjust_hex_scroll();
                    self.update_tree_selection_from_hex();
                    self.close_popup();
                } else {
                    self.search_error = Some("Offset out of bounds".to_owned());
                }
            },
            None => {
                self.search_error = Some("Invalid number".to_owned());
            },
        }
    }

    /// Searches forward for the text typed into the search input and
    /// remembers it; closes the input unless nothing was found.
    fn submit_search(&mut self)
        requires
            old(self).search_input@.len() > 0 ==> search_fits(*old(self), old(self).search_input@, true),
        ensures
            search_submitted(*old(self), *final(self)),
    {
        if self.search_input.as_str().is_empty() {
            self.close_popup();
            return;
        }
        let query = self.search_input.clone();
        self.last_search_query = Some(query.clone());
        self.execute_search(query.as_str(), true);
        if self.search_error.is_none() {
            self.close_popup();
        }
    }

    /// Submits the search or offset input, whichever is open.
    pub fn submit_input(&mut self)
        requires
            old(self).popups == PopupMode::Search && old(self).search_input@.len() > 0 ==> search_fits(
                *old(self),
                old(self).search_input@,
                true,
            ),
            old(self).popups == PopupMode::GotoOffset && old(self).search_input@.len() > 0 ==> goto_fits(
                *old(self),
            ),
        ensures
            old(self).popups == PopupMode::Search ==> search_submitted(*old(self), *final(self)),
            old(self).popups == PopupMode::GotoOffset ==> goto_submitted(*old(self), *final(self)),
            !in_text_popup_mode(old(self).popups) ==> *final(self) == *old(self),
    {
        match self.popups {
            PopupMode::Search => self.submit_search(),
            PopupMode::GotoOffset => self.submit_goto(),
            _ => {},
        }
    }

    /// Searches forward again for the last query.
    pub fn find_next(&mut self)
        requires
            old(self).last_search_query matches Some(q) ==> search_fits(*old(self), q@, true),
        ensures
            match old(self).last_search_query {
                Some(q) => search_done(*old(self), *final(self), q@, true),
                None => *final(self) == *old(self),
            },
    {
        if let Some(query) = self.last_search_query.clone() {
            self.execute_search(query.as_str(), true);
        }
    }

    /// Searches backward again for the last query.
    pub fn find_previous(&mut self)
        requires
            old(self).last_search_query matches Some(q) ==> search_fits(*old(self), q@, false),
        ensures
            match old(self).last_search_query {
                Some(q) => search_done(*old(self), *final(self), q@, false),
                None => *final(self) == *old(self),
            },
    {
        if let Some(query) = self.last_search_query.clone() {
            self.execute_search(query.as_str(), false);
        }
    }
}

/// One of the popups that take typed input.
pub open spec fn in_text_popup_mode(p: PopupMode) -> bool {
    p == PopupMode::Search || p == PopupMode::GotoOffset
}


/// Trailing whitespace is trimmed from the end only: a text that does not
/// end in whitespace, followed by more, keeps all of itself.
proof fn lemma_trim_end_after(a: Seq<char>, b: Seq<char>)
    requires
        a.len() > 0,
        !char_is_whitespace(a.last()),
    ensures
        trim_end(a + b) == a + trim_end(b),
    decreases b.len(),
{
    if b.len() == 0 {
        assert(a + b =~= a);
        assert(a + trim_end(b) =~= a);
    } else {
        assert((a + b).last() == b.last());
        if char_is_whitespace(b.last()) {
            assert((a + b).drop_last() =~= a + b.drop_last());
            lemma_trim_end_after(a, b.drop_last());
        }
    }
}

/// A `0x` or `0X` prefix reads what follows as hexadecimal either way: the
/// two spellings go to the same offset, the number the rest spells in base
/// 16 (trailing whitespace trimmed).
pub proof fn law_goto_hex_prefix_in_either_case(h: Seq<char>)
    ensures
        goto_target(seq!['0', 'X'] + h) == goto_target(seq!['0', 'x'] + h),
        goto_target(seq!['0', 'x'] + h) == parse_unsigned(trim_end(h), 16),
{
    let up = seq!['0', 'X'];
    let low = seq!['0', 'x'];
    lemma_trim_end_after(up, h);
    lemma_trim_end_after(low, h);
    assert((up + h)[0] == '0');
    assert((low + h)[0] == '0');
    assert(trim_start(up + h) == up + h);
    assert(trim_start(low + h) == low + h);
    assert((up + trim_end(h)).skip(2) =~= trim_end(h));
    assert((low + trim_end(h)).skip(2) =~= trim_end(h));
}

/// A number of digits, neither starting nor ending in whitespace and not
/// starting with `+`, is read as the number it spells.
proof fn lemma_digits_parse(cs: Seq<char>, radix: nat, n: nat)
    requires
        cs.len() > 0,
        !char_is_whitespace(cs[0]),
        !char_is_whitespace(cs.last()),
        cs[0] != '+',
        digits_value(cs, radix) == Some(n),
        n <= usize::MAX,
    ensures
        trimmed(cs) == cs,
        parse_unsigned(cs, radix) == Some(n),
{
    assert(trim_start(cs) == cs);
    assert(trim_end(cs) == cs);
}

/// An offset shown in hexadecimal after `0x` (or in upper case after `0X`),
/// or in decimal, typed into the offset input, goes to that offset.
pub proof fn law_goto_reads_shown_offsets(n: nat)
    requires
        n <= usize::MAX,
    ensures
        goto_target(seq!['0', 'x'] + hex_lower(n)) == Some(n),
        goto_target(seq!['0', 'X'] + hex_upper(n)) == Some(n),
        goto_target(decimal(n)) == Some(n),
{
    crate::text::law_hex_lower_reads_back(n);
    crate::text::law_hex_upper_reads_back(n);
    crate::text::law_decimal_reads_back(n);
    let hl = hex_lower(n);
    let hu = hex_upper(n);
    let d = decimal(n);
    assert(hl[0] == hl[0] && ('0' <= hl[0] <= '9' || 'a' <= hl[0] <= 'f'));
    assert('0' <= hl[hl.len() - 1] <= '9' || 'a' <= hl[hl.len() - 1] <= 'f');
    assert('0' <= hu[0] <= '9' || 'A' <= hu[0] <= 'F');
    assert('0' <= hu[hu.len() - 1] <= '9' || 'A' <= hu[hu.len() - 1] <= 'F');
    assert('0' <= d[0] <= '9');
    assert('0' <= d[d.len() - 1] <= '9');
    law_goto_hex_prefix_in_either_case(hl);
    law_goto_hex_prefix_in_either_case(hu);
    lemma_digits_parse(hl, 16, n);
    lemma_digits_parse(hu, 16, n);
    lemma_digits_parse(d, 10, n);
    if n == 0 {
        assert(d.len() == 1);
    } else {
        assert(d[0] != '0');
    }
}


/// A node matches a search exactly when its lower-cased key, value preview
/// or full value holds the query: any of the three texts the tree shows
/// of it.
pub proof fn law_search_looks_at_key_preview_and_full_value(n: NodeView, q: Seq<char>)
    ensures
        n.key matches Some(k) && has_sub(lowercase(k), q) ==> node_matches(n, q),
        has_sub(lowercase(n.value_preview), q) ==> node_matches(n, q),
        has_sub(lowercase(n.full_value), q) ==> node_matches(n, q),
        node_matches(n, q) ==> (n.key matches Some(k) && has_sub(lowercase(k), q)) || has_sub(
            lowercase(n.value_preview),
            q,
        ) || has_sub(lowercase(n.full_value), q),
{
}

/// The first match in an order is a matching position of that order; none
/// is found only when no position of the order matches.
proof fn lemma_first_match(nodes: Seq<NodeView>, q: Seq<char>, order: Seq<int>)
    ensures
        match first_match(nodes, q, order) {
            Some(i) => node_matches(nodes[i], q) && order.contains(i),
            None => forall|k: int| 0 <= k < order.len() ==> !node_matches(nodes[#[trigger] order[k]], q),
        },
    decreases order.len(),
{
    if order.len() > 0 {
        lemma_first_match(nodes, q, order.drop_first());
        if node_matches(nodes[order[0]], q) {
            assert(order[0] == order[0]);
        } else {
            match first_match(nodes, q, order.drop_first()) {
                Some(i) => {
                    let k = choose|k: int| 0 <= k < order.drop_first().len() && order.drop_first()[k] == i;
                    assert(order[k + 1] == i);
                },
                None => {
                    assert forall|k: int| 0 <= k < order.len() implies !node_matches(nodes[#[trigger] order[k]], q) by {
                        if k > 0 {
                            assert(order[k] == order.drop_first()[k - 1]);
                        }
                    }
                },
            }
        }
    }
}

proof fn lemma_first_with_start_in(nodes: Seq<NodeView>, start: int)
    ensures
        first_with_start(nodes, start) matches Some(i) ==> 0 <= i < nodes.len(),
    decreases nodes.len(),
{
    if nodes.len() > 0 {
        lemma_first_with_start_in(nodes.drop_first(), start);
    }
}

/// A search visits every position, and only positions, of the nodes.
proof fn lemma_search_order_covers(len: int, cur: int, forward: bool)
    requires
        0 <= cur < len,
    ensures
        forall|j: int| 0 <= j < len ==> search_order(len, cur, forward).contains(j),
        forall|k: int|
            0 <= k < search_order(len, cur, forward).len() ==> 0 <= #[trigger] search_order(len, cur, forward)[k]
                < len,
{
    let o = search_order(len, cur, forward);
    assert forall|j: int| 0 <= j < len implies o.contains(j) by {
        if forward {
            if j > cur {
                assert(o[j - cur - 1] == j);
            } else {
                assert(o[(len - cur - 1) + j] == j);
            }
        } else {
            if j < cur {
                assert(o[cur - 1 - j] == j);
            } else {
                assert(o[cur + (len - 1 - j)] == j);
            }
        }
    }
}

/// A search finds a node exactly when some node of the tree, open or not,
/// matches the lower-cased query, and what it finds is where such a node
/// starts.
pub proof fn law_search_finds_a_matching_node(a: App, query: Seq<char>, forward: bool)
    ensures
        match tree_view(a.tree) {
            Some(v) => {
                &&& search_hit(a, query, forward) is Some <==> exists|i: int|
                    0 <= i < all_nodes(v).len() && node_matches(#[trigger] all_nodes(v)[i], lowercase(query))
                &&& search_hit(a, query, forward) matches Some(off) ==> exists|i: int|
                    0 <= i < all_nodes(v).len() && node_matches(#[trigger] all_nodes(v)[i], lowercase(query))
                        && all_nodes(v)[i].start == off
            },
            None => search_hit(a, query, forward) is None,
        },
{
    match tree_view(a.tree) {
        None => {},
        Some(v) => {
            let all = all_nodes(v);
            let q = lowercase(query);
            assert(all[0] == v);
            let start = match a.selected() {
                Some(n) => n.start,
                None => 0,
            };
            lemma_first_with_start_in(all, start);
            let cur = match first_with_start(all, start) {
                Some(i) => i,
                None => 0,
            };
            let order = search_order(all.len() as int, cur, forward);
            lemma_search_order_covers(all.len() as int, cur, forward);
            lemma_first_match(all, q, order);
            match first_match(all, q, order) {
                Some(i) => {
                    let k = choose|k: int| 0 <= k < order.len() && order[k] == i;
                    assert(0 <= order[k] < all.len());
                },
                None => {
                    assert forall|i: int| 0 <= i < all.len() implies !node_matches(#[trigger] all[i], q) by {
                        assert(order.contains(i));
                        let k = choose|k: int| 0 <= k < order.len() && order[k] == i;
                        assert(!node_matches(all[order[k]], q));
                    }
                },
            }
        },
    }
}

} // verus!
