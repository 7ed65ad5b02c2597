//! Reading sizes such as `500kb` or `10mb`.
use vstd::prelude::*;
use crate::search::{lowercase, parse_number, to_lowercase};
use crate::text::str_chars;

verus! {

/// `str::parse::<u64>`: an optional `+` and decimal digits, with a value
/// that fits in `u64`; an error otherwise.
#[verifier::external_body]
fn parse_u64(s: &str) -> (r: Option<u64>)
    ensures
        match r {
            Some(v) => parse_number(s@, 10, u64::MAX as int) == Some(v as nat),
            None => parse_number(s@, 10, u64::MAX as int) is None,
        },
{
    s.parse::<u64>().ok()
}

/// The text ends with `suffix`.
pub open spec fn ends_with(s: Seq<char>, suffix: Seq<char>) -> bool {
    s.len() >= suffix.len() && s.skip(s.len() - suffix.len()) == suffix
}

/// The number part of a size and its unit in bytes: a `kb`, `mb`, `gb` or
/// `b` suffix (after lower-casing) gives the unit and is cut off; a size
/// without a suffix counts bytes.
pub open spec fn size_parts(s: Seq<char>) -> (Seq<char>, int) {
    let l = lowercase(s);
    if ends_with(l, seq!['k', 'b']) {
        (l.take(l.len() - 2), 1024int)
    } else if ends_with(l, seq!['m', 'b']) {
        (l.take(l.len() - 2), 1048576int)
    } else if ends_with(l, seq!['g', 'b']) {
        (l.take(l.len() - 2), 1073741824int)
    } else if ends_with(l, seq!['b']) {
        (l.take(l.len() - 1), 1int)
    } else {
        (l, 1int)
    }
}

/// The size a text gives: its number times its unit.
pub open spec fn size_of_text(s: Seq<char>) -> int {
    let (num, unit) = size_parts(s);
    match parse_number(num, 10, u64::MAX as int) {
        Some(n) => n * unit,
        None => 0,
    }
}

/// The text is a size: its number part parses, and the product fits in
/// `u64`.
pub open spec fn size_ok(s: Seq<char>) -> bool {
    let (num, unit) = size_parts(s);
    &&& parse_number(num, 10, u64::MAX as int) is Some
    &&& size_of_text(s) <= u64::MAX
}

/// Whether the text ends with the two characters `a`, `b`.
fn ends_with_pair(cs: &Vec<char>, a: char, b: char) -> (r: bool)
    ensures
        r == ends_with(cs@, seq![a, b]),
{
    let n = cs.len();
    if n < 2 {
        return false;
    }
    proof {
        assert(cs@.skip(n - 2)[0] == cs@[n - 2]);
        assert(cs@.skip(n - 2)[1] == cs@[n - 1]);
        if cs@[n - 2] == a && cs@[n - 1] == b {
            assert(cs@.skip(n - 2) =~= seq![a, b]);
        }
    }
    cs[n - 2] == a && cs[n - 1] == b
}

/// Whether the text ends with the character `a`.
fn ends_with_char(cs: &Vec<char>, a: char) -> (r: bool)
    ensures
        r == ends_with(cs@, seq![a]),
{
    let n = cs.len();
    if n < 1 {
        return false;
    }
    proof {
        assert(cs@.skip(n - 1)[0] == cs@[n - 1]);
        if cs@[n - 1] == a {
            assert(cs@.skip(n - 1) =~= seq![a]);
        }
    }
    cs[n - 1] == a
}

/// The text made of the first `k` characters.
fn prefix_string(cs: &Vec<char>, k: usize) -> (r: String)
    requires
        k <= cs@.len(),
    ensures
        r@ == cs@.take(k as int),
{
    let mut r = String::new();
    let mut i: usize = 0;
    while i < k
        invariant
            k <= cs@.len(),
            0 <= i <= k,
            r@ == cs@.take(i as int),
        decreases k - i,
    {
        r.push(cs[i]);
        i += 1;
        proof {
            assert(r@ =~= cs@.take(i as int));
        }
    }
    r
}

/// The size in bytes that a text such as `500kb`, `10MB`, `1gb`, `64b` or
/// `4096` gives.
pub fn parse_size(s: &str) -> (r: u64)
    requires
        size_ok(s@),
    ensures
        r == size_of_text(s@),
{
    let lower = to_lowercase(s);
    let cs = str_chars(lower.as_str());
    let n = cs.len();
    proof {
        assert(cs@ == lowercase(s@));
    }
    let (num, multiplier): (String, u64) = if ends_with_pair(&cs, 'k', 'b') {
        (prefix_string(&cs, n - 2), 1024)
    } else if ends_with_pair(&cs, 'm', 'b') {
        (prefix_string(&cs, n - 2), 1024 * 1024)
    } else if ends_with_pair(&cs, 'g', 'b') {
        (prefix_string(&cs, n - 2), 1024 * 1024 * 1024)
    } else if ends_with_char(&cs, 'b') {
        (prefix_string(&cs, n - 1), 1)
    } else {
        match parse_u64(lower.as_str()) {
            Some(v) => {
                proof {
                    assert(size_parts(s@) == (cs@, 1int));
                    assert(size_of_text(s@) == v as int * 1);
                }
                return v;
            },
            None => (lower.clone(), 1),
        }
    };
    proof {
        assert(size_parts(s@) == (num@, multiplier as int));
    }
    match parse_u64(num.as_str()) {
        Some(v) => v * multiplier,
        None => 0,
    }
}

/// Whether a text is a size that `parse_size` reads.
pub fn is_size(s: &str) -> (r: bool)
    ensures
        r == size_ok(s@),
{
    let lower = to_lowercase(s);
    let cs = str_chars(lower.as_str());
    let n = cs.len();
    let (num, multiplier): (String, u64) = if ends_with_pair(&cs, 'k', 'b') {
        (prefix_string(&cs, n - 2), 1024)
    } else if ends_with_pair(&cs, 'm', 'b') {
        (prefix_string(&cs, n - 2), 1024 * 1024)
    } else if ends_with_pair(&cs, 'g', 'b') {
        (prefix_string(&cs, n - 2), 1024 * 1024 * 1024)
    } else if ends_with_char(&cs, 'b') {
        (prefix_string(&cs, n - 1), 1)
    } else {
        (lower.clone(), 1)
    };
    proof {
        assert(cs@ == lowercase(s@));
        assert(size_parts(s@) == (num@, multiplier as int));
    }
    match parse_u64(num.as_str()) {
        Some(v) => {
            proof {
                let m = multiplier as int;
                let x = v as int;
                assert((x <= u64::MAX as int / m) == (x * m <= u64::MAX as int)) by (nonlinear_arith)
                    requires
                        m > 0,
                        x >= 0,
                ;
            }
            v <= u64::MAX / multiplier
        },
        None => false,
    }
}

/// The size a text gives, or `None` when it is not a size.
pub fn try_parse_size(s: &str) -> (r: Option<u64>)
    ensures
        r is Some <==> size_ok(s@),
        r matches Some(v) ==> v == size_of_text(s@),
{
    if is_size(s) {
        Some(parse_size(s))
    } else {
        None
    }
}

} // verus!
