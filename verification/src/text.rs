//! Building display texts: decimal and hexadecimal numbers, hex dumps.
use vstd::prelude::*;
use vstd::utf8::{decode_utf8, encode_utf8, is_char_boundary};
use crate::search::{digit_of, digits_value};

verus! {

/// `String::push` appends one character.
pub assume_specification[ String::push ](s: &mut String, ch: char)
    ensures
        final(s)@ == old(s)@.push(ch),
;

/// `String::push_str` appends a string slice.
pub assume_specification[ String::push_str ](s: &mut String, string: &str)
    ensures
        final(s)@ == old(s)@ + string@,
;

/// `String::insert` puts a character at a byte position that lies on a
/// character boundary: after the text before that position, before the
/// text after it.
pub assume_specification[ String::insert ](s: &mut String, idx: usize, ch: char)
    requires
        is_char_boundary(encode_utf8(old(s)@), idx as int),
    ensures
        final(s)@ == decode_utf8(encode_utf8(old(s)@).take(idx as int)) + seq![ch] + decode_utf8(
            encode_utf8(old(s)@).skip(idx as int),
        ),
;

/// `String::remove` takes out and returns the character that starts at a
/// byte position, which lies on a character boundary before the end.
pub assume_specification[ String::remove ](s: &mut String, idx: usize) -> (c: char)
    requires
        idx < encode_utf8(old(s)@).len(),
        is_char_boundary(encode_utf8(old(s)@), idx as int),
    ensures
        decode_utf8(encode_utf8(old(s)@).skip(idx as int)).len() > 0,
        c == decode_utf8(encode_utf8(old(s)@).skip(idx as int))[0],
        final(s)@ == decode_utf8(encode_utf8(old(s)@).take(idx as int)) + decode_utf8(
            encode_utf8(old(s)@).skip(idx as int),
        ).drop_first(),
;

/// The lower-case hexadecimal digit for `d` (which is below 16); also the
/// decimal digit when `d` is below 10.
pub open spec fn digit_char(d: int) -> char {
    if d < 10 {
        (48 + d) as char
    } else {
        (87 + d) as char
    }
}

/// The upper-case hexadecimal digit for `d` (which is below 16).
pub open spec fn upper_digit_char(d: int) -> char {
    if d < 10 {
        (48 + d) as char
    } else {
        (55 + d) as char
    }
}

/// The decimal digits of `n`, without leading zeros.
pub open spec fn decimal(n: nat) -> Seq<char>
    decreases n,
{
    if n < 10 {
        seq![digit_char(n as int)]
    } else {
        decimal(n / 10).push(digit_char((n % 10) as int))
    }
}

/// The upper-case hexadecimal digits of `n`, without leading zeros.
pub open spec fn hex_upper(n: nat) -> Seq<char>
    decreases n,
{
    if n < 16 {
        seq![upper_digit_char(n as int)]
    } else {
        hex_upper(n / 16).push(upper_digit_char((n % 16) as int))
    }
}

/// An integer in decimal, with a minus sign when it is negative.
pub open spec fn int_text(i: int) -> Seq<char> {
    if i < 0 {
        seq!['-'] + decimal((-i) as nat)
    } else {
        decimal(i as nat)
    }
}

/// The 128-bit two's complement bit pattern of `i`, read as a natural
/// number; what hexadecimal formatting of an `i128` shows.
pub open spec fn twos_complement_128(i: int) -> nat {
    if i < 0 {
        (i + 0x1_0000_0000_0000_0000_0000_0000_0000_0000int) as nat
    } else {
        i as nat
    }
}

/// The two lower-case hexadecimal digits of a byte.
pub open spec fn hex_byte(b: u8) -> Seq<char> {
    seq![digit_char((b / 16) as int), digit_char((b % 16) as int)]
}

/// The bytes in lower-case hexadecimal, separated by single spaces.
pub open spec fn hex_spaced(bs: Seq<u8>) -> Seq<char>
    decreases bs.len(),
{
    if bs.len() == 0 {
        seq![]
    } else if bs.len() == 1 {
        hex_byte(bs[0])
    } else {
        hex_spaced(bs.drop_last()) + seq![' '] + hex_byte(bs.last())
    }
}

/// The bytes in lower-case hexadecimal, with nothing between them.
pub open spec fn hex_joined(bs: Seq<u8>) -> Seq<char>
    decreases bs.len(),
{
    if bs.len() == 0 {
        seq![]
    } else {
        hex_joined(bs.drop_last()) + hex_byte(bs.last())
    }
}

/// The character of a digit below 16, lower-case.
fn digit(d: u8) -> (c: char)
    requires
        d < 16,
    ensures
        c == digit_char(d as int),
{
    if d < 10 {
        (48u8 + d) as char
    } else {
        (87u8 + d) as char
    }
}

/// The character of a digit below 16, upper-case.
fn upper_digit(d: u8) -> (c: char)
    requires
        d < 16,
    ensures
        c == upper_digit_char(d as int),
{
    if d < 10 {
        (48u8 + d) as char
    } else {
        (55u8 + d) as char
    }
}

/// Appends the decimal digits of `n`.
pub fn push_decimal(s: &mut String, n: u128)
    ensures
        final(s)@ == old(s)@ + decimal(n as nat),
    decreases n,
{
    if n >= 10 {
        push_decimal(s, n / 10);
    }
    let d = (n % 10) as u8;
    s.push(digit(d));
    proof {
        if n >= 10 {
            assert(old(s)@ + decimal((n / 10) as nat) + seq![digit_char(d as int)] =~= old(s)@
                + decimal(n as nat));
        } else {
            assert(old(s)@.push(digit_char(d as int)) =~= old(s)@ + decimal(n as nat));
        }
    }
}

/// Sixteen to the power `j`.
pub open spec fn pow16(j: nat) -> nat
    decreases j,
{
    if j == 0 {
        1
    } else {
        16 * pow16((j - 1) as nat)
    }
}

/// A number below `16^j` has at most `j` hexadecimal digits.
proof fn lemma_hex_upper_len(n: nat, j: nat)
    requires
        j >= 1,
        n < pow16(j),
    ensures
        hex_upper(n).len() <= j,
    decreases j,
{
    if n >= 16 {
        assert(j >= 2) by {
            if j == 1 {
                assert(pow16(1) == 16) by {
                    reveal_with_fuel(pow16, 2);
                }
            }
        }
        assert((n / 16) < pow16((j - 1) as nat)) by (nonlinear_arith)
            requires
                n < pow16(j),
                pow16(j) == 16 * pow16((j - 1) as nat),
        ;
        lemma_hex_upper_len(n / 16, (j - 1) as nat);
    }
}

/// Appends the upper-case hexadecimal digits of `n`; returns how many.
pub fn push_hex_upper(s: &mut String, n: u128) -> (k: usize)
    ensures
        final(s)@ == old(s)@ + hex_upper(n as nat),
        k == hex_upper(n as nat).len(),
        k <= 32,
    decreases n,
{
    proof {
        assert(pow16(32) == 0x1_0000_0000_0000_0000_0000_0000_0000_0000nat) by {
            reveal_with_fuel(pow16, 33);
        }
        lemma_hex_upper_len(n as nat, 32);
    }
    let mut k: usize = 0;
    if n >= 16 {
        k = push_hex_upper(s, n / 16);
    }
    let d = (n % 16) as u8;
    s.push(upper_digit(d));
    proof {
        if n >= 16 {
            assert(old(s)@ + hex_upper((n / 16) as nat) + seq![upper_digit_char(d as int)] =~= old(
                s,
            )@ + hex_upper(n as nat));
        } else {
            assert(old(s)@.push(upper_digit_char(d as int)) =~= old(s)@ + hex_upper(n as nat));
        }
    }
    k + 1
}

/// Appends an integer in decimal.
pub fn push_int(s: &mut String, v: i128)
    ensures
        final(s)@ == old(s)@ + int_text(v as int),
{
    if v < 0 {
        s.push('-');
        let m: u128 = (-(v + 1)) as u128 + 1;
        push_decimal(s, m);
        proof {
            assert(old(s)@.push('-') + decimal(m as nat) =~= old(s)@ + (seq!['-'] + decimal(
                m as nat,
            )));
        }
    } else {
        push_decimal(s, v as u128);
    }
}

/// Appends the upper-case hexadecimal form of an `i128`: its two's
/// complement bit pattern for a negative value.
pub fn push_hex_upper_i128(s: &mut String, v: i128) -> (k: usize)
    ensures
        final(s)@ == old(s)@ + hex_upper(twos_complement_128(v as int)),
        k == hex_upper(twos_complement_128(v as int)).len(),
        k <= 32,
{
    if v < 0 {
        let m: u128 = u128::MAX - ((-(v + 1)) as u128);
        push_hex_upper(s, m)
    } else {
        push_hex_upper(s, v as u128)
    }
}

/// Appends the two lower-case hexadecimal digits of a byte.
pub fn push_hex_byte(s: &mut String, b: u8)
    ensures
        final(s)@ == old(s)@ + hex_byte(b),
{
    s.push(digit(b / 16));
    s.push(digit(b % 16));
    proof {
        assert(old(s)@.push(digit_char((b / 16) as int)).push(digit_char((b % 16) as int)) =~= old(
            s,
        )@ + hex_byte(b));
    }
}

/// An integer in decimal, as a new string.
pub fn int_string(v: i128) -> (r: String)
    ensures
        r@ == int_text(v as int),
{
    let mut s = String::new();
    push_int(&mut s, v);
    proof {
        assert(Seq::<char>::empty() + int_text(v as int) =~= int_text(v as int));
    }
    s
}

/// The characters of a string, in order.
pub fn str_chars(s: &str) -> (r: Vec<char>)
    ensures
        r@ == s@,
{
    let mut v: Vec<char> = Vec::new();
    for c in it: s.chars()
        invariant
            v@ == it.seq().take(it.index() as int),
    {
        v.push(c);
    }
    v
}

/// The two strings hold the same characters.
pub fn same_text(a: &str, b: &str) -> (r: bool)
    ensures
        r == (a@ == b@),
{
    let x = str_chars(a);
    let y = str_chars(b);
    if x.len() != y.len() {
        return false;
    }
    let mut i: usize = 0;
    while i < x.len()
        invariant
            x@ == a@,
            y@ == b@,
            x.len() == y.len(),
            0 <= i <= x.len(),
            forall|j: int| 0 <= j < i ==> x@[j] == y@[j],
        decreases x.len() - i,
    {
        if x[i] != y[i] {
            return false;
        }
        i += 1;
    }
    assert(x@ =~= y@);
    true
}

/// The lower-case hexadecimal digits of `n`, without leading zeros.
pub open spec fn hex_lower(n: nat) -> Seq<char>
    decreases n,
{
    if n < 16 {
        seq![digit_char(n as int)]
    } else {
        hex_lower(n / 16).push(digit_char((n % 16) as int))
    }
}

/// Appends the lower-case hexadecimal digits of `n`.
pub fn push_hex_lower(s: &mut String, n: u128)
    ensures
        final(s)@ == old(s)@ + hex_lower(n as nat),
    decreases n,
{
    if n >= 16 {
        push_hex_lower(s, n / 16);
    }
    let d = (n % 16) as u8;
    s.push(digit(d));
    proof {
        if n >= 16 {
            assert(old(s)@ + hex_lower((n / 16) as nat) + seq![digit_char(d as int)] =~= old(s)@
                + hex_lower(n as nat));
        } else {
            assert(old(s)@.push(digit_char(d as int)) =~= old(s)@ + hex_lower(n as nat));
        }
    }
}


/// A digit written by `digit_char` or `upper_digit_char` reads back as its
/// value, and is a decimal digit or a letter from `a` to `f` (`A` to `F`).
pub proof fn lemma_digit_reads_back(d: int)
    requires
        0 <= d < 16,
    ensures
        digit_of(digit_char(d)) == Some(d as nat),
        digit_of(upper_digit_char(d)) == Some(d as nat),
        ('0' <= digit_char(d) <= '9') || ('a' <= digit_char(d) <= 'f'),
        ('0' <= upper_digit_char(d) <= '9') || ('A' <= upper_digit_char(d) <= 'F'),
        digit_char(d) == '0' <==> d == 0,
        upper_digit_char(d) == '0' <==> d == 0,
{
    if d < 10 {
        assert(((48 + d) as char) as int == 48 + d);
    } else {
        assert(((87 + d) as char) as int == 87 + d);
        assert(((55 + d) as char) as int == 55 + d);
    }
}

/// The decimal digits of `n` read back, as a base-10 numeral, as `n`; they
/// are decimal digits, and the first is `0` only for zero.
pub proof fn law_decimal_reads_back(n: nat)
    ensures
        digits_value(decimal(n), 10) == Some(n),
        decimal(n).len() > 0,
        n > 0 ==> decimal(n)[0] != '0',
        forall|i: int| 0 <= i < decimal(n).len() ==> '0' <= #[trigger] decimal(n)[i] <= '9',
    decreases n,
{
    lemma_digit_reads_back((n % 10) as int);
    if n < 10 {
        reveal_with_fuel(digits_value, 2);
        assert(decimal(n).drop_last() =~= Seq::<char>::empty());
    } else {
        law_decimal_reads_back(n / 10);
        let h = decimal(n / 10);
        assert(decimal(n).drop_last() =~= h);
        assert(decimal(n)[0] == h[0]);
        assert(n / 10 * 10 + n % 10 == n);
        assert forall|i: int| 0 <= i < decimal(n).len() implies '0' <= #[trigger] decimal(n)[i] <= '9' by {
            if i < h.len() {
                assert(decimal(n)[i] == h[i]);
            }
        }
    }
}

/// The lower-case hexadecimal digits of `n` read back, as a base-16
/// numeral, as `n`; they are `0`-`9` and `a`-`f`, and the first is `0` only
/// for zero.
pub proof fn law_hex_lower_reads_back(n: nat)
    ensures
        digits_value(hex_lower(n), 16) == Some(n),
        hex_lower(n).len() > 0,
        n > 0 ==> hex_lower(n)[0] != '0',
        forall|i: int|
            0 <= i < hex_lower(n).len() ==> ('0' <= #[trigger] hex_lower(n)[i] <= '9') || ('a' <= hex_lower(n)[i]
                <= 'f'),
    decreases n,
{
    lemma_digit_reads_back((n % 16) as int);
    if n < 16 {
        reveal_with_fuel(digits_value, 2);
        assert(hex_lower(n).drop_last() =~= Seq::<char>::empty());
    } else {
        law_hex_lower_reads_back(n / 16);
        let h = hex_lower(n / 16);
        assert(hex_lower(n).drop_last() =~= h);
        assert(hex_lower(n)[0] == h[0]);
        assert(n / 16 * 16 + n % 16 == n);
        assert forall|i: int| 0 <= i < hex_lower(n).len() implies ('0' <= #[trigger] hex_lower(n)[i] <= '9') || (
        'a' <= hex_lower(n)[i] <= 'f') by {
            if i < h.len() {
                assert(hex_lower(n)[i] == h[i]);
            }
        }
    }
}

/// The upper-case hexadecimal digits of `n` read back, as a base-16
/// numeral, as `n`; they are `0`-`9` and `A`-`F`, and the first is `0` only
/// for zero.
pub proof fn law_hex_upper_reads_back(n: nat)
    ensures
        digits_value(hex_upper(n), 16) == Some(n),
        hex_upper(n).len() > 0,
        n > 0 ==> hex_upper(n)[0] != '0',
        forall|i: int|
            0 <= i < hex_upper(n).len() ==> ('0' <= #[trigger] hex_upper(n)[i] <= '9') || ('A' <= hex_upper(n)[i]
                <= 'F'),
    decreases n,
{
    lemma_digit_reads_back((n % 16) as int);
    if n < 16 {
        reveal_with_fuel(digits_value, 2);
        assert(hex_upper(n).drop_last() =~= Seq::<char>::empty());
    } else {
        law_hex_upper_reads_back(n / 16);
        let h = hex_upper(n / 16);
        assert(hex_upper(n).drop_last() =~= h);
        assert(hex_upper(n)[0] == h[0]);
        assert(n / 16 * 16 + n % 16 == n);
        assert forall|i: int| 0 <= i < hex_upper(n).len() implies ('0' <= #[trigger] hex_upper(n)[i] <= '9') || (
        'A' <= hex_upper(n)[i] <= 'F') by {
            if i < h.len() {
                assert(hex_upper(n)[i] == h[i]);
            }
        }
    }
}

/// The two hexadecimal digits of a byte read back, as a base-16 numeral,
/// as the byte, the high nibble first; they are `0`-`9` and `a`-`f`.
pub proof fn law_hex_byte_reads_back(b: u8)
    ensures
        hex_byte(b).len() == 2,
        digits_value(hex_byte(b), 16) == Some(b as nat),
        forall|i: int|
            0 <= i < 2 ==> ('0' <= #[trigger] hex_byte(b)[i] <= '9') || ('a' <= hex_byte(b)[i] <= 'f'),
{
    lemma_digit_reads_back((b / 16) as int);
    lemma_digit_reads_back((b % 16) as int);
    reveal_with_fuel(digits_value, 3);
    let h = hex_byte(b);
    assert(h.drop_last().drop_last() =~= Seq::<char>::empty());
    assert(h.drop_last() =~= seq![digit_char((b / 16) as int)]);
    assert(b / 16 * 16 + b % 16 == b);
}

/// Bytes shown with single spaces between them: three characters per byte
/// but the last, byte `i` as its two hexadecimal digits from position
/// `3 * i`, and a space after each byte but the last.
pub proof fn law_hex_spaced_layout(bs: Seq<u8>)
    requires
        bs.len() > 0,
    ensures
        hex_spaced(bs).len() == 3 * bs.len() - 1,
        forall|i: int|
            0 <= i < bs.len() ==> #[trigger] hex_spaced(bs).subrange(3 * i, 3 * i + 2) == hex_byte(bs[i]),
        forall|i: int| 0 <= i < bs.len() - 1 ==> #[trigger] hex_spaced(bs)[3 * i + 2] == ' ',
    decreases bs.len(),
{
    if bs.len() == 1 {
        assert(hex_spaced(bs).subrange(0, 2) =~= hex_byte(bs[0]));
    } else {
        let p = bs.drop_last();
        law_hex_spaced_layout(p);
        let t = hex_spaced(bs);
        let u = hex_spaced(p);
        assert(t == u + seq![' '] + hex_byte(bs.last()));
        assert forall|i: int| 0 <= i < bs.len() implies #[trigger] t.subrange(3 * i, 3 * i + 2) == hex_byte(
            bs[i],
        ) by {
            if i < p.len() {
                assert(u.subrange(3 * i, 3 * i + 2) == hex_byte(p[i]));
                assert(t.subrange(3 * i, 3 * i + 2) =~= u.subrange(3 * i, 3 * i + 2));
            } else {
                assert(t.subrange(3 * i, 3 * i + 2) =~= hex_byte(bs.last()));
            }
        }
        assert forall|i: int| 0 <= i < bs.len() - 1 implies #[trigger] t[3 * i + 2] == ' ' by {
            if i < p.len() - 1 {
                assert(t[3 * i + 2] == u[3 * i + 2]);
            }
        }
    }
}

/// Bytes shown with nothing between them: two characters per byte, byte
/// `i` as its two hexadecimal digits from position `2 * i`.
pub proof fn law_hex_joined_layout(bs: Seq<u8>)
    ensures
        hex_joined(bs).len() == 2 * bs.len(),
        forall|i: int|
            0 <= i < bs.len() ==> #[trigger] hex_joined(bs).subrange(2 * i, 2 * i + 2) == hex_byte(bs[i]),
    decreases bs.len(),
{
    if bs.len() > 0 {
        let p = bs.drop_last();
        law_hex_joined_layout(p);
        let t = hex_joined(bs);
        let u = hex_joined(p);
        assert forall|i: int| 0 <= i < bs.len() implies #[trigger] t.subrange(2 * i, 2 * i + 2) == hex_byte(
            bs[i],
        ) by {
            if i < p.len() {
                assert(u.subrange(2 * i, 2 * i + 2) == hex_byte(p[i]));
                assert(t.subrange(2 * i, 2 * i + 2) =~= u.subrange(2 * i, 2 * i + 2));
            } else {
                assert(t.subrange(2 * i, 2 * i + 2) =~= hex_byte(bs.last()));
            }
        }
    }
}

} // verus!
