//! Decimal text rendering of unsigned integers and fixed-point magnitudes.

use vstd::prelude::*;
use vstd::string::*;

verus! {

/// The ASCII character of a decimal digit `d` (`0 <= d < 10`).
pub open spec fn digit_char(d: nat) -> char {
    (d + 48) as char
}

/// The decimal representation of `n`, most significant digit first, without
/// leading zeros (`0` is rendered as a single `'0'`).
pub open spec fn decimal(n: nat) -> Seq<char>
    decreases n,
{
    if n < 10 {
        seq![digit_char(n)]
    } else {
        decimal(n / 10).push(digit_char(n % 10))
    }
}

/// `s` left-padded with `'0'` up to `width` characters.
pub open spec fn pad_zeros(s: Seq<char>, width: nat) -> Seq<char> {
    if s.len() >= width {
        s
    } else {
        Seq::new((width - s.len()) as nat, |i: int| '0') + s
    }
}

/// The rendering of the fixed-point magnitude `mag * 10^-precision` with exactly
/// `precision` fractional digits (no decimal point when `precision == 0`).
pub open spec fn fixed_repr(mag: nat, precision: nat) -> Seq<char> {
    let padded = pad_zeros(decimal(mag), precision + 1);
    let cut = padded.len() - precision;
    if precision == 0 {
        padded
    } else {
        padded.subrange(0, cut) + seq!['.'] + padded.subrange(cut, padded.len() as int)
    }
}

pub proof fn lemma_decimal_len_pos(n: nat)
    ensures
        decimal(n).len() >= 1,
    decreases n,
{
    if n >= 10 {
        lemma_decimal_len_pos(n / 10);
    }
}

/// The one-character string of a decimal digit.
fn digit_str(d: u64) -> (res: &'static str)
    requires
        d < 10,
    ensures
        res@ == seq![digit_char(d as nat)],
{
    proof {
        reveal_strlit("0");
        reveal_strlit("1");
        reveal_strlit("2");
        reveal_strlit("3");
        reveal_strlit("4");
        reveal_strlit("5");
        reveal_strlit("6");
        reveal_strlit("7");
        reveal_strlit("8");
        reveal_strlit("9");
    }
    if d == 0 {
        "0"
    } else if d == 1 {
        "1"
    } else if d == 2 {
        "2"
    } else if d == 3 {
        "3"
    } else if d == 4 {
        "4"
    } else if d == 5 {
        "5"
    } else if d == 6 {
        "6"
    } else if d == 7 {
        "7"
    } else if d == 8 {
        "8"
    } else {
        "9"
    }
}

/// Appends the decimal representation of `n` to `s`.
pub fn push_decimal(s: &mut String, n: u64)
    ensures
        final(s)@ == old(s)@ + decimal(n as nat),
    decreases n,
{
    if n >= 10 {
        push_decimal(s, n / 10);
    }
    s.append(digit_str(n % 10));
    assert(decimal(n as nat) == (if n < 10 { seq![digit_char(n as nat)] } else {
        decimal((n / 10) as nat).push(digit_char((n % 10) as nat))
    }));
}

/// The decimal representation of `n` as a new string.
pub fn decimal_string(n: u64) -> (res: String)
    ensures
        res@ == decimal(n as nat),
{
    let mut s = String::new();
    push_decimal(&mut s, n);
    s
}

/// `10^k`.
pub open spec fn pow10(k: nat) -> nat
    decreases k,
{
    if k == 0 {
        1
    } else {
        10 * pow10((k - 1) as nat)
    }
}

/// A number below `10^k` has at most `k` decimal digits.
pub proof fn lemma_decimal_len_bound(n: nat, k: nat)
    requires
        k >= 1,
        n < pow10(k),
    ensures
        decimal(n).len() <= k,
    decreases k,
{
    if n >= 10 {
        assert(k >= 2) by {
            if k == 1 {
                assert(pow10(1) == 10 * pow10(0));
            }
        }
        assert(pow10(k) == 10 * pow10((k - 1) as nat));
        lemma_decimal_len_bound(n / 10, (k - 1) as nat);
    }
}

/// The number of decimal digits of `n`.
pub fn decimal_len(n: u64) -> (res: usize)
    ensures
        res as nat == decimal(n as nat).len(),
        1 <= res <= 20,
    decreases n,
{
    proof {
        reveal_with_fuel(pow10, 21);
        assert(pow10(20) == 100000000000000000000nat);
        lemma_decimal_len_bound(n as nat, 20);
        lemma_decimal_len_pos(n as nat);
    }
    if n < 10 {
        1
    } else {
        let r = decimal_len(n / 10);
        r + 1
    }
}

/// Appends `fixed_repr(mag, precision)` to `s`.
pub fn push_fixed(s: &mut String, mag: u64, precision: u8)
    ensures
        final(s)@ == old(s)@ + fixed_repr(mag as nat, precision as nat),
{
    let dl = decimal_len(mag);
    let width: usize = precision as usize + 1;
    let mut padded = String::new();
    let mut i: usize = dl;
    while i < width
        invariant
            dl <= width ==> dl <= i <= width,
            dl > width ==> i == dl,
            padded@ == Seq::new((i - dl) as nat, |j: int| '0'),
        decreases width - i,
    {
        proof {
            reveal_strlit("0");
        }
        padded.append("0");
        i = i + 1;
        assert(padded@ =~= Seq::new((i - dl) as nat, |j: int| '0'));
    }
    push_decimal(&mut padded, mag);
    let ghost d = decimal(mag as nat);
    assert(padded@ =~= pad_zeros(d, precision as nat + 1));
    let plen: usize = if dl >= width { dl } else { width };
    assert(padded@.len() == plen);
    if precision == 0 {
        s.append(padded.as_str());
    } else {
        let cut: usize = plen - precision as usize;
        let head = padded.as_str().substring_char(0, cut);
        let tail = padded.as_str().substring_char(cut, plen);
        s.append(head);
        proof {
            reveal_strlit(".");
        }
        s.append(".");
        s.append(tail);
    }
    assert(s@ =~= old(s)@ + fixed_repr(mag as nat, precision as nat));
}

/// Whether `c` is a decimal digit.
pub open spec fn is_digit(c: char) -> bool {
    '0' <= c <= '9'
}

/// Whether every character of `s` is a decimal digit.
pub open spec fn all_digits(s: Seq<char>) -> bool {
    forall|i: int| 0 <= i < s.len() ==> is_digit(#[trigger] s[i])
}

/// The number that a string of decimal digits denotes (most significant first).
pub open spec fn digits_value(s: Seq<char>) -> nat
    decreases s.len(),
{
    if s.len() == 0 {
        0
    } else {
        digits_value(s.drop_last()) * 10 + ((s.last() as int) - 48) as nat
    }
}

proof fn lemma_digit_char(d: nat)
    requires
        d < 10,
    ensures
        is_digit(digit_char(d)),
        (digit_char(d) as int) - 48 == d,
{
    assert(((d + 48) as char) as int == d + 48);
}

/// The value of `a` followed by `b` is `a`'s value shifted by `b`'s length plus
/// `b`'s value.
pub proof fn lemma_digits_value_append(a: Seq<char>, b: Seq<char>)
    ensures
        digits_value(a + b) == digits_value(a) * pow10(b.len()) + digits_value(b),
    decreases b.len(),
{
    if b.len() == 0 {
        assert(a + b =~= a);
        assert(digits_value(b) == 0);
        assert(pow10(0) == 1);
        assert(digits_value(a) * 1 == digits_value(a));
    } else {
        let ab = a + b;
        assert(ab.drop_last() =~= a + b.drop_last());
        assert(ab.last() == b.last());
        lemma_digits_value_append(a, b.drop_last());
        let x = digits_value(a);
        let p = pow10((b.len() - 1) as nat);
        let y = digits_value(b.drop_last());
        let d = ((b.last() as int) - 48) as nat;
        assert(pow10(b.len()) == 10 * p);
        assert(digits_value(ab) == digits_value(ab.drop_last()) * 10 + d);
        assert(digits_value(b) == y * 10 + d);
        assert((x * p + y) * 10 + d == x * (10 * p) + (y * 10 + d)) by (nonlinear_arith);
    }
}

/// A string of zeros denotes zero.
pub proof fn lemma_zeros_value(k: nat)
    ensures
        digits_value(Seq::new(k, |i: int| '0')) == 0,
        all_digits(Seq::new(k, |i: int| '0')),
    decreases k,
{
    if k > 0 {
        let z = Seq::new(k, |i: int| '0');
        assert(z.drop_last() =~= Seq::new((k - 1) as nat, |i: int| '0'));
        lemma_zeros_value((k - 1) as nat);
    }
}

/// `decimal(n)` is made of digits, denotes `n`, and has no leading zero.
pub proof fn lemma_decimal_denotes(n: nat)
    ensures
        all_digits(decimal(n)),
        digits_value(decimal(n)) == n,
        decimal(n).len() > 1 ==> decimal(n)[0] != '0',
    decreases n,
{
    if n < 10 {
        lemma_digit_char(n);
        assert(decimal(n).drop_last() =~= Seq::<char>::empty());
        assert(digits_value(decimal(n).drop_last()) == 0);
    } else {
        lemma_decimal_denotes(n / 10);
        lemma_digit_char(n % 10);
        let s = decimal(n);
        assert(s.drop_last() =~= decimal(n / 10));
        assert(s.last() == digit_char(n % 10));
        assert(digits_value(s) == digits_value(decimal(n / 10)) * 10 + ((s.last() as int) - 48) as nat);
        assert(digits_value(s) == (n / 10) * 10 + n % 10);
        lemma_decimal_len_pos(n / 10);
        assert(s[0] == decimal(n / 10)[0]);
        if decimal(n / 10).len() == 1 {
            assert(n / 10 >= 1);
            assert(n / 10 < 10) by {
                if n / 10 >= 10 {
                    assert(decimal(n / 10).len() == decimal(n / 100).len() + 1);
                    lemma_decimal_len_pos(n / 100);
                }
            }
            assert(decimal(n / 10)[0] == digit_char(n / 10));
            lemma_digit_char(n / 10);
        }
    }
}

/// Whether the text `t` writes the fixed-point number `mag * 10^-precision` with
/// exactly `precision` fractional digits: with `precision == 0`, digits that
/// denote `mag`; otherwise at least one integer digit, a `.`, and `precision`
/// fractional digits, where integer part times `10^precision` plus fractional
/// part is `mag`.
pub open spec fn fixed_text_denotes(t: Seq<char>, mag: nat, precision: nat) -> bool {
    if precision == 0 {
        t.len() >= 1 && all_digits(t) && digits_value(t) == mag
    } else {
        let dot = t.len() - precision - 1;
        &&& t.len() >= precision + 2
        &&& t[dot] == '.'
        &&& all_digits(t.take(dot))
        &&& all_digits(t.skip(dot + 1))
        &&& digits_value(t.take(dot)) * pow10(precision) + digits_value(t.skip(dot + 1)) == mag
    }
}

/// The text of a fixed-point magnitude denotes its value.
pub proof fn lemma_fixed_repr_denotes(mag: nat, precision: nat)
    ensures
        fixed_text_denotes(fixed_repr(mag, precision), mag, precision),
{
    let d = decimal(mag);
    lemma_decimal_denotes(mag);
    lemma_decimal_len_pos(mag);
    let padded = pad_zeros(d, precision + 1);
    assert(all_digits(padded) && digits_value(padded) == mag) by {
        if d.len() < precision + 1 {
            let z = Seq::new((precision + 1 - d.len()) as nat, |i: int| '0');
            lemma_zeros_value((precision + 1 - d.len()) as nat);
            lemma_digits_value_append(z, d);
            assert(padded == z + d);
            assert(digits_value(z) * pow10(d.len()) == 0);
            assert(digits_value(padded) == mag);
            assert forall|i: int| 0 <= i < padded.len() implies is_digit(#[trigger] padded[i]) by {
                if i < z.len() {
                    assert(padded[i] == z[i]);
                } else {
                    assert(padded[i] == d[i - z.len()]);
                }
            }
        } else {
            assert(padded == d);
        }
    }
    if precision > 0 {
        let t = fixed_repr(mag, precision);
        let cut = padded.len() - precision;
        let head = padded.subrange(0, cut);
        let tail = padded.subrange(cut, padded.len() as int);
        assert(padded =~= head + tail);
        lemma_digits_value_append(head, tail);
        let dot = t.len() - precision - 1;
        assert(dot == cut);
        assert(t.take(dot) =~= head);
        assert(t.skip(dot + 1) =~= tail);
        assert(t[dot] == '.');
        assert forall|i: int| 0 <= i < head.len() implies is_digit(#[trigger] head[i]) by {
            assert(head[i] == padded[i]);
        }
        assert forall|i: int| 0 <= i < tail.len() implies is_digit(#[trigger] tail[i]) by {
            assert(tail[i] == padded[i + cut]);
        }
    }
}

} // verus!
