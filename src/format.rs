//! Rendering of byte counts, either as exact decimal integers or scaled by
//! powers of 1024 with a one-letter unit suffix.

use vstd::prelude::*;
use vstd::string::StringExecFns;

verus! {

/// The ten decimal digits, in order.
pub open spec fn digit_chars() -> Seq<char> {
    seq!['0', '1', '2', '3', '4', '5', '6', '7', '8', '9']
}

/// The decimal representation of `n`, without leading zeros (`"0"` for zero).
pub open spec fn decimal(n: nat) -> Seq<char>
    decreases n,
{
    if n < 10 {
        seq![digit_chars()[n as int]]
    } else {
        decimal(n / 10).push(digit_chars()[(n % 10) as int])
    }
}

/// Appends the decimal digits of `n` to `s`.
fn push_decimal(s: &mut String, n: u64)
    ensures
        final(s)@ == old(s)@ + decimal(n as nat),
    decreases n,
{
    if n >= 10 {
        push_decimal(s, n / 10);
    }
    let d = n % 10;
    let piece = digit_str(d);
    s.append(piece);
    assert(final(s)@ =~= old(s)@ + decimal(n as nat));
}

/// The one-character string of the digit `d`.
fn digit_str(d: u64) -> (r: &'static str)
    requires
        d < 10,
    ensures
        r@ == seq![digit_chars()[d as int]],
{
    proof {
        reveal_strlit("0");
        reveal_strlit("1");
        reveal_strlit("2");
        reveal_strlit("3");
        reveal_strlit("4");
        reveal_strlit("5");
        reveal_strlit("6");
        reveal_strlit("7");
        reveal_strlit("8");
        reveal_strlit("9");
    }
    let r = match d {
        0 => "0",
        1 => "1",
        2 => "2",
        3 => "3",
        4 => "4",
        5 => "5",
        6 => "6",
        7 => "7",
        8 => "8",
        _ => "9",
    };
    assert(r@ =~= seq![digit_chars()[d as int]]);
    r
}

/// The decimal string of `n`.
pub fn decimal_string(n: u64) -> (r: String)
    ensures
        r@ == decimal(n as nat),
{
    let mut s = String::new();
    push_decimal(&mut s, n);
    assert(s@ =~= decimal(n as nat));
    s
}

/// The power of 1024 that the unit of magnitude `m` stands for.
pub open spec fn unit(m: nat) -> nat
    decreases m,
{
    if m == 0 {
        1
    } else {
        1024 * unit((m - 1) as nat)
    }
}

/// The magnitude of a byte count: `floor(log2(b) / 10)` for `b > 0`, and `0`
/// for `b == 0`; that is, the largest `m` with `1024^m <= b`.
pub open spec fn magnitude(b: nat) -> nat
    decreases b,
{
    if b < 1024 {
        0
    } else {
        1 + magnitude(b / 1024)
    }
}

/// `n / d` rounded to the nearest integer, ties to the even neighbour.
pub open spec fn round_half_even(n: nat, d: nat) -> nat
    recommends
        d > 0,
{
    let q = n / d;
    let r = n % d;
    if 2 * r > d || (2 * r == d && q % 2 == 1) {
        q + 1
    } else {
        q
    }
}

/// The unit suffix of magnitude `m`, or a marker past the last named unit.
pub open spec fn suffix(m: nat) -> Seq<char> {
    if m == 0 {
        seq!['B']
    } else if m == 1 {
        seq!['K']
    } else if m == 2 {
        seq!['M']
    } else if m == 3 {
        seq!['G']
    } else if m == 4 {
        seq!['T']
    } else if m == 5 {
        seq!['P']
    } else if m == 6 {
        seq!['E']
    } else if m == 7 {
        seq!['Z']
    } else if m == 8 {
        seq!['Y']
    } else if m == 9 {
        seq!['H']
    } else {
        seq!['<', 'g', 'i', 'n', 'o', 'r', 'm', 'o', 'u', 's', '!', '>']
    }
}

/// `s` left-padded with spaces to at least 3 characters.
pub open spec fn pad3(s: Seq<char>) -> Seq<char> {
    if s.len() < 3 {
        Seq::new((3 - s.len()) as nat, |i: int| ' ') + s
    } else {
        s
    }
}

/// The number of the human-readable rendering of `b` bytes: the count scaled
/// to its magnitude, with one fractional digit while the scaled value is
/// below 10 and none from 10 on.
pub open spec fn human_number(b: nat) -> Seq<char> {
    let m = magnitude(b);
    let u = unit(m);
    if b >= 10 * u {
        decimal(round_half_even(b, u))
    } else {
        let t = round_half_even(10 * b, u);
        decimal(t / 10) + seq!['.'] + decimal(t % 10)
    }
}

/// The human-readable rendering of `b` bytes: its scaled number, left-padded
/// with spaces to a width of 3, followed by the unit suffix.
pub open spec fn human(b: nat) -> Seq<char> {
    pad3(human_number(b)) + suffix(magnitude(b))
}

/// The rendering of `b` bytes: its exact decimal string when `raw`, else the
/// human-readable form.
pub open spec fn rendered(b: nat, raw: bool) -> Seq<char> {
    if raw {
        decimal(b)
    } else {
        human(b)
    }
}

/// The suffix string of magnitude `m`.
fn suffix_str(m: u64) -> (r: &'static str)
    ensures
        r@ == suffix(m as nat),
{
    proof {
        reveal_strlit("B");
        reveal_strlit("K");
        reveal_strlit("M");
        reveal_strlit("G");
        reveal_strlit("T");
        reveal_strlit("P");
        reveal_strlit("E");
        reveal_strlit("Z");
        reveal_strlit("Y");
        reveal_strlit("H");
        reveal_strlit("<ginormous!>");
    }
    let r = match m {
        0 => "B",
        1 => "K",
        2 => "M",
        3 => "G",
        4 => "T",
        5 => "P",
        6 => "E",
        7 => "Z",
        8 => "Y",
        9 => "H",
        _ => "<ginormous!>",
    };
    assert(r@ =~= suffix(m as nat));
    r
}

/// `n / d` rounded to the nearest integer, ties to even.
fn div_round_half_even(n: u128, d: u128) -> (r: u128)
    requires
        d > 0,
    ensures
        r as nat == round_half_even(n as nat, d as nat),
{
    let q = n / d;
    let rem = n % d;
    let half_up = rem > d - rem || (rem == d - rem && q % 2 == 1);
    if half_up {
        assert(q < u128::MAX) by (nonlinear_arith)
            requires
                q == n / d,
                d > 0,
                rem == n % d,
                rem > 0 || d == 2 * rem,
                n <= u128::MAX,
        {
            if d >= 2 {
                assert(q * d <= n);
            }
        };
        q + 1
    } else {
        q
    }
}

/// `s` left-padded with spaces to at least 3 characters.
fn pad_left3(s: String) -> (r: String)
    ensures
        r@ == pad3(s@),
{
    let len = s.as_str().unicode_len();
    let mut r = String::new();
    let mut k: usize = len;
    while k < 3
        invariant
            len == s@.len(),
            len <= k <= 3 || (len > 3 && k == len),
            r@ == Seq::new((k - len) as nat, |i: int| ' '),
        decreases 3 - k,
    {
        let space = " ";
        proof {
            reveal_strlit(" ");
        }
        r.append(space);
        k = k + 1;
        assert(r@ =~= Seq::new((k - len) as nat, |i: int| ' '));
    }
    if len < 3 {
        r.append(s.as_str());
        assert(r@ =~= pad3(s@));
        r
    } else {
        s
    }
}

/// Renders a byte count scaled by powers of 1024, its number left-padded to
/// a width of 3 (`0.0B`, `1.5K`, ` 10K`, `100K`).
pub fn human_size(bytes: u64) -> (r: String)
    ensures
        r@ == human(bytes as nat),
{
    let mut m: u64 = 0;
    let mut u: u64 = 1;
    let mut rest: u64 = bytes;
    while rest >= 1024
        invariant
            u as nat == unit(m as nat),
            u >= 1,
            rest as nat == bytes as nat / u as nat,
            magnitude(bytes as nat) == m + magnitude(rest as nat),
            m <= u,
            u <= bytes || m == 0,
        decreases rest,
    {
        assert(u * 1024 <= bytes) by (nonlinear_arith)
            requires
                rest == bytes / u,
                rest >= 1024,
                u >= 1,
        {
            assert(bytes >= u * (bytes / u));
        };
        assert(rest as nat / 1024 == bytes as nat / (u as nat * 1024)) by {
            vstd::arithmetic::div_mod::lemma_div_denominator(bytes as int, u as int, 1024);
        };
        rest = rest / 1024;
        u = u * 1024;
        m = m + 1;
    }
    let unit_size = u as u128;
    let mut s = String::new();
    if bytes as u128 >= 10 * unit_size {
        let whole = div_round_half_even(bytes as u128, unit_size);
        assert(whole <= bytes) by (nonlinear_arith)
            requires
                whole as nat == round_half_even(bytes as nat, unit_size as nat),
                unit_size >= 1,
        {
        };
        push_decimal(&mut s, whole as u64);
    } else {
        let tenths = div_round_half_even(10 * (bytes as u128), unit_size);
        assert(tenths <= 100) by (nonlinear_arith)
            requires
                tenths as nat == round_half_even((10 * bytes) as nat, unit_size as nat),
                unit_size >= 1,
                bytes < 10 * unit_size,
        {
        };
        push_decimal(&mut s, (tenths / 10) as u64);
        let dot = ".";
        proof {
            reveal_strlit(".");
        }
        s.append(dot);
        push_decimal(&mut s, (tenths % 10) as u64);
    }
    assert(s@ =~= human_number(bytes as nat));
    let mut s = pad_left3(s);
    s.append(suffix_str(m));
    assert(s@ =~= human(bytes as nat));
    s
}

/// Renders a byte count as its exact decimal string when `raw`, else as
/// [`human_size`] does.
pub fn format_size(size: u64, raw: bool) -> (r: String)
    ensures
        r@ == rendered(size as nat, raw),
{
    if raw {
        decimal_string(size)
    } else {
        human_size(size)
    }
}

} // verus!
