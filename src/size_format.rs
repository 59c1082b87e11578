//! Readable byte counts: binary (1024-based) units, two decimals, fixed width.
use vstd::arithmetic::div_mod::{lemma_div_is_ordered, lemma_fundamental_div_mod};
use vstd::prelude::*;

verus! {

/// The largest unit index (tebibytes).
pub const TOP_SCALE: u64 = 4;

/// The width of the numeric field of a formatted size.
pub const NUMBER_WIDTH: usize = 7;

pub open spec fn pow1024(e: nat) -> nat
    decreases e,
{
    if e == 0 {
        1
    } else {
        1024 * pow1024((e - 1) as nat)
    }
}

/// The unit index for `n` bytes, counted from `s`: one more division by 1024
/// while the scaled value still exceeds 1024, up to the top unit.
pub open spec fn scale_from(n: nat, s: nat) -> nat
    decreases TOP_SCALE - s,
{
    if s >= TOP_SCALE || n <= pow1024(s + 1) {
        s
    } else {
        scale_from(n, s + 1)
    }
}

pub open spec fn scale_of(n: nat) -> nat {
    scale_from(n, 0)
}

/// `n / d` in hundredths, rounded to nearest, ties to even.
pub open spec fn round_hundredths(n: nat, d: nat) -> nat
    recommends
        d > 0,
{
    let q = (n * 100) / d;
    let r = (n * 100) % d;
    if 2 * r > d || (2 * r == d && q % 2 == 1) {
        q + 1
    } else {
        q
    }
}

/// The scaled value of `n` bytes in hundredths of its unit.
pub open spec fn hundredths_of(n: nat) -> nat {
    round_hundredths(n, pow1024(scale_of(n)))
}

pub open spec fn digit_char(d: nat) -> char {
    if d == 0 { '0' }
    else if d == 1 { '1' }
    else if d == 2 { '2' }
    else if d == 3 { '3' }
    else if d == 4 { '4' }
    else if d == 5 { '5' }
    else if d == 6 { '6' }
    else if d == 7 { '7' }
    else if d == 8 { '8' }
    else { '9' }
}

/// Decimal digits of `v`, without leading zeros.
pub open spec fn decimal(v: nat) -> Seq<char>
    decreases v,
{
    if v < 10 {
        seq![digit_char(v)]
    } else {
        decimal(v / 10).push(digit_char(v % 10))
    }
}

/// `s` with spaces in front, up to `w` characters.
pub open spec fn pad_left(s: Seq<char>, w: nat) -> Seq<char>
    decreases w - s.len(),
{
    if s.len() >= w {
        s
    } else {
        pad_left(seq![' '] + s, w)
    }
}

/// A unit's label, right-aligned in three characters.
pub open spec fn unit_label(scale: nat) -> Seq<char> {
    if scale == 0 {
        seq![' ', ' ', 'B']
    } else if scale == 1 {
        seq!['K', 'i', 'B']
    } else if scale == 2 {
        seq!['M', 'i', 'B']
    } else if scale == 3 {
        seq!['G', 'i', 'B']
    } else {
        seq!['T', 'i', 'B']
    }
}

/// `h` hundredths written with two decimals.
pub open spec fn fixed2(h: nat) -> Seq<char> {
    decimal(h / 100) + seq!['.', digit_char((h % 100) / 10), digit_char(h % 10)]
}

/// The text for `n` bytes: the scaled value with two decimals, padded to the
/// numeric width, a space, and the unit label.
pub open spec fn size_text(n: nat) -> Seq<char> {
    pad_left(fixed2(hundredths_of(n)), NUMBER_WIDTH as nat) + seq![' '] + unit_label(scale_of(n))
}

fn digit_str(d: u64) -> (r: &'static str)
    requires
        d < 10,
    ensures
        r@ == seq![digit_char(d as nat)],
{
    proof {
        reveal_strlit("0");
        reveal_strlit("1");
        reveal_strlit("2");
        reveal_strlit("3");
        reveal_strlit("4");
        reveal_strlit("5");
        reveal_strlit("6");
        reveal_strlit("7");
        reveal_strlit("8");
        reveal_strlit("9");
    }
    if d == 0 { "0" }
    else if d == 1 { "1" }
    else if d == 2 { "2" }
    else if d == 3 { "3" }
    else if d == 4 { "4" }
    else if d == 5 { "5" }
    else if d == 6 { "6" }
    else if d == 7 { "7" }
    else if d == 8 { "8" }
    else { "9" }
}

fn decimal_text(v: u64) -> (r: String)
    ensures
        r@ == decimal(v as nat),
    decreases v,
{
    if v < 10 {
        String::from_str(digit_str(v))
    } else {
        let mut s = decimal_text(v / 10);
        s.append(digit_str(v % 10));
        s
    }
}

fn pad_text(s: String, w: usize) -> (r: String)
    ensures
        r@ == pad_left(s@, w as nat),
{
    let mut t = s;
    let mut len = t.as_str().unicode_len();
    while len < w
        invariant
            len == t@.len(),
            pad_left(t@, w as nat) == pad_left(s@, w as nat),
        decreases w - len,
    {
        proof {
            reveal_strlit(" ");
        }
        let pre = String::from_str(" ");
        let ghost old_t = t@;
        t = pre.concat(t.as_str());
        assert(t@ == seq![' '] + old_t);
        len = len + 1;
    }
    t
}

fn unit_str(scale: u64) -> (r: &'static str)
    ensures
        r@ == unit_label(scale as nat),
{
    proof {
        reveal_strlit("  B");
        reveal_strlit("KiB");
        reveal_strlit("MiB");
        reveal_strlit("GiB");
        reveal_strlit("TiB");
    }
    if scale == 0 { "  B" }
    else if scale == 1 { "KiB" }
    else if scale == 2 { "MiB" }
    else if scale == 3 { "GiB" }
    else { "TiB" }
}

proof fn lemma_pow1024_values()
    ensures
        pow1024(0) == 1,
        pow1024(1) == 1024,
        pow1024(2) == 1048576,
        pow1024(3) == 1073741824,
        pow1024(4) == 1099511627776,
{
    reveal_with_fuel(pow1024, 5);
}

proof fn lemma_quotient_bound(n: nat, d: nat)
    requires
        d >= 1,
    ensures
        (n * 100) / d <= n * 100,
        (n * 100) % d < d,
{
    assert((n * 100) / d <= n * 100) by (nonlinear_arith)
        requires
            d >= 1,
    ;
}

proof fn lemma_rounded_bound(n: nat, d: nat, q: nat, rem: nat, h: nat)
    requires
        d >= 1,
        d == 1 || d >= 1024,
        q == (n * 100) / d,
        rem == (n * 100) % d,
        h == q || h == q + 1,
        h == q + 1 ==> 2 * rem >= d,
    ensures
        h / 100 <= n,
{
    if d == 1 {
        assert(rem == 0);
        assert(q == n * 100);
    } else {
        assert(q * d <= n * 100) by (nonlinear_arith)
            requires
                q == (n * 100) / d,
                d >= 1,
        ;
        assert(q * 1024 <= q * d) by (nonlinear_arith)
            requires
                d >= 1024,
        ;
        if h == q + 1 {
            assert(rem >= 1);
            assert(q * d + rem == n * 100) by (nonlinear_arith)
                requires
                    q == (n * 100) / d,
                    rem == (n * 100) % d,
                    d >= 1,
            ;
            assert(n >= 1);
        }
    }
}

/// Formats a byte count: the value scaled to kibibytes, mebibytes, gibibytes
/// or tebibytes while it exceeds 1024, with two decimals.
pub fn format_size(size: u64) -> (r: String)
    ensures
        r@ == size_text(size as nat),
{
    let n = size as u128;
    let mut scale: u64 = 0;
    let mut d: u128 = 1;
    proof {
        lemma_pow1024_values();
    }
    while scale < TOP_SCALE && n > d * 1024
        invariant
            scale <= TOP_SCALE,
            d <= 1099511627776,
            d >= 1,
            pow1024(0) == 1,
            pow1024(1) == 1024,
            pow1024(2) == 1048576,
            pow1024(3) == 1073741824,
            pow1024(4) == 1099511627776,
            d == pow1024(scale as nat),
            scale_from(n as nat, scale as nat) == scale_of(n as nat),
        decreases TOP_SCALE - scale,
    {
        d = d * 1024;
        scale = scale + 1;
    }
    assert(scale_of(n as nat) == scale);
    let q = (n * 100) / d;
    let rem = (n * 100) % d;
    proof {
        lemma_quotient_bound(n as nat, d as nat);
    }
    let h = if 2 * rem > d || (2 * rem == d && q % 2 == 1) { q + 1 } else { q };
    assert(h == hundredths_of(size as nat));
    assert(h / 100 <= n) by {
        lemma_rounded_bound(n as nat, d as nat, q as nat, rem as nat, h as nat);
    }
    let whole = (h / 100) as u64;
    let mut num = decimal_text(whole);
    num.append(".");
    num.append(digit_str(((h % 100) / 10) as u64));
    num.append(digit_str((h % 10) as u64));
    proof {
        reveal_strlit(".");
        reveal_strlit(" ");
        assert(h % 10 == (h % 100) % 10);
        assert(num@ =~= fixed2(h as nat));
    }
    let mut r = pad_text(num, NUMBER_WIDTH);
    r.append(" ");
    r.append(unit_str(scale));
    assert(r@ =~= size_text(size as nat));
    r
}

/// Zero bytes read as zero, with two decimals, in bytes.
pub proof fn lemma_zero_text()
    ensures
        scale_of(0) == 0,
        hundredths_of(0) == 0,
        size_text(0) == pad_left(seq!['0', '.', '0', '0'], NUMBER_WIDTH as nat) + seq![' ', ' ', ' ', 'B'],
{
    lemma_pow1024_values();
    assert(scale_of(0) == 0);
    assert(hundredths_of(0) == 0);
    assert(fixed2(0) =~= seq!['0', '.', '0', '0']);
    assert(size_text(0) =~= pad_left(seq!['0', '.', '0', '0'], NUMBER_WIDTH as nat) + seq![' ', ' ', ' ', 'B']);
}

/// A count stays in bytes up to 1024 and moves to kibibytes past it, where it
/// stays up to 1024 kibibytes.
pub proof fn lemma_first_transition(n: nat)
    ensures
        scale_of(n) == 0 <==> n <= 1024,
        1024 < n <= 1048576 ==> scale_of(n) == 1,
{
    lemma_pow1024_values();
    reveal_with_fuel(scale_from, 3);
    lemma_scale_from_at_least(n, 1);
}

proof fn lemma_scale_from_at_least(n: nat, s: nat)
    ensures
        scale_from(n, s) >= s,
    decreases TOP_SCALE - s,
{
    if !(s >= TOP_SCALE || n <= pow1024(s + 1)) {
        lemma_scale_from_at_least(n, s + 1);
    }
}

/// Within one unit, a larger byte count never shows a smaller number.
pub proof fn lemma_monotone_within_unit(a: nat, b: nat)
    requires
        a <= b,
        scale_of(a) == scale_of(b),
    ensures
        hundredths_of(a) <= hundredths_of(b),
{
    let d = pow1024(scale_of(a));
    lemma_pow_positive(scale_of(a));
    let xa = (a * 100) as int;
    let xb = (b * 100) as int;
    lemma_div_is_ordered(xa, xb, d as int);
    let qa = xa / d as int;
    let qb = xb / d as int;
    if qa == qb {
        lemma_fundamental_div_mod(xa, d as int);
        lemma_fundamental_div_mod(xb, d as int);
        assert(xa % (d as int) <= xb % (d as int));
    }
}

proof fn lemma_pow_positive(e: nat)
    ensures
        pow1024(e) >= 1,
    decreases e,
{
    if e > 0 {
        lemma_pow_positive((e - 1) as nat);
    }
}

} // verus!
