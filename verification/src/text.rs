//! Decimal and hexadecimal rendering of integers and addresses.

use vstd::prelude::*;

verus! {

/// The lowercase hexadecimal digit for `d` (a decimal digit when `d < 10`).
pub open spec fn hex_char(d: nat) -> char {
    if d == 0 { '0' } else if d == 1 { '1' } else if d == 2 { '2' } else if d == 3 { '3' }
    else if d == 4 { '4' } else if d == 5 { '5' } else if d == 6 { '6' } else if d == 7 { '7' }
    else if d == 8 { '8' } else if d == 9 { '9' } else if d == 10 { 'a' } else if d == 11 { 'b' }
    else if d == 12 { 'c' } else if d == 13 { 'd' } else if d == 14 { 'e' } else { 'f' }
}

/// The decimal representation of `n`, without leading zeros.
pub open spec fn dec_text(n: nat) -> Seq<char>
    decreases n,
{
    if n < 10 {
        seq![hex_char(n)]
    } else {
        dec_text(n / 10).push(hex_char(n % 10))
    }
}

/// The last `width` hexadecimal digits of `n`, zero-padded on the left.
pub open spec fn hex_text(n: nat, width: nat) -> Seq<char>
    decreases width,
{
    if width == 0 {
        Seq::empty()
    } else {
        hex_text(n / 16, (width - 1) as nat).push(hex_char(n % 16))
    }
}

/// Appends the single digit `d` (base 16, so also base 10) to `s`.
pub fn push_digit(s: &mut String, d: u64)
    requires
        d < 16,
    ensures
        final(s)@ == old(s)@.push(hex_char(d as nat)),
{
    let lit: &str = if d == 0 { "0" } else if d == 1 { "1" } else if d == 2 { "2" }
        else if d == 3 { "3" } else if d == 4 { "4" } else if d == 5 { "5" }
        else if d == 6 { "6" } else if d == 7 { "7" } else if d == 8 { "8" }
        else if d == 9 { "9" } else if d == 10 { "a" } else if d == 11 { "b" }
        else if d == 12 { "c" } else if d == 13 { "d" } else if d == 14 { "e" } else { "f" };
    proof {
        reveal_strlit("0"); reveal_strlit("1"); reveal_strlit("2"); reveal_strlit("3");
        reveal_strlit("4"); reveal_strlit("5"); reveal_strlit("6"); reveal_strlit("7");
        reveal_strlit("8"); reveal_strlit("9"); reveal_strlit("a"); reveal_strlit("b");
        reveal_strlit("c"); reveal_strlit("d"); reveal_strlit("e"); reveal_strlit("f");
    }
    assert(lit@ =~= seq![hex_char(d as nat)]);
    s.append(lit);
}

/// Appends the decimal representation of `n` to `s`.
pub fn push_dec(s: &mut String, n: u64)
    ensures
        final(s)@ == old(s)@ + dec_text(n as nat),
    decreases n,
{
    if n >= 10 {
        push_dec(s, n / 10);
    }
    push_digit(s, n % 10);
    assert(final(s)@ =~= old(s)@ + dec_text(n as nat));
}

/// Appends the last `width` hexadecimal digits of `n`, zero-padded, to `s`.
pub fn push_hex(s: &mut String, n: u64, width: u64)
    ensures
        final(s)@ == old(s)@ + hex_text(n as nat, width as nat),
    decreases width,
{
    if width > 0 {
        push_hex(s, n / 16, width - 1);
        push_digit(s, n % 16);
    }
    assert(final(s)@ =~= old(s)@ + hex_text(n as nat, width as nat));
}

/// Appends the literal `lit` to `s`.
pub fn push_str(s: &mut String, lit: &str)
    ensures
        final(s)@ == old(s)@ + lit@,
{
    s.append(lit);
}


/// The last `width` decimal digits of `n`, zero-padded on the left.
pub open spec fn dec_fixed(n: nat, width: nat) -> Seq<char>
    decreases width,
{
    if width == 0 {
        Seq::empty()
    } else {
        dec_fixed(n / 10, (width - 1) as nat).push(hex_char(n % 10))
    }
}

/// Appends the last `width` decimal digits of `n`, zero-padded, to `s`.
pub fn push_dec_fixed(s: &mut String, n: u64, width: u64)
    ensures
        final(s)@ == old(s)@ + dec_fixed(n as nat, width as nat),
    decreases width,
{
    if width > 0 {
        push_dec_fixed(s, n / 10, width - 1);
        push_digit(s, n % 10);
    }
    assert(final(s)@ =~= old(s)@ + dec_fixed(n as nat, width as nat));
}

/// `n / d` rounded to the nearest integer, ties to even.
pub open spec fn round_div(n: nat, d: nat) -> nat {
    let q = n / d;
    let r = n % d;
    if 2 * r > d || (2 * r == d && q % 2 == 1) {
        q + 1
    } else {
        q
    }
}

/// `n / d` rounded to the nearest integer, ties to even.
pub fn round_div_exec(n: u64, d: u64) -> (r: u64)
    requires
        d > 0,
    ensures
        r == round_div(n as nat, d as nat),
{
    let q = n / d;
    let r = n % d;
    if d >= 2 {
        assert(q * d <= n) by (nonlinear_arith)
            requires
                q == n / d,
                d > 0,
        ;
        assert(q < u64::MAX) by (nonlinear_arith)
            requires
                q * d <= n,
                d >= 2,
                n <= u64::MAX,
        ;
    }
    if (r > d - r) || (r == d - r && q % 2 == 1) {
        q + 1
    } else {
        q
    }
}

/// A duration given in microseconds, as whole milliseconds (ties to even).
pub open spec fn ms_text(us: nat) -> Seq<char> {
    dec_text(round_div(us, 1000))
}

/// An instant given in microseconds, as seconds with three decimals (ties to even).
pub open spec fn secs3_text(us: nat) -> Seq<char> {
    let ms = round_div(us, 1000);
    dec_text(ms / 1000) + seq!['.'] + dec_fixed(ms % 1000, 3)
}

/// Appends a duration given in microseconds as whole milliseconds.
pub fn push_ms(s: &mut String, us: u64)
    ensures
        final(s)@ == old(s)@ + ms_text(us as nat),
{
    let ms = round_div_exec(us, 1000);
    push_dec(s, ms);
}

/// Appends an instant given in microseconds as seconds with three decimals.
pub fn push_secs3(s: &mut String, us: u64)
    ensures
        final(s)@ == old(s)@ + secs3_text(us as nat),
{
    let ms = round_div_exec(us, 1000);
    push_dec(s, ms / 1000);
    push_str(s, ".");
    push_dec_fixed(s, ms % 1000, 3);
    proof {
        reveal_strlit(".");
        assert("."@ =~= seq!['.']);
    }
    assert(final(s)@ =~= old(s)@ + secs3_text(us as nat));
}

/// The dotted-quad rendering of a four-byte address.
pub open spec fn ip_text(b: Seq<u8>) -> Seq<char> {
    dec_text(b[0] as nat) + seq!['.'] + dec_text(b[1] as nat) + seq!['.']
        + dec_text(b[2] as nat) + seq!['.'] + dec_text(b[3] as nat)
}

/// The colon-separated, two-digit lowercase hexadecimal rendering of a six-byte hardware address.
pub open spec fn mac_text(m: Seq<u8>) -> Seq<char> {
    hex_text(m[0] as nat, 2) + seq![':'] + hex_text(m[1] as nat, 2) + seq![':']
        + hex_text(m[2] as nat, 2) + seq![':'] + hex_text(m[3] as nat, 2) + seq![':']
        + hex_text(m[4] as nat, 2) + seq![':'] + hex_text(m[5] as nat, 2)
}

} // verus!
