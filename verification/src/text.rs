//! Building text: decimal and hexadecimal renderings of integers, and the
//! two `String` mutations the library relies on.

use vstd::prelude::*;

verus! {

/// The digit character for a value below sixteen (lower-case for ten and up).
pub open spec fn digit_char(d: nat) -> char {
    if d == 0 { '0' } else if d == 1 { '1' } else if d == 2 { '2' } else if d == 3 { '3' }
    else if d == 4 { '4' } else if d == 5 { '5' } else if d == 6 { '6' } else if d == 7 { '7' }
    else if d == 8 { '8' } else if d == 9 { '9' } else if d == 10 { 'a' } else if d == 11 { 'b' }
    else if d == 12 { 'c' } else if d == 13 { 'd' } else if d == 14 { 'e' } else { 'f' }
}

/// The digits of `n` in base `b`, most significant first, without leading
/// zeros (`"0"` for zero).
pub open spec fn digits(n: nat, b: nat) -> Seq<char>
    decreases n,
{
    if b < 2 || n < b {
        seq![digit_char(n)]
    } else {
        proof {
            assert(n / b < n) by (nonlinear_arith)
                requires
                    b >= 2,
                    n >= b,
            ;
        }
        digits(n / b, b).push(digit_char(n % b))
    }
}

/// Decimal rendering of a natural number (`{}`).
pub open spec fn dec(n: nat) -> Seq<char> {
    digits(n, 10)
}

/// Decimal rendering of a signed integer (`{}`).
pub open spec fn dec_signed(n: int) -> Seq<char> {
    if n < 0 {
        seq!['-'] + dec((-n) as nat)
    } else {
        dec(n as nat)
    }
}

/// Lower-case hexadecimal digits without prefix (`{:x}`).
pub open spec fn hex(n: nat) -> Seq<char> {
    digits(n, 16)
}

/// `n` zeros.
pub open spec fn zeros(n: nat) -> Seq<char> {
    Seq::new(n, |i: int| '0')
}

/// `{:#x}`: `0x` followed by the lower-case hexadecimal digits.
pub open spec fn hex_prefixed(n: nat) -> Seq<char> {
    seq!['0', 'x'] + hex(n)
}

/// `{:#0Wx}`: `0x` followed by the hexadecimal digits, zero-padded so that
/// the whole rendering, prefix included, is at least `width` characters.
pub open spec fn hex_padded(n: nat, width: nat) -> Seq<char> {
    let h = hex(n);
    if h.len() + 2 < width {
        seq!['0', 'x'] + zeros((width - 2 - h.len()) as nat) + h
    } else {
        seq!['0', 'x'] + h
    }
}

#[verifier::external_body]
/// Appends one character to a string (`String::push`); the contract claims
/// that the character is added at the end and nothing else changes.
pub(crate) fn push_char(s: &mut String, c: char)
    ensures
        final(s)@ == old(s)@.push(c),
{
    s.push(c);
}

#[verifier::external_body]
/// Appends a string slice (`String::push_str`); the contract claims that the
/// characters of `t` are added at the end and nothing else changes.
pub(crate) fn push_str(s: &mut String, t: &str)
    ensures
        final(s)@ == old(s)@ + t@,
{
    s.push_str(t);
}

/// The digit character for `d`.
pub fn digit(d: u64) -> (c: char)
    requires
        d < 16,
    ensures
        c == digit_char(d as nat),
{
    if d == 0 { '0' } else if d == 1 { '1' } else if d == 2 { '2' } else if d == 3 { '3' }
    else if d == 4 { '4' } else if d == 5 { '5' } else if d == 6 { '6' } else if d == 7 { '7' }
    else if d == 8 { '8' } else if d == 9 { '9' } else if d == 10 { 'a' } else if d == 11 { 'b' }
    else if d == 12 { 'c' } else if d == 13 { 'd' } else if d == 14 { 'e' } else { 'f' }
}

/// The digits of `n` in base `base` (ten or sixteen).
pub fn digits_of(n: u64, base: u64) -> (v: Vec<char>)
    requires
        base == 10 || base == 16,
    ensures
        v@ == digits(n as nat, base as nat),
{
    let mut v: Vec<char> = Vec::new();
    let mut m: u64 = n;
    while m >= base
        invariant
            base == 10 || base == 16,
            digits(n as nat, base as nat) == digits(m as nat, base as nat) + v@,
        decreases m,
    {
        let c = digit(m % base);
        let ghost old_v = v@;
        v.insert(0, c);
        proof {
            assert(digits(m as nat, base as nat) == digits((m / base) as nat, base as nat).push(c));
            assert(digits((m / base) as nat, base as nat).push(c) + old_v
                =~= digits((m / base) as nat, base as nat) + v@);
        }
        m = m / base;
    }
    let c = digit(m);
    let ghost old_v = v@;
    v.insert(0, c);
    assert(digits(m as nat, base as nat) + old_v =~= v@);
    v
}

/// Appends every character of `v` to `out`.
pub fn push_chars(out: &mut String, v: &Vec<char>)
    ensures
        final(out)@ == old(out)@ + v@,
{
    let mut i: usize = 0;
    while i < v.len()
        invariant
            i <= v.len(),
            out@ == old(out)@ + v@.subrange(0, i as int),
        decreases v.len() - i,
    {
        push_char(out, v[i]);
        assert(v@.subrange(0, i + 1) =~= v@.subrange(0, i as int).push(v@[i as int]));
        i = i + 1;
    }
    assert(v@.subrange(0, v.len() as int) =~= v@);
}

/// Appends the decimal rendering of `n`.
pub fn push_dec(out: &mut String, n: u64)
    ensures
        final(out)@ == old(out)@ + dec(n as nat),
{
    let v = digits_of(n, 10);
    push_chars(out, &v);
}

/// Appends the decimal rendering of a signed `n`.
pub fn push_dec_signed(out: &mut String, n: i64)
    ensures
        final(out)@ == old(out)@ + dec_signed(n as int),
{
    if n < 0 {
        push_char(out, '-');
        let m: u64 = if n == i64::MIN {
            0x8000_0000_0000_0000u64
        } else {
            (-n) as u64
        };
        let v = digits_of(m, 10);
        push_chars(out, &v);
        assert(out@ =~= old(out)@ + dec_signed(n as int));
    } else {
        push_dec(out, n as u64);
    }
}

/// Appends `{:#x}` of `n`.
pub fn push_hex_prefixed(out: &mut String, n: u64)
    ensures
        final(out)@ == old(out)@ + hex_prefixed(n as nat),
{
    push_char(out, '0');
    push_char(out, 'x');
    let v = digits_of(n, 16);
    push_chars(out, &v);
    assert(out@ =~= old(out)@ + hex_prefixed(n as nat));
}

/// Appends `{:#0Wx}` of `n` for a field `width` characters wide.
pub fn push_hex_padded(out: &mut String, n: u64, width: usize)
    ensures
        final(out)@ == old(out)@ + hex_padded(n as nat, width as nat),
{
    push_char(out, '0');
    push_char(out, 'x');
    let v = digits_of(n, 16);
    let ghost start = out@;
    if v.len() < width && width - v.len() > 2 {
        let pad = width - 2 - v.len();
        let mut i: usize = 0;
        while i < pad
            invariant
                i <= pad,
                out@ == start + zeros(i as nat),
            decreases pad - i,
        {
            push_char(out, '0');
            assert(zeros((i + 1) as nat) =~= zeros(i as nat).push('0'));
            i = i + 1;
        }
    }
    push_chars(out, &v);
    assert(out@ =~= old(out)@ + hex_padded(n as nat, width as nat));
}

} // verus!

verus! {

/// A new string with the characters of `s`.
pub fn owned(s: &str) -> (r: String)
    ensures
        r@ == s@,
{
    let mut r = String::new();
    push_str(&mut r, s);
    assert(r@ =~= s@);
    r
}

/// The characters of `s`, in order.
pub fn chars_of(s: &str) -> (v: Vec<char>)
    ensures
        v@ == s@,
{
    let mut v: Vec<char> = Vec::new();
    for c in it: s.chars()
        invariant
            v@ == it.seq().take(it.index() as int),
    {
        v.push(c);
    }
    v
}

} // verus!
