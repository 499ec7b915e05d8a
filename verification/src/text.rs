use vstd::prelude::*;

verus! {

/// `String::push` (std) appends one character to the end of the string.
pub assume_specification[ String::push ](s: &mut String, ch: char)
    ensures
        final(s)@ == old(s)@.push(ch),
;

/// The lower-case hexadecimal digit of `d`, for `0 <= d < 16`.
pub open spec fn hex_digit(d: int) -> char
    recommends
        0 <= d < 16,
{
    seq!['0', '1', '2', '3', '4', '5', '6', '7', '8', '9', 'a', 'b', 'c', 'd', 'e', 'f'][d]
}

/// The digits of `v` in lower-case hexadecimal, without leading zeros (`0` is `"0"`).
pub open spec fn hex_digits(v: nat) -> Seq<char>
    decreases v,
{
    if v < 16 {
        seq![hex_digit(v as int)]
    } else {
        hex_digits(v / 16).push(hex_digit((v % 16) as int))
    }
}

/// `n` copies of `c`.
pub open spec fn repeat_char(c: char, n: nat) -> Seq<char> {
    Seq::new(n, |i: int| c)
}

/// `v` in lower-case hexadecimal, padded with zeros on the left to at least
/// `width` digits: what `format!("{:0w$x}", v)` gives for `w == width`.
pub open spec fn hex(v: nat, width: nat) -> Seq<char> {
    let d = hex_digits(v);
    if d.len() >= width {
        d
    } else {
        repeat_char('0', (width - d.len()) as nat) + d
    }
}

/// A value below `16^k` has at most `k` hexadecimal digits.
pub proof fn lemma_hex_digits_len(v: nat, k: nat)
    requires
        k >= 1,
        v < pow16(k),
    ensures
        1 <= hex_digits(v).len() <= k,
    decreases v,
{
    if v >= 16 {
        assert(k >= 2) by {
            if k < 2 {
                assert(pow16(1) == 16) by { reveal_with_fuel(pow16, 2); }
            }
        }
        assert(pow16(k) == 16 * pow16((k - 1) as nat));
        assert(v / 16 < pow16((k - 1) as nat));
        lemma_hex_digits_len(v / 16, (k - 1) as nat);
    }
}

/// `16^k`.
pub open spec fn pow16(k: nat) -> nat
    decreases k,
{
    if k == 0 {
        1
    } else {
        16 * pow16((k - 1) as nat)
    }
}

/// A 16-bit value printed with width 4 has exactly four digits; a byte printed
/// with width 2 has exactly two.
pub proof fn lemma_hex_width(v: nat, width: nat)
    requires
        (width == 4 && v < 0x10000) || (width == 2 && v < 0x100),
    ensures
        hex(v, width).len() == width,
{
    reveal_with_fuel(pow16, 5);
    lemma_hex_digits_len(v, width);
}

/// The hexadecimal digit character of `d`.
pub fn hex_digit_char(d: u16) -> (c: char)
    requires
        d < 16,
    ensures
        c == hex_digit(d as int),
{
    match d {
        0 => '0',
        1 => '1',
        2 => '2',
        3 => '3',
        4 => '4',
        5 => '5',
        6 => '6',
        7 => '7',
        8 => '8',
        9 => '9',
        10 => 'a',
        11 => 'b',
        12 => 'c',
        13 => 'd',
        14 => 'e',
        _ => 'f',
    }
}

fn push_hex_digits(s: &mut String, v: u16)
    ensures
        final(s)@ == old(s)@ + hex_digits(v as nat),
    decreases v,
{
    if v >= 16 {
        push_hex_digits(s, v / 16);
    }
    let c = hex_digit_char(v % 16);
    let ghost mid = s@;
    s.push(c);
    proof {
        if v >= 16 {
            assert(hex_digits(v as nat) == hex_digits((v / 16) as nat).push(c));
            assert(s@ == old(s)@ + hex_digits(v as nat));
        } else {
            assert(hex_digits(v as nat) == seq![c]);
            assert(s@ == old(s)@ + hex_digits(v as nat));
        }
    }
}

/// Appends `v` in lower-case hexadecimal, zero-padded to at least `width` digits.
pub fn push_hex(s: &mut String, v: u16, width: usize)
    ensures
        final(s)@ == old(s)@ + hex(v as nat, width as nat),
{
    let mut digits = String::new();
    push_hex_digits(&mut digits, v);
    assert(digits@ == hex_digits(v as nat));
    let n = digits.as_str().unicode_len();
    let mut i = n;
    while i < width
        invariant
            n <= i,
            i <= width || i == n,
            s@ == old(s)@ + repeat_char('0', (i - n) as nat),
        decreases width - i,
    {
        s.push('0');
        assert(repeat_char('0', (i + 1 - n) as nat) == repeat_char('0', (i - n) as nat).push('0'));
        i = i + 1;
    }
    s.append(digits.as_str());
    proof {
        if n >= width {
            assert(repeat_char('0', 0) == Seq::<char>::empty());
            assert(s@ == old(s)@ + hex(v as nat, width as nat));
        } else {
            assert(i == width);
            assert(s@ == old(s)@ + hex(v as nat, width as nat));
        }
    }
}

/// Appends `n` spaces.
pub fn push_spaces(s: &mut String, n: usize)
    ensures
        final(s)@ == old(s)@ + repeat_char(' ', n as nat),
{
    let mut i: usize = 0;
    while i < n
        invariant
            i <= n,
            s@ == old(s)@ + repeat_char(' ', i as nat),
        decreases n - i,
    {
        s.push(' ');
        assert(repeat_char(' ', (i + 1) as nat) == repeat_char(' ', i as nat).push(' '));
        i = i + 1;
    }
}

} // verus!
