//! Digit-level helpers shared by the address resolvers and the frame
//! encoders: parsing an unsigned number from the characters of a register
//! name, and rendering numbers as ASCII decimal or upper-case hexadecimal
//! digits, optionally left-padded with zeros.

use vstd::prelude::*;

verus! {

/// Numeric value of one digit character under `radix`, accepting upper and
/// lower case letters, or `None` when the character is no digit of that
/// radix.
pub open spec fn spec_digit_val(c: char, radix: u32) -> Option<u32> {
    let v = c as u32;
    let d: int = if 48 <= v <= 57 {
        v - 48
    } else if 65 <= v <= 90 {
        v - 55
    } else if 97 <= v <= 122 {
        v - 87
    } else {
        99
    };
    if d < radix {
        Some(d as u32)
    } else {
        None
    }
}

/// Value of the digit string `s` under `radix`, read left to right; digits
/// that are invalid contribute zero (callers guard with `spec_parse_ok`).
pub open spec fn spec_parse_val(s: Seq<char>, radix: u32) -> int
    decreases s.len(),
{
    if s.len() == 0 {
        0
    } else {
        spec_parse_val(s.drop_last(), radix) * radix + (match spec_digit_val(s.last(), radix) {
            Some(d) => d as int,
            None => 0,
        })
    }
}

/// Whether every character of `s` is a digit of `radix` and the value never
/// exceeds `u32::MAX` while reading left to right.
pub open spec fn spec_parse_ok(s: Seq<char>, radix: u32) -> bool
    decreases s.len(),
{
    if s.len() == 0 {
        true
    } else {
        &&& spec_parse_ok(s.drop_last(), radix)
        &&& spec_digit_val(s.last(), radix) is Some
        &&& spec_parse_val(s, radix) <= u32::MAX
    }
}

/// A digit string parses to a `u32` when it is non-empty and stays in range.
pub open spec fn spec_parses(s: Seq<char>, radix: u32) -> bool {
    s.len() > 0 && spec_parse_ok(s, radix)
}

/// Every prefix of a digit string that parses also parses.
pub proof fn lemma_parse_ok_prefix(s: Seq<char>, radix: u32, k: int)
    requires
        0 <= k <= s.len(),
        spec_parse_ok(s, radix),
    ensures
        spec_parse_ok(s.take(k), radix),
    decreases s.len(),
{
    if k < s.len() {
        assert(s.drop_last().take(k) =~= s.take(k));
        lemma_parse_ok_prefix(s.drop_last(), radix, k);
    } else {
        assert(s.take(k) =~= s);
    }
}

pub fn digit_val(c: char, radix: u32) -> (r: Option<u32>)
    ensures
        r == spec_digit_val(c, radix),
{
    let v = c as u32;
    let d: u32 = if 48 <= v && v <= 57 {
        v - 48
    } else if 65 <= v && v <= 90 {
        v - 55
    } else if 97 <= v && v <= 122 {
        v - 87
    } else {
        99
    };
    if d < radix {
        Some(d)
    } else {
        None
    }
}

/// Parses `s` from character position `start` to its end as an unsigned
/// number in `radix`; `None` when a character is no digit of the radix or
/// the value overflows `u32`.
pub fn parse_radix(s: &str, start: usize, radix: u32) -> (r: Option<u32>)
    requires
        radix == 8 || radix == 10 || radix == 16,
        start <= s@.len(),
    ensures
        r is Some <==> spec_parses(s@.skip(start as int), radix),
        r is Some ==> r->0 == spec_parse_val(s@.skip(start as int), radix),
{
    let ghost rest = s@.skip(start as int);
    let n = s.unicode_len();
    let mut i: usize = start;
    let mut val: u32 = 0;
    while i < n
        invariant
            radix == 8 || radix == 10 || radix == 16,
            start <= i <= n == s@.len(),
            rest == s@.skip(start as int),
            spec_parse_ok(s@.subrange(start as int, i as int), radix),
            val == spec_parse_val(s@.subrange(start as int, i as int), radix),
        decreases n - i,
    {
        let c = s.get_char(i);
        let ghost prefix = s@.subrange(start as int, i as int);
        let ghost prefix1 = s@.subrange(start as int, i + 1);
        proof {
            assert(prefix1.drop_last() =~= prefix);
            assert(prefix1.last() == s@[i as int]);
        }
        match digit_val(c, radix) {
            None => {
                proof {
                    if spec_parses(rest, radix) {
                        lemma_parse_ok_prefix(rest, radix, i + 1 - start);
                        assert(rest.take(i + 1 - start) =~= prefix1);
                    }
                }
                return None;
            },
            Some(d) => {
                if val > (u32::MAX - d) / radix {
                    proof {
                        assert(val * radix + d > u32::MAX) by (nonlinear_arith)
                            requires
                                radix >= 8,
                                d < radix,
                                val > (u32::MAX - d) / (radix as int),
                        ;
                        if spec_parses(rest, radix) {
                            lemma_parse_ok_prefix(rest, radix, i + 1 - start);
                            assert(rest.take(i + 1 - start) =~= prefix1);
                        }
                    }
                    return None;
                }
                proof {
                    assert(val * radix + d <= u32::MAX) by (nonlinear_arith)
                        requires
                            radix >= 8,
                            d < radix,
                            val <= (u32::MAX - d) / (radix as int),
                    ;
                }
                val = val * radix + d;
            },
        }
        i = i + 1;
    }
    proof {
        assert(s@.subrange(start as int, n as int) =~= rest);
    }
    if start == n {
        None
    } else {
        Some(val)
    }
}

/// Decimal digits of `n`, most significant first, without padding.
pub open spec fn spec_dec_digits(n: int) -> Seq<u8>
    decreases n,
{
    if n < 10 {
        seq![(48 + n) as u8]
    } else {
        spec_dec_digits(n / 10).push((48 + n % 10) as u8)
    }
}

/// One upper-case hexadecimal digit.
pub open spec fn spec_hex_digit(d: int) -> u8 {
    if d < 10 {
        (48 + d) as u8
    } else {
        (55 + d) as u8
    }
}

/// Upper-case hexadecimal digits of `n`, most significant first, without
/// padding.
pub open spec fn spec_hex_digits(n: int) -> Seq<u8>
    decreases n,
{
    if n < 16 {
        seq![spec_hex_digit(n)]
    } else {
        spec_hex_digits(n / 16).push(spec_hex_digit(n % 16))
    }
}

/// `k` ASCII zeros (empty when `k` is not positive).
pub open spec fn spec_zeros(k: int) -> Seq<u8> {
    if k <= 0 {
        Seq::empty()
    } else {
        Seq::new(k as nat, |i| 48u8)
    }
}

/// Decimal digits of `n` left-padded with zeros to at least `width`
/// characters.
pub open spec fn spec_dec_pad(n: int, width: int) -> Seq<u8> {
    spec_zeros(width - spec_dec_digits(n).len()) + spec_dec_digits(n)
}

/// Upper-case hexadecimal digits of `n` left-padded with zeros to at least
/// `width` characters.
pub open spec fn spec_hex_pad(n: int, width: int) -> Seq<u8> {
    spec_zeros(width - spec_hex_digits(n).len()) + spec_hex_digits(n)
}

/// Appends the decimal digits of `n` to `buf`.
pub fn push_dec(buf: &mut Vec<u8>, n: u32)
    ensures
        final(buf)@ == old(buf)@ + spec_dec_digits(n as int),
    decreases n,
{
    if n >= 10 {
        push_dec(buf, n / 10);
    }
    buf.push(48 + (n % 10) as u8);
    proof {
        assert(final(buf)@ =~= old(buf)@ + spec_dec_digits(n as int));
    }
}

/// Appends the upper-case hexadecimal digits of `n` to `buf`.
pub fn push_hex(buf: &mut Vec<u8>, n: u32)
    ensures
        final(buf)@ == old(buf)@ + spec_hex_digits(n as int),
    decreases n,
{
    if n >= 16 {
        push_hex(buf, n / 16);
    }
    let d = (n % 16) as u8;
    buf.push(if d < 10 { 48 + d } else { 55 + d });
    proof {
        assert(final(buf)@ =~= old(buf)@ + spec_hex_digits(n as int));
    }
}

/// Appends the decimal digits of `n`, left-padded with zeros to at least
/// `width` characters.
pub fn push_dec_pad(buf: &mut Vec<u8>, n: u32, width: usize)
    ensures
        final(buf)@ == old(buf)@ + spec_dec_pad(n as int, width as int),
{
    let mut digits: Vec<u8> = Vec::new();
    push_dec(&mut digits, n);
    let w = digits.len();
    let mut k: usize = w;
    while k < width
        invariant
            w <= k,
            k <= width || k == w,
            w == spec_dec_digits(n as int).len(),
            buf@ == old(buf)@ + spec_zeros(k as int - w as int),
        decreases width - k,
    {
        buf.push(48);
        k = k + 1;
        proof {
            assert(buf@ =~= old(buf)@ + spec_zeros(k as int - w as int));
        }
    }
    proof {
        assert(spec_zeros(k as int - w as int) =~= spec_zeros(width - w as int));
    }
    push_dec(buf, n);
    proof {
        assert(final(buf)@ =~= old(buf)@ + spec_dec_pad(n as int, width as int));
    }
}

/// Appends the upper-case hexadecimal digits of `n`, left-padded with zeros
/// to at least `width` characters.
pub fn push_hex_pad(buf: &mut Vec<u8>, n: u32, width: usize)
    ensures
        final(buf)@ == old(buf)@ + spec_hex_pad(n as int, width as int),
{
    let mut digits: Vec<u8> = Vec::new();
    push_hex(&mut digits, n);
    let w = digits.len();
    let mut k: usize = w;
    while k < width
        invariant
            w <= k,
            k <= width || k == w,
            w == spec_hex_digits(n as int).len(),
            buf@ == old(buf)@ + spec_zeros(k as int - w as int),
        decreases width - k,
    {
        buf.push(48);
        k = k + 1;
        proof {
            assert(buf@ =~= old(buf)@ + spec_zeros(k as int - w as int));
        }
    }
    proof {
        assert(spec_zeros(k as int - w as int) =~= spec_zeros(width - w as int));
    }
    push_hex(buf, n);
    proof {
        assert(final(buf)@ =~= old(buf)@ + spec_hex_pad(n as int, width as int));
    }
}

/// One decimal digit as a character.
pub open spec fn spec_dec_char(d: int) -> char {
    if d == 0 {
        '0'
    } else if d == 1 {
        '1'
    } else if d == 2 {
        '2'
    } else if d == 3 {
        '3'
    } else if d == 4 {
        '4'
    } else if d == 5 {
        '5'
    } else if d == 6 {
        '6'
    } else if d == 7 {
        '7'
    } else if d == 8 {
        '8'
    } else {
        '9'
    }
}

/// Decimal digits of `n` as characters, most significant first.
pub open spec fn spec_dec_chars(n: int) -> Seq<char>
    decreases n,
{
    if n < 10 {
        seq![spec_dec_char(n)]
    } else {
        spec_dec_chars(n / 10).push(spec_dec_char(n % 10))
    }
}

/// One decimal digit as a string slice.
pub fn dec_digit_str(d: u32) -> (r: &'static str)
    requires
        d < 10,
    ensures
        r@ == seq![spec_dec_char(d as int)],
{
    proof {
        reveal_strlit("0");
        reveal_strlit("1");
        reveal_strlit("2");
        reveal_strlit("3");
        reveal_strlit("4");
        reveal_strlit("5");
        reveal_strlit("6");
        reveal_strlit("7");
        reveal_strlit("8");
        reveal_strlit("9");
        assert("0"@ =~= seq!['0']);
        assert("1"@ =~= seq!['1']);
        assert("2"@ =~= seq!['2']);
        assert("3"@ =~= seq!['3']);
        assert("4"@ =~= seq!['4']);
        assert("5"@ =~= seq!['5']);
        assert("6"@ =~= seq!['6']);
        assert("7"@ =~= seq!['7']);
        assert("8"@ =~= seq!['8']);
        assert("9"@ =~= seq!['9']);
    }
    if d == 0 {
        "0"
    } else if d == 1 {
        "1"
    } else if d == 2 {
        "2"
    } else if d == 3 {
        "3"
    } else if d == 4 {
        "4"
    } else if d == 5 {
        "5"
    } else if d == 6 {
        "6"
    } else if d == 7 {
        "7"
    } else if d == 8 {
        "8"
    } else {
        "9"
    }
}

/// One upper-case hexadecimal digit as a character.
pub open spec fn spec_hex_char(d: int) -> char {
    if d < 10 {
        spec_dec_char(d)
    } else if d == 10 {
        'A'
    } else if d == 11 {
        'B'
    } else if d == 12 {
        'C'
    } else if d == 13 {
        'D'
    } else if d == 14 {
        'E'
    } else {
        'F'
    }
}

/// One upper-case hexadecimal digit as a string slice.
pub fn hex_digit_str(d: u32) -> (r: &'static str)
    requires
        d < 16,
    ensures
        r@ == seq![spec_hex_char(d as int)],
{
    if d < 10 {
        dec_digit_str(d)
    } else {
        proof {
            reveal_strlit("A");
            reveal_strlit("B");
            reveal_strlit("C");
            reveal_strlit("D");
            reveal_strlit("E");
            reveal_strlit("F");
            assert("A"@ =~= seq!['A']);
            assert("B"@ =~= seq!['B']);
            assert("C"@ =~= seq!['C']);
            assert("D"@ =~= seq!['D']);
            assert("E"@ =~= seq!['E']);
            assert("F"@ =~= seq!['F']);
        }
        if d == 10 {
            "A"
        } else if d == 11 {
            "B"
        } else if d == 12 {
            "C"
        } else if d == 13 {
            "D"
        } else if d == 14 {
            "E"
        } else {
            "F"
        }
    }
}

/// Appends the decimal digits of `n` to a string.
pub fn append_dec_chars(s: &mut String, n: u32)
    ensures
        final(s)@ == old(s)@ + spec_dec_chars(n as int),
    decreases n,
{
    if n >= 10 {
        append_dec_chars(s, n / 10);
    }
    s.append(dec_digit_str(n % 10));
    proof {
        assert(final(s)@ =~= old(s)@ + spec_dec_chars(n as int));
    }
}

} // verus!
