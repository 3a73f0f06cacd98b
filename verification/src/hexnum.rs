//! Hexadecimal numerals: parsing a digit string into a `u64` and rendering a
//! `u64` as a minimal lowercase digit string.

use vstd::prelude::*;

verus! {

/// Numeric value of a hexadecimal digit character; 16 for any character that
/// is not a hexadecimal digit.
pub open spec fn hex_digit_val(c: char) -> int {
    if ('0' as u32) <= (c as u32) && (c as u32) <= ('9' as u32) {
        (c as u32) - ('0' as u32)
    } else if ('a' as u32) <= (c as u32) && (c as u32) <= ('f' as u32) {
        10 + (c as u32) - ('a' as u32)
    } else if ('A' as u32) <= (c as u32) && (c as u32) <= ('F' as u32) {
        10 + (c as u32) - ('A' as u32)
    } else {
        16
    }
}

pub open spec fn is_hex_digit(c: char) -> bool {
    hex_digit_val(c) < 16
}

pub open spec fn all_hex_digits(s: Seq<char>) -> bool {
    forall|i: int| 0 <= i < s.len() ==> is_hex_digit(s[i])
}

/// Value of a digit string read most-significant-first, base 16. Characters
/// that are not digits contribute their (meaningless) value 16; callers guard
/// with `all_hex_digits`.
pub open spec fn hex_value(s: Seq<char>) -> int
    decreases s.len(),
{
    if s.len() == 0 {
        0
    } else {
        16 * hex_value(s.drop_last()) + hex_digit_val(s.last())
    }
}

/// What parsing a base-16 numeral yields: the value when the string is a
/// nonempty run of hexadecimal digits whose value fits in a `u64`, nothing
/// otherwise. A sign or prefix is not accepted.
pub open spec fn parse_hex_u64(s: Seq<char>) -> Option<u64> {
    if s.len() > 0 && all_hex_digits(s) && hex_value(s) <= 0xffff_ffff_ffff_ffffu64 {
        Some(hex_value(s) as u64)
    } else {
        None
    }
}

pub proof fn lemma_hex_value_nonneg(s: Seq<char>)
    ensures
        hex_value(s) >= 0,
    decreases s.len(),
{
    if s.len() > 0 {
        lemma_hex_value_nonneg(s.drop_last());
    }
}

/// Prefix values never decrease as more digits are read.
pub proof fn lemma_hex_value_prefix_mono(s: Seq<char>, i: int, j: int)
    requires
        0 <= i <= j <= s.len(),
    ensures
        hex_value(s.subrange(0, j)) >= hex_value(s.subrange(0, i)),
    decreases j - i,
{
    if i < j {
        lemma_hex_value_prefix_mono(s, i, j - 1);
        let p = s.subrange(0, j);
        assert(p.drop_last() =~= s.subrange(0, j - 1));
        lemma_hex_value_nonneg(s.subrange(0, j - 1));
    }
}

fn hex_digit_value(c: char) -> (r: u8)
    ensures
        r as int == hex_digit_val(c),
{
    let u = c as u32;
    if 48 <= u && u <= 57 {
        (u - 48) as u8
    } else if 97 <= u && u <= 102 {
        (u - 87) as u8
    } else if 65 <= u && u <= 70 {
        (u - 55) as u8
    } else {
        16
    }
}

/// Parse a whole string as a base-16 numeral.
pub fn parse_hex(s: &str) -> (r: Option<u64>)
    ensures
        r == parse_hex_u64(s@),
{
    let n = s.unicode_len();
    if n == 0 {
        return None;
    }
    let mut acc: u64 = 0;
    let mut i: usize = 0;
    while i < n
        invariant
            0 <= i <= n,
            n == s@.len(),
            all_hex_digits(s@.subrange(0, i as int)),
            acc as int == hex_value(s@.subrange(0, i as int)),
        decreases n - i,
    {
        let c = s.get_char(i);
        let v = hex_digit_value(c);
        if v >= 16 {
            assert(!is_hex_digit(s@[i as int]));
            return None;
        }
        if acc >= 0x1000_0000_0000_0000 {
            proof {
                let p = s@.subrange(0, i + 1 as int);
                assert(p.drop_last() =~= s@.subrange(0, i as int));
                assert(hex_value(p) >= 16 * 0x1000_0000_0000_0000);
                lemma_hex_value_prefix_mono(s@, i + 1, n as int);
                assert(s@.subrange(0, n as int) =~= s@);
                assert(hex_value(s@) > 0xffff_ffff_ffff_ffffu64);
            }
            return None;
        }
        proof {
            let p = s@.subrange(0, i + 1 as int);
            assert(p.drop_last() =~= s@.subrange(0, i as int));
            assert(p.last() == s@[i as int]);
        }
        acc = acc * 16 + (v as u64);
        i = i + 1;
    }
    proof {
        assert(s@.subrange(0, n as int) =~= s@);
    }
    Some(acc)
}

/// The sixteen digit characters, lowercase; a question mark outside 0..16.
pub open spec fn hex_char(d: int) -> char {
    if d == 0 { '0' } else if d == 1 { '1' } else if d == 2 { '2' }
    else if d == 3 { '3' } else if d == 4 { '4' } else if d == 5 { '5' }
    else if d == 6 { '6' } else if d == 7 { '7' } else if d == 8 { '8' }
    else if d == 9 { '9' } else if d == 10 { 'a' } else if d == 11 { 'b' }
    else if d == 12 { 'c' } else if d == 13 { 'd' } else if d == 14 { 'e' }
    else if d == 15 { 'f' } else { '?' }
}

/// Minimal lowercase hexadecimal rendering of a nonnegative number: most
/// significant digit first, no leading zeros, a single `0` for zero.
pub open spec fn hex_render(n: int) -> Seq<char>
    decreases n,
{
    if n < 0 {
        Seq::empty()
    } else if n < 16 {
        seq![hex_char(n)]
    } else {
        hex_render(n / 16).push(hex_char(n % 16))
    }
}

/// Rendering is the inverse of parsing: what `hex_render` produces is a
/// nonempty hexadecimal numeral that parses back to the same number.
pub proof fn lemma_hex_render_parses(n: u64)
    ensures
        parse_hex_u64(hex_render(n as int)) == Some(n),
    decreases n,
{
    let s = hex_render(n as int);
    if n < 16 {
        assert(s == seq![hex_char(n as int)]);
        assert(s.drop_last() =~= Seq::<char>::empty());
        assert(hex_value(Seq::<char>::empty()) == 0);
        assert(hex_digit_val(hex_char(n as int)) == n as int);
        assert(hex_value(s) == 16 * hex_value(s.drop_last()) + hex_digit_val(s.last()));
        assert(hex_value(s) == n as int);
        assert(is_hex_digit(s[0]));
        assert(all_hex_digits(s));
    } else {
        lemma_hex_render_parses(n / 16);
        let p = hex_render((n / 16) as int);
        lemma_hex_value_nonneg(p);
        assert(hex_value(p) == (n / 16) as int);
        assert(s == p.push(hex_char((n % 16) as int)));
        assert(s.drop_last() =~= p);
        assert(s.last() == hex_char((n % 16) as int));
        assert(hex_digit_val(hex_char((n % 16) as int)) == (n % 16) as int);
        assert(hex_value(s) == 16 * hex_value(p) + (n % 16) as int);
        assert(forall|i: int| 0 <= i < p.len() ==> is_hex_digit(#[trigger] s[i]));
        assert(is_hex_digit(s.last()));
        assert(all_hex_digits(s));
    }
}

fn hex_digit_str(d: u8) -> (r: &'static str)
    requires
        d < 16,
    ensures
        r@ =~= seq![hex_char(d as int)],
{
    proof {
        reveal_strlit("0");
        reveal_strlit("1");
        reveal_strlit("2");
        reveal_strlit("3");
        reveal_strlit("4");
        reveal_strlit("5");
        reveal_strlit("6");
        reveal_strlit("7");
        reveal_strlit("8");
        reveal_strlit("9");
        reveal_strlit("a");
        reveal_strlit("b");
        reveal_strlit("c");
        reveal_strlit("d");
        reveal_strlit("e");
        reveal_strlit("f");
    }
    match d {
        0 => "0",
        1 => "1",
        2 => "2",
        3 => "3",
        4 => "4",
        5 => "5",
        6 => "6",
        7 => "7",
        8 => "8",
        9 => "9",
        10 => "a",
        11 => "b",
        12 => "c",
        13 => "d",
        14 => "e",
        _ => "f",
    }
}

/// Render a `u64` in minimal lowercase hexadecimal.
pub fn hex_string(n: u64) -> (r: String)
    ensures
        r@ == hex_render(n as int),
    decreases n,
{
    if n < 16 {
        String::from_str(hex_digit_str(n as u8))
    } else {
        let mut s = hex_string(n / 16);
        s.append(hex_digit_str((n % 16) as u8));
        proof {
            assert(s@ =~= hex_render((n / 16) as int).push(hex_char((n % 16) as int)));
        }
        s
    }
}

} // verus!
