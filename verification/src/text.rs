//! Reading scalar values out of table cells.

use vstd::prelude::*;
use vstd::string::StrSliceExecFns;

verus! {

/// The value of `c` as a digit in base `radix` (10 or 16), if it is one.
pub open spec fn digit_value(c: char, radix: int) -> Option<int> {
    if '0' <= c <= '9' {
        Some(c as int - '0' as int)
    } else if radix == 16 && 'a' <= c <= 'f' {
        Some(c as int - 'a' as int + 10)
    } else if radix == 16 && 'A' <= c <= 'F' {
        Some(c as int - 'A' as int + 10)
    } else {
        None
    }
}

/// Every character of `s` is a digit in base `radix`.
pub open spec fn all_digits(s: Seq<char>, radix: int) -> bool {
    forall|i: int| 0 <= i < s.len() ==> (#[trigger] digit_value(s[i], radix)) is Some
}

/// The number that the digits of `s` write in base `radix`, most significant
/// digit first. Characters that are no digits count as zero.
pub open spec fn digits_number(s: Seq<char>, radix: int) -> int
    decreases s.len(),
{
    if s.len() == 0 {
        0
    } else {
        let last = match digit_value(s.last(), radix) {
            Some(d) => d,
            None => 0,
        };
        digits_number(s.drop_last(), radix) * radix + last
    }
}

/// An unsigned number in base `radix`: an optional `+`, then one or more
/// digits and nothing else.
pub open spec fn parse_unsigned(s: Seq<char>, radix: int) -> Option<int> {
    let digits = if s.len() > 0 && s[0] == '+' {
        s.subrange(1, s.len() as int)
    } else {
        s
    };
    if digits.len() > 0 && all_digits(digits, radix) {
        Some(digits_number(digits, radix))
    } else {
        None
    }
}

/// `s` begins with the two characters `0x`.
pub open spec fn has_hex_prefix(s: Seq<char>) -> bool {
    s.len() >= 2 && s[0] == '0' && s[1] == 'x'
}

/// The wire code that a cell holds: a decimal number, or a hexadecimal one
/// behind the prefix `0x`, that fits in one byte.
pub open spec fn parse_code(s: Seq<char>) -> Option<u8> {
    let number = if has_hex_prefix(s) {
        parse_unsigned(s.subrange(2, s.len() as int), 16)
    } else {
        parse_unsigned(s, 10)
    };
    byte_of(number)
}

/// The number as a byte, where it is one.
pub open spec fn byte_of(number: Option<int>) -> Option<u8> {
    match number {
        Some(n) => if 0 <= n <= 255 {
            Some(n as u8)
        } else {
            None
        },
        None => None,
    }
}

/// The boolean that a cell holds: exactly `true` or `false`.
pub open spec fn parse_flag(s: Seq<char>) -> Option<bool> {
    if s == seq!['t', 'r', 'u', 'e'] {
        Some(true)
    } else if s == seq!['f', 'a', 'l', 's', 'e'] {
        Some(false)
    } else {
        None
    }
}

/// A tri-state cell: empty means unknown, anything else must be a boolean.
/// The outer `None` is a cell that holds neither.
pub open spec fn parse_tristate(s: Seq<char>) -> Option<Option<bool>> {
    if s.len() == 0 {
        Some(None)
    } else {
        match parse_flag(s) {
            Some(b) => Some(Some(b)),
            None => None,
        }
    }
}

/// A number written with digits only never shrinks when digits are added
/// at its end.
pub proof fn lemma_digits_number_grows(s: Seq<char>, radix: int, k: int)
    requires
        radix == 10 || radix == 16,
        0 <= k <= s.len(),
    ensures
        0 <= digits_number(s.take(k), radix) <= digits_number(s, radix),
    decreases s.len() - k,
{
    lemma_digits_number_nonnegative(s.take(k), radix);
    if k == s.len() {
        assert(s.take(k) =~= s);
    } else {
        lemma_digits_number_grows(s, radix, k + 1);
        let longer = s.take(k + 1);
        assert(longer.drop_last() =~= s.take(k));
        let d = match digit_value(longer.last(), radix) {
            Some(d) => d,
            None => 0,
        };
        assert(d >= 0);
        let shorter = digits_number(s.take(k), radix);
        assert(shorter * radix >= shorter) by (nonlinear_arith)
            requires
                shorter >= 0,
                radix >= 1,
        ;
    }
}

/// The number that digits write is never negative.
pub proof fn lemma_digits_number_nonnegative(s: Seq<char>, radix: int)
    requires
        radix == 10 || radix == 16,
    ensures
        0 <= digits_number(s, radix),
    decreases s.len(),
{
    if s.len() > 0 {
        lemma_digits_number_nonnegative(s.drop_last(), radix);
        let shorter = digits_number(s.drop_last(), radix);
        assert(shorter * radix >= 0) by (nonlinear_arith)
            requires
                shorter >= 0,
                radix >= 1,
        ;
    }
}

/// The digit that `c` is in base `radix`.
pub fn digit_of(c: char, radix: u32) -> (d: Option<u32>)
    requires
        radix == 10 || radix == 16,
    ensures
        match d {
            Some(v) => digit_value(c, radix as int) == Some(v as int) && v < radix,
            None => digit_value(c, radix as int) is None,
        },
{
    if '0' <= c && c <= '9' {
        Some(c as u32 - '0' as u32)
    } else if radix == 16 && 'a' <= c && c <= 'f' {
        Some(c as u32 - 'a' as u32 + 10)
    } else if radix == 16 && 'A' <= c && c <= 'F' {
        Some(c as u32 - 'A' as u32 + 10)
    } else {
        None
    }
}

/// Reads the characters of `s` from position `from` on as an unsigned number
/// in base `radix` that fits in one byte.
fn read_byte(s: &str, from: usize, radix: u32) -> (r: Option<u8>)
    requires
        radix == 10 || radix == 16,
        from <= s@.len(),
    ensures
        r == byte_of(parse_unsigned(s@.subrange(from as int, s@.len() as int), radix as int)),
{
    let len: usize = s.unicode_len();
    let ghost body = s@.subrange(from as int, len as int);
    let mut start: usize = from;
    if start < len && s.get_char(start) == '+' {
        start = start + 1;
    }
    let ghost digits = s@.subrange(start as int, len as int);
    proof {
        if start == from {
            assert(digits =~= body);
            assert(!(body.len() > 0 && body[0] == '+'));
        } else {
            assert(body.len() > 0 && body[0] == '+');
            assert(digits =~= body.subrange(1, body.len() as int));
        }
    }
    if start == len {
        return None;
    }
    proof {
        assert(digits.take(0) =~= Seq::<char>::empty());
    }
    let mut value: u32 = 0;
    let mut i: usize = start;
    while i < len
        invariant
            radix == 10 || radix == 16,
            start <= i <= len,
            len == s@.len(),
            digits == s@.subrange(start as int, len as int),
            parse_unsigned(s@.subrange(from as int, s@.len() as int), radix as int) == (if all_digits(
                digits,
                radix as int,
            ) {
                Some(digits_number(digits, radix as int))
            } else {
                None
            }),
            all_digits(digits.take(i - start), radix as int),
            value == digits_number(digits.take(i - start), radix as int),
            value <= 255,
        decreases len - i,
    {
        let c: char = s.get_char(i);
        let ghost seen = digits.take(i - start);
        let ghost next = digits.take(i - start + 1);
        proof {
            assert(next.drop_last() =~= seen);
            assert(next.last() == c);
            assert(digits[i - start] == c);
        }
        match digit_of(c, radix) {
            None => {
                proof {
                    assert(digit_value(digits[i - start], radix as int) is None);
                }
                return None;
            },
            Some(d) => {
                let grown: u32 = value * radix + d;
                proof {
                    assert(grown == digits_number(next, radix as int));
                    assert forall|j: int| 0 <= j < next.len() implies (#[trigger] digit_value(
                        next[j],
                        radix as int,
                    )) is Some by {
                        if j < seen.len() {
                            assert(next[j] == seen[j]);
                        }
                    }
                }
                if grown > 255 {
                    proof {
                        lemma_digits_number_grows(digits, radix as int, i - start + 1);
                    }
                    return None;
                }
                value = grown;
            },
        }
        i = i + 1;
    }
    proof {
        assert(digits.take(i - start) =~= digits);
    }
    Some(value as u8)
}

/// Reads a wire code from a cell.
pub fn read_code(s: &str) -> (r: Option<u8>)
    ensures
        r == parse_code(s@),
{
    let len: usize = s.unicode_len();
    proof {
        assert(s@.subrange(0, s@.len() as int) =~= s@);
    }
    if len >= 2 && s.get_char(0) == '0' && s.get_char(1) == 'x' {
        read_byte(s, 2, 16)
    } else {
        read_byte(s, 0, 10)
    }
}

/// Whether two texts hold the same characters.
pub fn same_text(a: &str, b: &str) -> (r: bool)
    ensures
        r == (a@ == b@),
{
    let len: usize = a.unicode_len();
    if len != b.unicode_len() {
        return false;
    }
    let mut i: usize = 0;
    while i < len
        invariant
            0 <= i <= len,
            len == a@.len(),
            len == b@.len(),
            a@.take(i as int) == b@.take(i as int),
        decreases len - i,
    {
        if a.get_char(i) != b.get_char(i) {
            return false;
        }
        proof {
            assert(a@.take(i + 1) =~= a@.take(i as int).push(a@[i as int]));
            assert(b@.take(i + 1) =~= b@.take(i as int).push(b@[i as int]));
        }
        i = i + 1;
    }
    proof {
        assert(a@.take(len as int) =~= a@);
        assert(b@.take(len as int) =~= b@);
    }
    true
}

/// Reads a boolean from a cell.
pub fn read_flag(s: &str) -> (r: Option<bool>)
    ensures
        r == parse_flag(s@),
{
    proof {
        reveal_strlit("true");
        reveal_strlit("false");
        assert("true"@ =~= seq!['t', 'r', 'u', 'e']);
        assert("false"@ =~= seq!['f', 'a', 'l', 's', 'e']);
    }
    if same_text(s, "true") {
        Some(true)
    } else if same_text(s, "false") {
        Some(false)
    } else {
        None
    }
}

/// Reads a tri-state value from a cell.
pub fn read_tristate(s: &str) -> (r: Option<Option<bool>>)
    ensures
        r == parse_tristate(s@),
{
    if s.unicode_len() == 0 {
        Some(None)
    } else {
        match read_flag(s) {
            Some(b) => Some(Some(b)),
            None => None,
        }
    }
}

} // verus!
