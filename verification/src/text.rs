//! Small verified helpers for text: equality of string slices, decimal
//! rendering of integers, and decimal parsing.  They are shared by the JSON
//! renderer, the message store and the command-line settings.

use vstd::prelude::*;

verus! {

/// Relies on std's `String::push`: appends exactly one character at the end.
#[verifier::external_body]
pub fn push_char(s: &mut String, c: char)
    ensures
        final(s)@ == old(s)@.push(c),
{
    s.push(c);
}

/// Character-wise equality of two string slices.
pub fn str_eq(a: &str, b: &str) -> (r: bool)
    ensures
        r == (a@ == b@),
{
    let la = a.unicode_len();
    let lb = b.unicode_len();
    if la != lb {
        return false;
    }
    let mut i: usize = 0;
    while i < la
        invariant
            la == a@.len(),
            la == b@.len(),
            i <= la,
            forall|j: int| 0 <= j < i ==> a@[j] == b@[j],
        decreases la - i,
    {
        if a.get_char(i) != b.get_char(i) {
            return false;
        }
        i = i + 1;
    }
    proof {
        assert(a@ =~= b@);
    }
    true
}

/// The decimal digit for a value below ten.
pub open spec fn digit_char(d: nat) -> char {
    if d == 0 {
        '0'
    } else if d == 1 {
        '1'
    } else if d == 2 {
        '2'
    } else if d == 3 {
        '3'
    } else if d == 4 {
        '4'
    } else if d == 5 {
        '5'
    } else if d == 6 {
        '6'
    } else if d == 7 {
        '7'
    } else if d == 8 {
        '8'
    } else {
        '9'
    }
}

pub fn digit_char_exec(d: u8) -> (c: char)
    requires
        d < 10,
    ensures
        c == digit_char(d as nat),
{
    if d == 0 {
        '0'
    } else if d == 1 {
        '1'
    } else if d == 2 {
        '2'
    } else if d == 3 {
        '3'
    } else if d == 4 {
        '4'
    } else if d == 5 {
        '5'
    } else if d == 6 {
        '6'
    } else if d == 7 {
        '7'
    } else if d == 8 {
        '8'
    } else {
        '9'
    }
}

/// The decimal digits of `n`, most significant first, with no leading zeros
/// (the single digit `0` for zero).
pub open spec fn dec_digits(n: nat) -> Seq<char>
    decreases n,
{
    if n < 10 {
        seq![digit_char(n)]
    } else {
        dec_digits(n / 10).push(digit_char(n % 10))
    }
}

/// Appends the decimal rendering of `n` to `out`.
pub fn write_u64(n: u64, out: &mut String)
    ensures
        final(out)@ == old(out)@ + dec_digits(n as nat),
    decreases n,
{
    if n < 10 {
        push_char(out, digit_char_exec(n as u8));
    } else {
        write_u64(n / 10, out);
        push_char(out, digit_char_exec((n % 10) as u8));
    }
}

pub fn u64_to_string(n: u64) -> (r: String)
    ensures
        r@ == dec_digits(n as nat),
{
    let mut out = String::new();
    write_u64(n, &mut out);
    out
}

/// The decimal rendering of a signed value: a minus sign, if negative,
/// followed by the digits of its magnitude.
pub open spec fn dec_digits_signed(n: int) -> Seq<char> {
    if n >= 0 {
        dec_digits(n as nat)
    } else {
        seq!['-'] + dec_digits((-n) as nat)
    }
}

pub fn i64_to_string(n: i64) -> (r: String)
    ensures
        r@ == dec_digits_signed(n as int),
{
    let mut out = String::new();
    if n >= 0 {
        write_u64(n as u64, &mut out);
    } else {
        push_char(&mut out, '-');
        let m: u64 = if n == i64::MIN {
            9223372036854775808u64
        } else {
            (-n) as u64
        };
        assert(m as int == -(n as int));
        write_u64(m, &mut out);
        assert(out@ =~= seq!['-'] + dec_digits(m as nat));
    }
    out
}

/// Whether `c` is a decimal digit.
pub open spec fn is_dec_digit(c: char) -> bool {
    '0' <= c && c <= '9'
}

/// The numeric value of a decimal digit.
pub open spec fn digit_val(c: char) -> nat {
    (c as nat - '0' as nat) as nat
}

/// Whether every character of `s` is a decimal digit.
pub open spec fn all_dec_digits(s: Seq<char>) -> bool {
    forall|i: int| 0 <= i < s.len() ==> is_dec_digit(#[trigger] s[i])
}

/// The value of a digit string read as a decimal number.
pub open spec fn dec_value(s: Seq<char>) -> nat
    decreases s.len(),
{
    if s.len() == 0 {
        0
    } else {
        dec_value(s.drop_last()) * 10 + digit_val(s.last())
    }
}

pub proof fn lemma_dec_value_take_mono(s: Seq<char>, i: int, bound: nat)
    requires
        0 <= i <= s.len(),
        dec_value(s.take(i)) > bound,
    ensures
        dec_value(s) > bound,
    decreases s.len() - i,
{
    if i == s.len() {
        assert(s.take(i) =~= s);
    } else {
        assert(s.take(i + 1).drop_last() =~= s.take(i));
        assert(dec_value(s.take(i + 1)) == dec_value(s.take(i)) * 10 + digit_val(
            s.take(i + 1).last(),
        ));
        lemma_dec_value_take_mono(s, i + 1, bound);
    }
}

/// Parses a string of decimal digits as a `u32`.  Returns `Some` exactly when
/// the string is non-empty, holds digits only, and its value fits in 32 bits.
pub fn parse_u32(s: &str) -> (r: Option<u32>)
    ensures
        r is Some <==> s@.len() > 0 && all_dec_digits(s@) && dec_value(s@) <= u32::MAX,
        r is Some ==> r->0 as nat == dec_value(s@),
{
    let n = s.unicode_len();
    if n == 0 {
        return None;
    }
    let mut acc: u64 = 0;
    let mut i: usize = 0;
    while i < n
        invariant
            n == s@.len(),
            0 < n,
            i <= n,
            all_dec_digits(s@.take(i as int)),
            acc as nat == dec_value(s@.take(i as int)),
            acc <= u32::MAX,
        decreases n - i,
    {
        let c = s.get_char(i);
        if c < '0' || c > '9' {
            assert(!is_dec_digit(s@[i as int]));
            return None;
        }
        let d: u64 = (c as u64) - 48;
        let next: u64 = acc * 10 + d;
        proof {
            assert(s@.take(i + 1).drop_last() =~= s@.take(i as int));
            assert(s@.take(i + 1).last() == s@[i as int]);
        }
        if next > 0xffff_ffff {
            proof {
                lemma_dec_value_take_mono(s@, i + 1, u32::MAX as nat);
            }
            return None;
        }
        acc = next;
        i = i + 1;
    }
    proof {
        assert(s@.take(n as int) =~= s@);
    }
    Some(acc as u32)
}

/// Parses a string of decimal digits as a `u8`.  Returns `Some` exactly when
/// the string is non-empty, holds digits only, and its value fits in a byte.
pub fn parse_u8(s: &str) -> (r: Option<u8>)
    ensures
        r is Some <==> s@.len() > 0 && all_dec_digits(s@) && dec_value(s@) <= 255,
        r is Some ==> r->0 as nat == dec_value(s@),
{
    let n = s.unicode_len();
    if n == 0 {
        return None;
    }
    let mut acc: u32 = 0;
    let mut i: usize = 0;
    while i < n
        invariant
            n == s@.len(),
            0 < n,
            i <= n,
            all_dec_digits(s@.take(i as int)),
            acc as nat == dec_value(s@.take(i as int)),
            acc <= 255,
        decreases n - i,
    {
        let c = s.get_char(i);
        if c < '0' || c > '9' {
            assert(!is_dec_digit(s@[i as int]));
            return None;
        }
        let d: u32 = (c as u32) - 48;
        let next: u32 = acc * 10 + d;
        proof {
            assert(s@.take(i + 1).drop_last() =~= s@.take(i as int));
            assert(s@.take(i + 1).last() == s@[i as int]);
        }
        if next > 255 {
            proof {
                lemma_dec_value_take_mono(s@, i + 1, 255);
            }
            return None;
        }
        acc = next;
        i = i + 1;
    }
    proof {
        assert(s@.take(n as int) =~= s@);
    }
    Some(acc as u8)
}

} // verus!
