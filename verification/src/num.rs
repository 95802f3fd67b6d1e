//! Decimal integer formatting and parsing, with the exact semantics of
//! `Display` for integers and of `str::parse` for `usize`/`i64`.

use vstd::prelude::*;
use crate::text::chars_of;

verus! {

pub open spec fn digit_char(d: nat) -> char {
    ((d + 48) as u32) as char
}

/// Decimal text of a natural number (no sign, no leading zeros).
pub open spec fn dec(n: nat) -> Seq<char>
    decreases n,
{
    if n < 10 {
        seq![digit_char(n)]
    } else {
        dec(n / 10).push(digit_char(n % 10))
    }
}

/// Decimal text of an integer, `-` in front of a negative one.
pub open spec fn dec_int(n: int) -> Seq<char> {
    if n < 0 {
        seq!['-'] + dec((-n) as nat)
    } else {
        dec(n as nat)
    }
}

fn digit(d: u64) -> (c: char)
    requires
        d < 10,
    ensures
        c == digit_char(d as nat),
{
    let b: u8 = (d as u8) + 48;
    let c = b as char;
    assert(c == digit_char(d as nat)) by {
        assert(b as u32 == (d + 48) as u32);
    }
    c
}

/// Appends the decimal text of `n` to `s`.
pub fn push_u64(s: &mut String, n: u64)
    ensures
        final(s)@ == old(s)@ + dec(n as nat),
    decreases n,
{
    if n >= 10 {
        push_u64(s, n / 10);
    }
    s.push(digit(n % 10));
    assert(n >= 10 ==> dec(n as nat) == dec((n / 10) as nat).push(digit_char((n % 10) as nat)));
}

/// Appends the decimal text of `n` (with a `-` when negative) to `s`.
pub fn push_i64(s: &mut String, n: i64)
    ensures
        final(s)@ == old(s)@ + dec_int(n as int),
{
    if n < 0 {
        s.push('-');
        let m: u64 = (0i128 - (n as i128)) as u64;
        push_u64(s, m);
        assert(old(s)@.push('-') + dec(m as nat) == old(s)@ + dec_int(n as int));
    } else {
        push_u64(s, n as u64);
    }
}

/// `n.to_string()` for a `u64`.
pub fn u64_to_string(n: u64) -> (r: String)
    ensures
        r@ == dec(n as nat),
{
    let mut s = String::new();
    push_u64(&mut s, n);
    assert(Seq::<char>::empty() + dec(n as nat) == dec(n as nat));
    s
}

// ---------------------------------------------------------------------------
// Parsing.

pub open spec fn is_digit(c: char) -> bool {
    '0' <= c <= '9'
}

pub open spec fn all_digits(s: Seq<char>) -> bool {
    forall|i: int| 0 <= i < s.len() ==> is_digit(#[trigger] s[i])
}

/// Value of a string of decimal digits.
pub open spec fn digits_value(s: Seq<char>) -> nat
    decreases s.len(),
{
    if s.len() == 0 {
        0
    } else {
        digits_value(s.drop_last()) * 10 + ((s.last() as u32) - 48) as nat
    }
}

/// The digits after an optional leading `+`.
pub open spec fn unsigned_digits(s: Seq<char>) -> Seq<char> {
    if s.len() > 0 && s[0] == '+' {
        s.drop_first()
    } else {
        s
    }
}

/// `s.parse::<uN>()` for an unsigned type whose maximum is `max`: an optional
/// `+`, then one or more ASCII digits, with a value no larger than `max`.
pub open spec fn parse_unsigned(s: Seq<char>, max: nat) -> Option<nat> {
    let d = unsigned_digits(s);
    if d.len() > 0 && all_digits(d) && digits_value(d) <= max {
        Some(digits_value(d))
    } else {
        None
    }
}

/// `s.parse::<i64>()`: an optional `+` or `-`, then one or more ASCII
/// digits, with a value inside the range of `i64`.
pub open spec fn parse_i64_spec(s: Seq<char>) -> Option<int> {
    if s.len() > 0 && s[0] == '-' {
        let d = s.drop_first();
        if d.len() > 0 && all_digits(d) && digits_value(d) <= 0x8000_0000_0000_0000 {
            Some(-(digits_value(d) as int))
        } else {
            None
        }
    } else {
        match parse_unsigned(s, 0x7fff_ffff_ffff_ffff) {
            Some(v) => Some(v as int),
            None => None,
        }
    }
}

proof fn lemma_digits_value_take_mono(s: Seq<char>, i: int, j: int)
    requires
        0 <= i <= j <= s.len(),
        all_digits(s),
    ensures
        digits_value(s.take(i)) <= digits_value(s.take(j)),
    decreases j - i,
{
    if i < j {
        lemma_digits_value_take_mono(s, i, j - 1);
        assert(s.take(j).drop_last() =~= s.take(j - 1));
        assert(is_digit(s[j - 1]));
    }
}

/// Accumulates the value of the digits `v[lo..hi]`, or `None` when they are
/// not all digits, are empty, or their value exceeds `max`.
fn digits_in_range(v: &Vec<char>, lo: usize, hi: usize, max: u64) -> (r: Option<u64>)
    requires
        lo <= hi <= v.len(),
    ensures
        ({
            let d = v@.subrange(lo as int, hi as int);
            match r {
                Some(x) => d.len() > 0 && all_digits(d) && digits_value(d) <= max && x
                    == digits_value(d),
                None => !(d.len() > 0 && all_digits(d) && digits_value(d) <= max),
            }
        }),
{
    let ghost d = v@.subrange(lo as int, hi as int);
    if lo == hi {
        return None;
    }
    let mut i = lo;
    while i < hi
        invariant
            lo <= i <= hi <= v.len(),
            d == v@.subrange(lo as int, hi as int),
            forall|j: int| lo <= j < i ==> is_digit(#[trigger] v@[j]),
        decreases hi - i,
    {
        if !('0' <= v[i] && v[i] <= '9') {
            assert(!is_digit(d[i - lo]));
            return None;
        }
        i = i + 1;
    }
    assert(all_digits(d));
    let mut acc: u64 = 0;
    let mut k = lo;
    while k < hi
        invariant
            lo <= k <= hi <= v.len(),
            d == v@.subrange(lo as int, hi as int),
            all_digits(d),
            acc as nat == digits_value(d.take(k - lo)),
            acc <= max,
        decreases hi - k,
    {
        assert(d.take(k + 1 - lo).drop_last() =~= d.take(k - lo));
        assert(d.take(k + 1 - lo).last() == v@[k as int]);
        assert(is_digit(d[k - lo]));
        assert(d[k - lo] == v@[k as int]);
        let dv: u64 = ((v[k] as u32) - 48) as u64;
        if dv > max || acc > (max - dv) / 10 {
            proof {
                assert(digits_value(d.take(k + 1 - lo)) == acc * 10 + dv);
                assert(acc * 10 + dv > max) by (nonlinear_arith)
                    requires
                        dv > max || acc > (max - dv) / 10,
                ;
                lemma_digits_value_take_mono(d, k + 1 - lo, d.len() as int);
                assert(d.take(d.len() as int) =~= d);
            }
            return None;
        }
        proof {
            assert(acc * 10 + dv <= max) by (nonlinear_arith)
                requires
                    acc <= (max - dv) / 10,
                    dv <= 9,
                    dv <= max,
            ;
        }
        acc = acc * 10 + dv;
        k = k + 1;
    }
    assert(d.take(d.len() as int) =~= d);
    Some(acc)
}

/// `s.parse::<usize>()` restricted to the values of a `u64` no larger than
/// `max`; the `None` case covers every input `parse` rejects.
pub fn parse_unsigned_chars(v: &Vec<char>, lo: usize, hi: usize, max: u64) -> (r: Option<u64>)
    requires
        lo <= hi <= v.len(),
    ensures
        match r {
            Some(x) => parse_unsigned(v@.subrange(lo as int, hi as int), max as nat) == Some(
                x as nat,
            ),
            None => parse_unsigned(v@.subrange(lo as int, hi as int), max as nat).is_none(),
        },
{
    let ghost s = v@.subrange(lo as int, hi as int);
    if lo < hi && v[lo] == '+' {
        assert(s.drop_first() =~= v@.subrange(lo + 1, hi as int));
        digits_in_range(v, lo + 1, hi, max)
    } else {
        digits_in_range(v, lo, hi, max)
    }
}

/// `s.parse::<usize>()` on a 64-bit target.
pub fn parse_usize_chars(v: &Vec<char>, lo: usize, hi: usize) -> (r: Option<usize>)
    requires
        lo <= hi <= v.len(),
    ensures
        match r {
            Some(x) => parse_unsigned(v@.subrange(lo as int, hi as int), usize::MAX as nat)
                == Some(x as nat),
            None => parse_unsigned(v@.subrange(lo as int, hi as int), usize::MAX as nat).is_none(),
        },
{
    match parse_unsigned_chars(v, lo, hi, usize::MAX as u64) {
        Some(x) => Some(x as usize),
        None => None,
    }
}

/// `s.parse::<i64>()`.
pub fn parse_i64_chars(v: &Vec<char>, lo: usize, hi: usize) -> (r: Option<i64>)
    requires
        lo <= hi <= v.len(),
    ensures
        match r {
            Some(x) => parse_i64_spec(v@.subrange(lo as int, hi as int)) == Some(x as int),
            None => parse_i64_spec(v@.subrange(lo as int, hi as int)).is_none(),
        },
{
    let ghost s = v@.subrange(lo as int, hi as int);
    if lo < hi && v[lo] == '-' {
        assert(s.drop_first() =~= v@.subrange(lo + 1, hi as int));
        match digits_in_range(v, lo + 1, hi, 0x8000_0000_0000_0000u64) {
            Some(m) => {
                if m == 0x8000_0000_0000_0000u64 {
                    Some(i64::MIN)
                } else {
                    Some(0i64 - (m as i64))
                }
            },
            None => None,
        }
    } else {
        match parse_unsigned_chars(v, lo, hi, 0x7fff_ffff_ffff_ffffu64) {
            Some(x) => Some(x as i64),
            None => None,
        }
    }
}

/// `s.parse::<i64>()` on a whole string.
pub fn parse_i64_str(s: &str) -> (r: Option<i64>)
    ensures
        match r {
            Some(x) => parse_i64_spec(s@) == Some(x as int),
            None => parse_i64_spec(s@).is_none(),
        },
{
    let v = chars_of(s);
    assert(v@.subrange(0, v@.len() as int) == v@);
    parse_i64_chars(&v, 0, v.len())
}

/// The decimal text of `n` is a non-empty run of digits whose value is `n`.
pub proof fn lemma_dec_digits(n: nat)
    ensures
        dec(n).len() > 0,
        all_digits(dec(n)),
        digits_value(dec(n)) == n,
    decreases n,
{
    let d = n % 10;
    assert((digit_char(d) as u32) == d + 48) by {
        let u: u32 = (d + 48) as u32;
        assert(u as char as u32 == u);
    }
    if n < 10 {
        assert(n % 10 == n);
        assert(dec(n).drop_last() =~= Seq::<char>::empty());
        assert(dec(n).last() == digit_char(d));
        assert(digits_value(dec(n)) == digits_value(dec(n).drop_last()) * 10 + ((digit_char(d) as u32)
            - 48) as nat);
    } else {
        lemma_dec_digits(n / 10);
        assert(dec(n).drop_last() =~= dec(n / 10));
        assert(dec(n).last() == digit_char(d));
        assert(digits_value(dec(n)) == digits_value(dec(n / 10)) * 10 + d);
        assert((n / 10) * 10 + n % 10 == n);
    }
}

/// `str::parse::<i64>` reads back the decimal text `Display` writes.
pub proof fn lemma_parse_dec_int(v: int)
    requires
        -0x8000_0000_0000_0000 <= v <= 0x7fff_ffff_ffff_ffff,
    ensures
        parse_i64_spec(dec_int(v)) == Some(v),
        crate::text::trim(dec_int(v)) == dec_int(v),
{
    let s = dec_int(v);
    if v < 0 {
        lemma_dec_digits((-v) as nat);
        assert(s.drop_first() =~= dec((-v) as nat));
    } else {
        lemma_dec_digits(v as nat);
    }
    assert(!crate::text::is_ws(s[0]));
    assert(!crate::text::is_ws(s.last()));
}

} // verus!
