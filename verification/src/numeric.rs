//! Verified decimal formatting and parsing for the integer offsets that the
//! comet protocol carries in URLs and payloads.

use vstd::prelude::*;

verus! {

/// Whether `c` is an ASCII decimal digit.
pub open spec fn is_digit(c: char) -> bool {
    48 <= c as u32 <= 57
}

/// Numeric value of an ASCII decimal digit.
pub open spec fn digit_val(c: char) -> int {
    c as u32 - 48
}

/// The ASCII digit character for a value below ten.
pub open spec fn digit_char(d: int) -> char {
    ((48 + d) as u8) as char
}

/// Decimal digits of `n`, most significant first; empty for zero.
pub open spec fn dec_rec(n: nat) -> Seq<char>
    decreases n,
{
    if n == 0 {
        seq![]
    } else {
        dec_rec(n / 10).push(digit_char(n as int % 10))
    }
}

/// Decimal representation of an unsigned value, as it is written in a URL.
pub open spec fn dec_u64(n: nat) -> Seq<char> {
    if n == 0 {
        seq!['0']
    } else {
        dec_rec(n)
    }
}

/// Decimal representation of a signed value: a minus sign for negatives.
pub open spec fn dec_i64(n: int) -> Seq<char> {
    if n >= 0 {
        dec_u64(n as nat)
    } else {
        seq!['-'] + dec_u64((-n) as nat)
    }
}

/// Whether `s` is a non-empty run of ASCII digits.
pub open spec fn all_digits(s: Seq<char>) -> bool {
    forall|i: int| 0 <= i < s.len() ==> is_digit(#[trigger] s[i])
}

/// Value of a run of ASCII digits read as a decimal number.
pub open spec fn dec_val(s: Seq<char>) -> int
    decreases s.len(),
{
    if s.len() == 0 {
        0
    } else {
        dec_val(s.drop_last()) * 10 + digit_val(s.last())
    }
}

/// Appending digits to a digit run never decreases its value.
pub proof fn lemma_dec_val_prefix(s: Seq<char>, i: int)
    requires
        0 <= i <= s.len(),
        all_digits(s),
    ensures
        dec_val(s.take(i)) <= dec_val(s),
        dec_val(s) >= 0,
    decreases s.len() - i,
{
    if i == s.len() {
        assert(s.take(i) =~= s);
        lemma_dec_val_nonneg(s);
    } else {
        lemma_dec_val_prefix(s, i + 1);
        lemma_dec_val_nonneg(s.take(i));
        assert(s.take(i + 1).drop_last() =~= s.take(i));
        assert(dec_val(s.take(i + 1)) == dec_val(s.take(i)) * 10 + digit_val(s.take(i + 1).last()));
    }
}

/// The value of a digit run is never negative.
pub proof fn lemma_dec_val_nonneg(s: Seq<char>)
    requires
        all_digits(s),
    ensures
        dec_val(s) >= 0,
    decreases s.len(),
{
    if s.len() > 0 {
        assert(all_digits(s.drop_last())) by {
            assert(forall|i: int|
                0 <= i < s.len() - 1 ==> #[trigger] s.drop_last()[i] == s[i]);
        }
        lemma_dec_val_nonneg(s.drop_last());
    }
}

/// Formats an unsigned value in decimal.
pub fn u64_to_string(n: u64) -> (r: String)
    ensures
        r@ == dec_u64(n as nat),
{
    if n == 0 {
        let mut s = String::new();
        crate::strutil::push_char(&mut s, '0');
        assert(s@ =~= dec_u64(0));
        return s;
    }
    let mut acc: Vec<char> = Vec::new();
    let mut m: u64 = n;
    while m > 0
        invariant
            dec_rec(n as nat) =~= dec_rec(m as nat) + acc@,
        decreases m,
    {
        let d: u64 = m % 10;
        let c: char = ((48 + d as u8) as u8) as char;
        proof {
            assert(c == digit_char(d as int));
            assert(dec_rec(m as nat) =~= dec_rec((m / 10) as nat).push(digit_char(m as int % 10)));
            assert(dec_rec((m / 10) as nat).push(c) + acc@ =~= dec_rec((m / 10) as nat) + (seq![c]
                + acc@));
        }
        acc.insert(0, c);
        m = m / 10;
    }
    let mut s = String::new();
    let mut i: usize = 0;
    while i < acc.len()
        invariant
            0 <= i <= acc@.len(),
            s@ =~= acc@.take(i as int),
            dec_rec(n as nat) =~= acc@,
        decreases acc@.len() - i,
    {
        crate::strutil::push_char(&mut s, acc[i]);
        proof {
            assert(acc@.take(i + 1) =~= acc@.take(i as int).push(acc@[i as int]));
        }
        i = i + 1;
    }
    assert(s@ =~= dec_u64(n as nat));
    s
}

/// Formats a signed value in decimal, with a leading minus for negatives.
pub fn i64_to_string(n: i64) -> (r: String)
    ensures
        r@ == dec_i64(n as int),
{
    if n >= 0 {
        u64_to_string(n as u64)
    } else {
        let mag: u64 = ((-(n + 1)) as u64) + 1;
        assert(mag == -(n as int));
        let digits = u64_to_string(mag);
        let mut s = String::new();
        crate::strutil::push_char(&mut s, '-');
        let r = s.concat(digits.as_str());
        assert(r@ =~= seq!['-'] + dec_u64((-(n as int)) as nat));
        r
    }
}

/// Whether `s` is a well-formed decimal integer: an optional sign followed by
/// at least one digit.
pub open spec fn valid_int_str(s: Seq<char>) -> bool {
    if s.len() > 0 && (s[0] == '-' || s[0] == '+') {
        s.len() > 1 && all_digits(s.skip(1))
    } else {
        s.len() > 0 && all_digits(s)
    }
}

/// The integer value written in a well-formed decimal integer string.
pub open spec fn int_str_val(s: Seq<char>) -> int {
    if s.len() > 0 && s[0] == '-' {
        -dec_val(s.skip(1))
    } else if s.len() > 0 && s[0] == '+' {
        dec_val(s.skip(1))
    } else {
        dec_val(s)
    }
}

/// Parses a decimal integer, accepting exactly the strings of an optional
/// sign followed by digits whose value fits in a signed 64-bit integer.
#[verifier::loop_isolation(false)]
pub fn parse_i64(s: &str) -> (r: Option<i64>)
    ensures
        match r {
            Some(v) => valid_int_str(s@) && i64::MIN <= int_str_val(s@) <= i64::MAX && v
                == int_str_val(s@),
            None => !(valid_int_str(s@) && i64::MIN <= int_str_val(s@) <= i64::MAX),
        },
{
    let n = s.unicode_len();
    if n == 0 {
        return None;
    }
    let first = s.get_char(0);
    let neg = first == '-';
    let mut i: usize = if first == '-' || first == '+' {
        1
    } else {
        0
    };
    if i == n {
        return None;
    }
    let ghost digits = if first == '-' || first == '+' {
        s@.skip(1)
    } else {
        s@
    };
    let ghost start = i as int;
    let mut acc: u64 = 0;
    while i < n
        invariant
            start <= i <= n == s@.len(),
            0 <= start <= 1,
            digits =~= s@.skip(start),
            digits.len() == n - start > 0,
            all_digits(digits.take(i - start)),
            acc == dec_val(digits.take(i - start)),
        decreases n - i,
    {
        let c = s.get_char(i);
        let u = c as u32;
        if !(48 <= u && u <= 57) {
            assert(digits[i - start] == s@[i as int]);
            assert(!all_digits(digits));
            assert(s@.skip(0) =~= s@);
            return None;
        }
        let d: u64 = (u - 48) as u64;
        if acc > (u64::MAX - d) / 10 {
            // The value read so far already exceeds the 64-bit range, and
            // later digits can only make it larger.
            proof {
                assert(digits.take(i - start + 1).drop_last() =~= digits.take(i - start));
                assert(digits.take(i - start + 1).last() == s@[i as int]);
                assert(all_digits(digits.take(i - start + 1)));
                assert(dec_val(digits.take(i - start + 1)) == acc * 10 + d);
                assert(acc * 10 + d > u64::MAX) by (nonlinear_arith)
                    requires
                        acc > (u64::MAX - d) / 10,
                        d < 10,
                {}
                if all_digits(digits) {
                    lemma_dec_val_prefix(digits, i - start + 1);
                    assert(dec_val(digits) > u64::MAX);
                }
                assert(s@.skip(0) =~= s@);
            }
            return None;
        }
        proof {
            assert(digits.take(i - start + 1).drop_last() =~= digits.take(i - start));
            assert(digits.take(i - start + 1).last() == s@[i as int]);
            assert(acc * 10 + d <= u64::MAX) by (nonlinear_arith)
                requires
                    acc <= (u64::MAX - d) / 10,
                    d < 10,
            {}
        }
        acc = acc * 10 + d;
        i = i + 1;
    }
    proof {
        assert(digits.take(i - start) =~= digits);
        assert(s@.skip(0) =~= s@);
        assert(valid_int_str(s@));
        assert(int_str_val(s@) == if neg {
            -(acc as int)
        } else {
            acc as int
        });
    }
    if neg {
        if acc > 9223372036854775808u64 {
            return None;
        }
        if acc == 9223372036854775808u64 {
            return Some(i64::MIN);
        }
        Some(-(acc as i64))
    } else {
        if acc > 9223372036854775807u64 {
            return None;
        }
        Some(acc as i64)
    }
}

} // verus!
