//! Decimal rendering of numbers, used for relation labels.

use vstd::prelude::*;

use crate::strutil::chars_to_string;
use crate::strutil::string_chars;

verus! {

/// The digit character of a value below ten.
pub open spec fn digit_char(d: int) -> char {
    if d == 0 {
        '0'
    } else if d == 1 {
        '1'
    } else if d == 2 {
        '2'
    } else if d == 3 {
        '3'
    } else if d == 4 {
        '4'
    } else if d == 5 {
        '5'
    } else if d == 6 {
        '6'
    } else if d == 7 {
        '7'
    } else if d == 8 {
        '8'
    } else {
        '9'
    }
}

/// The decimal digits of a nonnegative number, most significant first.
pub open spec fn dec_digits(n: int) -> Seq<char>
    decreases n,
{
    if n < 10 {
        seq![digit_char(n)]
    } else {
        dec_digits(n / 10).push(digit_char(n % 10))
    }
}

/// The digit character of a value below ten.
fn digit_of(d: u32) -> (c: char)
    requires
        d < 10,
    ensures
        c == digit_char(d as int),
{
    if d == 0 {
        '0'
    } else if d == 1 {
        '1'
    } else if d == 2 {
        '2'
    } else if d == 3 {
        '3'
    } else if d == 4 {
        '4'
    } else if d == 5 {
        '5'
    } else if d == 6 {
        '6'
    } else if d == 7 {
        '7'
    } else if d == 8 {
        '8'
    } else {
        '9'
    }
}

/// The decimal rendering of `n`.
pub fn u32_to_string(n: u32) -> (r: String)
    ensures
        r@ == dec_digits(n as int),
{
    let mut digits: Vec<char> = Vec::new();
    let mut m = n;
    proof {
        assert(digits@.reverse() =~= Seq::<char>::empty());
        assert(dec_digits(n as int) =~= dec_digits(m as int) + digits@.reverse());
    }
    while m >= 10
        invariant
            dec_digits(n as int) == dec_digits(m as int) + digits@.reverse(),
        decreases m,
    {
        let d = m % 10;
        let ghost digits_before = digits@;
        digits.push(digit_of(d));
        m = m / 10;
        proof {
            assert(digits@.reverse() =~= seq![digit_char(d as int)] + digits_before.reverse());
            assert(dec_digits(n as int) =~= dec_digits(m as int) + digits@.reverse());
        }
    }
    let ghost digits_before = digits@;
    digits.push(digit_of(m));
    proof {
        assert(digits@.reverse() =~= seq![digit_char(m as int)] + digits_before.reverse());
        assert(dec_digits(n as int) =~= digits@.reverse());
    }
    let mut out: Vec<char> = Vec::new();
    let len = digits.len();
    let mut k: usize = 0;
    while k < len
        invariant
            k <= len,
            len == digits@.len(),
            dec_digits(n as int) == digits@.reverse(),
            out@ == digits@.reverse().take(k as int),
        decreases len - k,
    {
        out.push(digits[len - 1 - k]);
        proof {
            assert(digits@.reverse()[k as int] == digits@[len - 1 - k as int]);
            assert(out@ =~= digits@.reverse().take(k as int + 1));
        }
        k += 1;
    }
    proof {
        assert(digits@.reverse().take(len as int) =~= digits@.reverse());
    }
    chars_to_string(&out)
}

/// The value of a digit character; ten when it is none.
pub open spec fn digit_val(c: char) -> int {
    if '0' <= c <= '9' {
        (c as u32) - ('0' as u32)
    } else {
        10
    }
}

/// The number a digit sequence denotes: every character must be a digit,
/// read most significant first.  An empty or non-numeric sequence denotes
/// nothing.
pub open spec fn digits_value(s: Seq<char>) -> Option<int>
    decreases s.len(),
{
    if s.len() == 0 {
        None
    } else if s.len() == 1 {
        if digit_val(s[0]) < 10 {
            Some(digit_val(s[0]))
        } else {
            None
        }
    } else {
        match digits_value(s.drop_last()) {
            Some(v) => if digit_val(s.last()) < 10 {
                Some(v * 10 + digit_val(s.last()))
            } else {
                None
            },
            None => None,
        }
    }
}

/// The decimal rendering of a number denotes the number.
pub proof fn lemma_decimal_round_trip(n: int)
    requires
        0 <= n,
    ensures
        digits_value(dec_digits(n)) == Some(n),
    decreases n,
{
    if n < 10 {
        assert(digit_val(digit_char(n)) == n);
    } else {
        lemma_decimal_round_trip(n / 10);
        assert(dec_digits(n).drop_last() =~= dec_digits(n / 10));
        assert(dec_digits(n).last() == digit_char(n % 10));
        assert(digit_val(digit_char(n % 10)) == n % 10);
        assert(dec_digits(n).len() >= 2) by {
            assert(dec_digits(n / 10).len() >= 1);
        }
    }
}

/// Parse a decimal rendering: the denoted number when the string is all
/// digits, is not empty, and its value fits; nothing otherwise.
pub fn parse_u64_decimal(s: &String) -> (r: Option<u64>)
    ensures
        match r {
            Some(n) => digits_value(s@) == Some(n as int),
            None => match digits_value(s@) {
                Some(v) => v > u64::MAX,
                None => true,
            },
        },
{
    let chars = string_chars(s);
    if chars.len() == 0 {
        return None;
    }
    let mut value: u64 = 0;
    let mut i: usize = 0;
    while i < chars.len()
        invariant
            chars@ == s@,
            chars@.len() > 0,
            i <= chars@.len(),
            i > 0 ==> digits_value(s@.take(i as int)) == Some(value as int),
            i == 0 ==> value == 0,
        decreases chars@.len() - i,
    {
        let c = chars[i];
        let u = c as u32;
        if c < '0' || c > '9' {
            proof {
                lemma_digits_value_bad_digit(s@, i as int);
            }
            return None;
        }
        let d = (u - ('0' as u32)) as u64;
        if value > (u64::MAX - d) / 10 {
            proof {
                assert(s@.take(i as int + 1).drop_last() =~= s@.take(i as int));
                assert(s@.take(i as int + 1).last() == s@[i as int]);
                assert(digits_value(s@.take(i as int + 1)) == Some(
                    (value as int) * 10 + (d as int),
                ));
                let rest = u64::MAX as int - d as int;
                assert(value as int >= rest / 10 + 1);
                assert((rest / 10) * 10 + rest % 10 == rest);
                assert((value as int) * 10 + (d as int) > u64::MAX as int);
                lemma_digits_value_monotonic(s@, i as int + 1);
            }
            return None;
        }
        value = value * 10 + d;
        proof {
            assert(s@.take(i as int + 1).drop_last() =~= s@.take(i as int));
            assert(s@.take(i as int + 1).last() == s@[i as int]);
        }
        i += 1;
    }
    proof {
        assert(s@.take(s@.len() as int) =~= s@);
    }
    Some(value)
}

/// A non-digit character anywhere makes a digit sequence denote nothing.
proof fn lemma_digits_value_bad_digit(s: Seq<char>, i: int)
    requires
        0 <= i < s.len(),
        digit_val(s[i]) >= 10,
    ensures
        digits_value(s) is None,
    decreases s.len(),
{
    if s.len() > 1 {
        if i < s.len() - 1 {
            lemma_digits_value_bad_digit(s.drop_last(), i);
        }
    }
}

/// A digit sequence never denotes less than any of its prefixes.
proof fn lemma_digits_value_monotonic(s: Seq<char>, i: int)
    requires
        0 < i <= s.len(),
    ensures
        match (digits_value(s.take(i)), digits_value(s)) {
            (Some(p), Some(v)) => p <= v,
            (None, Some(v)) => false,
            _ => true,
        },
    decreases s.len() - i,
{
    if i == s.len() {
        assert(s.take(i) =~= s);
    } else {
        lemma_digits_value_monotonic(s, i + 1);
        assert(s.take(i + 1).drop_last() =~= s.take(i));
        if digits_value(s.take(i)) is Some {
            let p = digits_value(s.take(i)).unwrap();
            assert(p >= 0) by {
                lemma_digits_value_nonneg(s.take(i));
            }
        }
    }
}

/// A denoted number is never negative.
proof fn lemma_digits_value_nonneg(s: Seq<char>)
    ensures
        match digits_value(s) {
            Some(v) => v >= 0,
            None => true,
        },
    decreases s.len(),
{
    if s.len() > 1 {
        lemma_digits_value_nonneg(s.drop_last());
    }
}

} // verus!
