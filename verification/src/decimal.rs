use vstd::prelude::*;

verus! {

/// The byte is an ASCII decimal digit.
pub open spec fn is_digit(b: u8) -> bool {
    48 <= b <= 57
}

/// Every byte is an ASCII decimal digit.
pub open spec fn all_digits(s: Seq<u8>) -> bool {
    forall|i: int| 0 <= i < s.len() ==> is_digit(#[trigger] s[i])
}

/// The number that a string of decimal digits writes.
pub open spec fn digits_value(s: Seq<u8>) -> int
    decreases s.len(),
{
    if s.len() == 0 {
        0
    } else {
        digits_value(s.drop_last()) * 10 + (s.last() - 48)
    }
}

/// The sign and the digits of a number's text: a leading '-' (when `signed`) or '+' is the
/// sign, the rest the digits.
pub open spec fn split_sign(s: Seq<u8>, signed: bool) -> (bool, Seq<u8>) {
    if s.len() > 0 && signed && s[0] == 45 {
        (true, s.subrange(1, s.len() as int))
    } else if s.len() > 0 && s[0] == 43 {
        (false, s.subrange(1, s.len() as int))
    } else {
        (false, s)
    }
}

/// The value of a number's text, as Rust's `from_str` of an integer type reads it: an
/// optional sign ('-' only for signed types) and at least one decimal digit, nothing else;
/// `None` for any other text and for a value outside `[min, max]`.
pub open spec fn parse_integer(s: Seq<u8>, signed: bool, min: int, max: int) -> Option<int> {
    let (negative, digits) = split_sign(s, signed);
    if digits.len() == 0 || !all_digits(digits) {
        None
    } else {
        let v = if negative {
            -digits_value(digits)
        } else {
            digits_value(digits)
        };
        if min <= v <= max {
            Some(v)
        } else {
            None
        }
    }
}

/// A string of digits writes a number that is not negative.
pub proof fn lemma_digits_value_nonneg(s: Seq<u8>)
    requires
        all_digits(s),
    ensures
        digits_value(s) >= 0,
    decreases s.len(),
{
    if s.len() > 0 {
        lemma_digits_value_nonneg(s.drop_last());
    }
}

/// Reading more digits never lowers the value.
pub proof fn lemma_digits_value_prefix(s: Seq<u8>, i: int)
    requires
        all_digits(s),
        0 <= i <= s.len(),
    ensures
        digits_value(s.subrange(0, i)) <= digits_value(s),
    decreases s.len() - i,
{
    if i < s.len() {
        let t = s.subrange(0, i + 1);
        assert(t.drop_last() =~= s.subrange(0, i));
        assert(all_digits(t));
        lemma_digits_value_nonneg(t.drop_last());
        lemma_digits_value_prefix(s, i + 1);
    } else {
        assert(s.subrange(0, i) =~= s);
    }
}

/// Reads the digits `s[start..]` as a number; `None` when they are not all digits, or when
/// the number exceeds `bound`.
fn read_digits(s: &[u8], start: usize, bound: u64) -> (v: Option<u64>)
    requires
        start <= s@.len(),
        bound >= 9,
    ensures
        ({
            let d = s@.subrange(start as int, s@.len() as int);
            match v {
                Some(n) => all_digits(d) && n == digits_value(d) && n <= bound,
                None => !all_digits(d) || digits_value(d) > bound,
            }
        }),
{
    let ghost d = s@.subrange(start as int, s@.len() as int);
    let mut value: u64 = 0;
    let mut i: usize = start;
    while i < s.len()
        invariant
            start <= i <= s@.len(),
            d == s@.subrange(start as int, s@.len() as int),
            all_digits(s@.subrange(start as int, i as int)),
            value == digits_value(s@.subrange(start as int, i as int)),
            value <= bound,
            bound >= 9,
        decreases s@.len() - i,
    {
        let b = s[i];
        let ghost before = s@.subrange(start as int, i as int);
        let ghost after = s@.subrange(start as int, i + 1);
        assert(after.drop_last() =~= before);
        assert(after.last() == b);
        if b < 48 || b > 57 {
            assert(d[i - start] == b);
            return None;
        }
        if value > (bound - (b - 48) as u64) / 10 {
            proof {
                assert(all_digits(after));
                assert(digits_value(after) > bound) by (nonlinear_arith)
                    requires
                        digits_value(after) == value * 10 + (b - 48),
                        value > (bound - (b - 48)) / 10,
                        0 <= b - 48 <= 9,
                        b - 48 <= bound,
                ;
                if all_digits(d) {
                    assert(d.subrange(0, i + 1 - start) =~= after);
                    lemma_digits_value_prefix(d, i + 1 - start);
                }
            }
            return None;
        }
        assert(value * 10 + (b - 48) <= bound) by (nonlinear_arith)
            requires
                value <= (bound - (b - 48)) / 10,
                0 <= b - 48 <= 9,
                b - 48 <= bound,
        ;
        value = value * 10 + (b - 48) as u64;
        i = i + 1;
    }
    assert(s@.subrange(start as int, i as int) =~= d);
    Some(value)
}

/// Reads a decimal `i32` as `str::parse::<i32>` does: `None` where it reports an error.
pub fn parse_i32(s: &[u8]) -> (v: Option<i32>)
    ensures
        v matches Some(n) ==> parse_integer(s@, true, i32::MIN as int, i32::MAX as int) == Some(
            n as int,
        ),
        v is None ==> parse_integer(s@, true, i32::MIN as int, i32::MAX as int) is None,
{
    if s.len() == 0 {
        return None;
    }
    let negative = s[0] == 45;
    let start: usize = if s[0] == 45 || s[0] == 43 {
        1
    } else {
        0
    };
    if start == s.len() {
        return None;
    }
    let bound: u64 = if negative {
        2147483648
    } else {
        2147483647
    };
    let ghost d = s@.subrange(start as int, s@.len() as int);
    assert(split_sign(s@, true) == (negative, d));
    let r = read_digits(s, start, bound);
    proof {
        if all_digits(d) {
            lemma_digits_value_nonneg(d);
        }
    }
    match r {
        Some(n) => {
            if negative {
                Some((0 - n as i64) as i32)
            } else {
                Some(n as i32)
            }
        },
        None => None,
    }
}

/// Reads a decimal `u64` as `str::parse::<u64>` does: `None` where it reports an error.
pub fn parse_u64(s: &[u8]) -> (v: Option<u64>)
    ensures
        v matches Some(n) ==> parse_integer(s@, false, 0, u64::MAX as int) == Some(n as int),
        v is None ==> parse_integer(s@, false, 0, u64::MAX as int) is None,
{
    if s.len() == 0 {
        return None;
    }
    let start: usize = if s[0] == 43 {
        1
    } else {
        0
    };
    if start == s.len() {
        return None;
    }
    let ghost d = s@.subrange(start as int, s@.len() as int);
    assert(split_sign(s@, false) == (false, d)) by {
        if start == 0 {
            assert(d =~= s@);
        }
    }
    let r = read_digits(s, start, u64::MAX);
    proof {
        if all_digits(d) {
            lemma_digits_value_nonneg(d);
        }
    }
    r
}

/// The decimal digits of `n`, most significant first, without leading zeros.
pub open spec fn decimal(n: u64) -> Seq<u8>
    decreases n,
{
    if n < 10 {
        seq![(48 + n) as u8]
    } else {
        decimal(n / 10) + seq![(48 + n % 10) as u8]
    }
}

/// Writes `n` in decimal.
pub fn write_decimal(n: u64) -> (s: Vec<u8>)
    ensures
        s@ == decimal(n),
    decreases n,
{
    if n < 10 {
        let mut s: Vec<u8> = Vec::new();
        s.push((48 + n) as u8);
        assert(s@ =~= decimal(n));
        s
    } else {
        let mut s = write_decimal(n / 10);
        s.push((48 + n % 10) as u8);
        assert(s@ =~= decimal(n));
        s
    }
}

/// Reading back the decimal text of a number gives the number.
pub proof fn law_decimal_round_trip(n: u64)
    ensures
        decimal(n).len() > 0,
        all_digits(decimal(n)),
        digits_value(decimal(n)) == n,
        parse_integer(decimal(n), false, 0, u64::MAX as int) == Some(n as int),
    decreases n,
{
    let d = decimal(n);
    if n < 10 {
        assert(d.drop_last() =~= Seq::<u8>::empty());
        assert(digits_value(d.drop_last()) == 0);
        assert(d.last() == 48 + n);
    } else {
        law_decimal_round_trip(n / 10);
        assert(d.drop_last() =~= decimal(n / 10));
        assert(d.last() == 48 + n % 10);
        assert forall|i: int| 0 <= i < d.len() implies is_digit(#[trigger] d[i]) by {
            if i < d.len() - 1 {
                assert(d[i] == decimal(n / 10)[i]);
            }
        }
        assert(d[0] == decimal(n / 10)[0]);
        assert((n / 10) * 10 + n % 10 == n);
    }
    assert(split_sign(d, false) == (false, d));
}

} // verus!
