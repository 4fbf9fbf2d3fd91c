//! Reading a signed integer back from text, as `str::parse::<i64>` does.

use vstd::prelude::*;

use crate::text::{decimal, digit_char, digits_of};

verus! {

pub open spec fn is_digit(c: char) -> bool {
    '0' <= c <= '9'
}

pub open spec fn all_digits(s: Seq<char>) -> bool {
    forall|i: int| 0 <= i < s.len() ==> is_digit(#[trigger] s[i])
}

/// The value a run of decimal digits spells.
pub open spec fn digits_value(s: Seq<char>) -> int
    decreases s.len(),
{
    if s.len() == 0 {
        0
    } else {
        digits_value(s.drop_last()) * 10 + (s.last() as int - 48)
    }
}

/// What `str::parse::<i64>` gives: an optional `+` or `-`, then one or more
/// decimal digits and nothing else, whose value fits in an `i64`.
pub open spec fn parsed_i64(s: Seq<char>) -> Option<i64> {
    let neg = s.len() > 0 && s[0] == '-';
    let signed = s.len() > 0 && (s[0] == '-' || s[0] == '+');
    let body = if signed {
        s.drop_first()
    } else {
        s
    };
    if body.len() == 0 || !all_digits(body) {
        None
    } else {
        let v = if neg {
            -digits_value(body)
        } else {
            digits_value(body)
        };
        if i64::MIN <= v <= i64::MAX {
            Some(v as i64)
        } else {
            None
        }
    }
}

pub proof fn lemma_digits_value_grows(s: Seq<char>, k: int)
    requires
        0 <= k <= s.len(),
        all_digits(s),
    ensures
        digits_value(s) >= digits_value(s.take(k)) >= 0,
    decreases s.len(),
{
    if s.len() > 0 {
        if k == s.len() {
            assert(s.take(k) =~= s);
            lemma_digits_value_grows(s.drop_last(), k - 1);
        } else {
            assert(s.drop_last().take(k) =~= s.take(k));
            lemma_digits_value_grows(s.drop_last(), k);
        }
        assert(s.drop_last().take(s.drop_last().len() as int) =~= s.drop_last());
    } else {
        assert(s.take(k) =~= s);
    }
}

/// Reads a signed decimal integer.
pub fn parse_i64(s: &Vec<char>) -> (out: Option<i64>)
    ensures
        out == parsed_i64(s@),
{
    let n = s.len();
    if n == 0 {
        return None;
    }
    let neg = s[0] == '-';
    let start: usize = if s[0] == '-' || s[0] == '+' {
        1
    } else {
        0
    };
    let ghost body = s@.subrange(start as int, n as int);
    proof {
        if start == 1 {
            assert(body =~= s@.drop_first());
        } else {
            assert(body =~= s@);
        }
    }
    if start == n {
        return None;
    }
    let mut value: u64 = 0;
    let mut i = start;
    assert(body.take(0) =~= Seq::<char>::empty());
    while i < n
        invariant
            start <= i <= n,
            n == s.len(),
            n > 0,
            start == 1 <==> (s@[0] == '-' || s@[0] == '+'),
            neg == (s@[0] == '-'),
            start < n,
            body == (if s@[0] == '-' || s@[0] == '+' {
                s@.drop_first()
            } else {
                s@
            }),
            body == s@.subrange(start as int, n as int),
            value == digits_value(body.take(i - start)),
            value <= 9223372036854775808,
            all_digits(body.take(i - start)),
        decreases n - i,
    {
        let c = s[i];
        proof {
            assert(body.take(i - start + 1).drop_last() =~= body.take(i - start));
            assert(body.take(i - start + 1).last() == c);
        }
        if !('0' <= c && c <= '9') {
            assert(!is_digit(body[i - start]));
            return None;
        }
        let d = ((c as u32) - 48) as u64;
        if value > 922337203685477580 || (value == 922337203685477580 && d > 8) {
            proof {
                let k = (i - start + 1) as int;
                assert(digits_value(body.take(k)) == value * 10 + d);
                if all_digits(body) {
                    lemma_digits_value_grows(body, k);
                    assert(digits_value(body) > 9223372036854775808);
                }
            }
            return None;
        }
        value = value * 10 + d;
        i = i + 1;
        assert(all_digits(body.take(i - start))) by {
            assert forall|j: int| 0 <= j < body.take(i - start).len() implies is_digit(
                #[trigger] body.take(i - start)[j],
            ) by {
                if j < i - 1 - start {
                    assert(body.take(i - start)[j] == body.take(i - 1 - start)[j]);
                }
            }
        }
    }
    assert(body.take(n - start) =~= body);
    if neg {
        if value == 9223372036854775808 {
            Some(-9223372036854775807 - 1)
        } else {
            Some(-(value as i64))
        }
    } else {
        if value > 9223372036854775807 {
            None
        } else {
            Some(value as i64)
        }
    }
}

pub proof fn lemma_digit_char(d: nat)
    requires
        d < 10,
    ensures
        digit_char(d) as int == d + 48,
        is_digit(digit_char(d)),
{
    let b = (d + 48) as u8;
    assert(b as int == d + 48);
    assert((b as char) as int == b as int);
}

pub proof fn lemma_digits_of_read(m: nat)
    ensures
        digits_of(m).len() >= 1,
        all_digits(digits_of(m)),
        digits_value(digits_of(m)) == m,
    decreases m,
{
    lemma_digit_char(m % 10);
    if m >= 10 {
        lemma_digits_of_read(m / 10);
        let prev = digits_of(m / 10);
        let s = digits_of(m);
        assert(s.drop_last() =~= prev);
        assert(s.last() == digit_char(m % 10));
        assert(digits_value(s) == digits_value(prev) * 10 + (s.last() as int - 48));
        assert(digits_value(s) == (m / 10) * 10 + m % 10);
        assert forall|i: int| 0 <= i < s.len() implies is_digit(#[trigger] s[i]) by {
            if i < s.len() - 1 {
                assert(s[i] == prev[i]);
            }
        }
    } else {
        let s = digits_of(m);
        assert(s.drop_last() =~= Seq::<char>::empty());
        assert(digits_value(s) == digits_value(s.drop_last()) * 10 + (s.last() as int - 48));
    }
}

/// No decimal rendering of an integer holds a dot.
pub proof fn lemma_decimal_no_dot(n: i64)
    ensures
        forall|j: int| 0 <= j < decimal(n as int).len() ==> decimal(n as int)[j] != '.',
{
    if n < 0 {
        let m = (-(n as int)) as nat;
        lemma_digits_of_read(m);
        assert forall|j: int| 0 <= j < decimal(n as int).len() implies decimal(n as int)[j] != '.' by {
            if j > 0 {
                assert(decimal(n as int)[j] == digits_of(m)[j - 1]);
            }
        }
    } else {
        lemma_digits_of_read(n as nat);
    }
}

/// Reading back what `Display` wrote for an `i64` gives the number again.
pub proof fn lemma_parse_decimal(n: i64)
    ensures
        parsed_i64(decimal(n as int)) == Some(n),
{
    if n < 0 {
        let m = (-(n as int)) as nat;
        lemma_digits_of_read(m);
        let s = decimal(n as int);
        assert(s.drop_first() =~= digits_of(m));
    } else {
        lemma_digits_of_read(n as nat);
        let s = digits_of(n as nat);
        assert(is_digit(s[0]));
    }
}

} // verus!
