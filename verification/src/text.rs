//! Decimal text of unsigned numbers.
use vstd::prelude::*;

verus! {

/// The character of the decimal digit `d`.
pub open spec fn digit_char(d: nat) -> char
    recommends
        d < 10,
{
    (48 + d) as char
}

/// The decimal digits of `n`, most significant first, without leading zeros.
pub open spec fn decimal_digits(n: nat) -> Seq<char>
    decreases n,
{
    if n < 10 {
        seq![digit_char(n)]
    } else {
        decimal_digits(n / 10).push(digit_char(n % 10))
    }
}

/// The text of the decimal digit `d`.
fn digit_text(d: usize) -> (t: &'static str)
    requires
        d < 10,
    ensures
        t@ == seq![digit_char(d as nat)],
{
    if d == 0 {
        proof {
            reveal_strlit("0");
        }
        "0"
    } else if d == 1 {
        proof {
            reveal_strlit("1");
        }
        "1"
    } else if d == 2 {
        proof {
            reveal_strlit("2");
        }
        "2"
    } else if d == 3 {
        proof {
            reveal_strlit("3");
        }
        "3"
    } else if d == 4 {
        proof {
            reveal_strlit("4");
        }
        "4"
    } else if d == 5 {
        proof {
            reveal_strlit("5");
        }
        "5"
    } else if d == 6 {
        proof {
            reveal_strlit("6");
        }
        "6"
    } else if d == 7 {
        proof {
            reveal_strlit("7");
        }
        "7"
    } else if d == 8 {
        proof {
            reveal_strlit("8");
        }
        "8"
    } else {
        proof {
            reveal_strlit("9");
        }
        "9"
    }
}

/// The decimal text of `n`, as `n.to_string()` writes it.
pub fn decimal(n: usize) -> (s: String)
    ensures
        s@ == decimal_digits(n as nat),
{
    let mut text = String::from_str(digit_text(n % 10));
    let mut m: usize = n / 10;
    while m > 0
        invariant
            m == 0 ==> text@ == decimal_digits(n as nat),
            m > 0 ==> decimal_digits(n as nat) == decimal_digits(m as nat) + text@,
        decreases m,
    {
        let ghost before = text@;
        let digit = String::from_str(digit_text(m % 10));
        text = digit.concat(text.as_str());
        proof {
            if m >= 10 {
                assert(decimal_digits(m as nat) == decimal_digits((m / 10) as nat).push(
                    digit_char((m % 10) as nat),
                ));
                assert(decimal_digits((m / 10) as nat).push(digit_char((m % 10) as nat)) + before
                    =~= decimal_digits((m / 10) as nat) + text@);
            } else {
                assert(decimal_digits(m as nat) + before =~= text@);
            }
        }
        m = m / 10;
    }
    text
}

/// The number that a sequence of decimal digits stands for.
pub open spec fn digits_value(s: Seq<char>) -> int
    decreases s.len(),
{
    if s.len() == 0 {
        0
    } else {
        digits_value(s.drop_last()) * 10 + (s.last() as int - 48)
    }
}

/// The decimal text of `n` is made of the digits `0` to `9`, stands for
/// `n`, and starts with `0` only when it is `0`.
pub proof fn law_decimal_digits(n: nat)
    ensures
        decimal_digits(n).len() > 0,
        forall|i: int|
            0 <= i < decimal_digits(n).len() ==> '0' <= #[trigger] decimal_digits(n)[i] <= '9',
        digits_value(decimal_digits(n)) == n,
        decimal_digits(n)[0] == '0' ==> n == 0,
    decreases n,
{
    if n < 10 {
        assert(digit_char(n) as int == 48 + n);
        assert(decimal_digits(n).drop_last() =~= Seq::<char>::empty());
        assert(digits_value(decimal_digits(n).drop_last()) == 0);
        assert(decimal_digits(n).last() == digit_char(n));
    } else {
        let d = decimal_digits(n / 10);
        law_decimal_digits(n / 10);
        assert(digit_char(n % 10) as int == 48 + n % 10);
        assert(decimal_digits(n).drop_last() =~= d);
        assert(decimal_digits(n)[0] == d[0]);
        assert(n == (n / 10) * 10 + n % 10);
        assert(digits_value(decimal_digits(n).drop_last()) == n / 10);
        assert(decimal_digits(n).last() == digit_char(n % 10));
        assert forall|i: int| 0 <= i < decimal_digits(n).len() implies '0'
            <= #[trigger] decimal_digits(n)[i] <= '9' by {
            if i < d.len() {
                assert(decimal_digits(n)[i] == d[i]);
            }
        }
    }
}

} // verus!
