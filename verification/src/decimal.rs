//! Decimal numerals.

use vstd::prelude::*;
use vstd::string::StringExecFns;

verus! {

/// The character of one decimal digit.
pub open spec fn digit(d: nat) -> char
    recommends
        d < 10,
{
    if d == 0 {
        '0'
    } else if d == 1 {
        '1'
    } else if d == 2 {
        '2'
    } else if d == 3 {
        '3'
    } else if d == 4 {
        '4'
    } else if d == 5 {
        '5'
    } else if d == 6 {
        '6'
    } else if d == 7 {
        '7'
    } else if d == 8 {
        '8'
    } else {
        '9'
    }
}

/// One of the ten digit characters.
pub open spec fn is_digit(c: char) -> bool {
    exists|d: nat| d < 10 && c == #[trigger] digit(d)
}

/// The decimal numeral of `n`: its digits from the most significant down,
/// without sign and without leading zeros.
pub open spec fn decimal(n: nat) -> Seq<char>
    decreases n,
{
    if n < 10 {
        seq![digit(n)]
    } else {
        decimal(n / 10).push(digit(n % 10))
    }
}

/// A numeral is not empty and holds digits only.
pub proof fn lemma_decimal_is_digits(n: nat)
    ensures
        decimal(n).len() >= 1,
        forall|i: int| 0 <= i < decimal(n).len() ==> is_digit(#[trigger] decimal(n)[i]),
    decreases n,
{
    if n < 10 {
        assert(is_digit(digit(n)));
    } else {
        lemma_decimal_is_digits(n / 10);
        assert(is_digit(digit(n % 10)));
    }
}

/// A number below a thousand has as many digits as its size asks for.
pub proof fn lemma_decimal_len_small(n: nat)
    requires
        n < 1000,
    ensures
        decimal(n).len() == if n < 10 {
            1nat
        } else if n < 100 {
            2nat
        } else {
            3nat
        },
{
    reveal_with_fuel(decimal, 3);
}

/// No digit is a space or a line break.
pub proof fn lemma_digit_is_no_blank(c: char)
    requires
        is_digit(c),
    ensures
        c != ' ',
        c != '\n',
{
}

/// A number below ten to the `k` has at most `k` digits.
pub proof fn lemma_decimal_len_below(n: nat, k: nat)
    requires
        1 <= k,
        n < pow10(k),
    ensures
        decimal(n).len() <= k,
    decreases k,
{
    reveal_with_fuel(pow10, 2);
    if n >= 10 {
        if k == 1 {
            assert(pow10(1) == 10);
        } else {
            assert(n / 10 < pow10((k - 1) as nat));
            lemma_decimal_len_below(n / 10, (k - 1) as nat);
        }
    }
}

/// A 64-bit number has at most twenty digits.
pub proof fn lemma_decimal_len_u64(n: u64)
    ensures
        1 <= decimal(n as nat).len() <= 20,
{
    lemma_decimal_is_digits(n as nat);
    assert(pow10(20) == 100_000_000_000_000_000_000nat) by {
        reveal_with_fuel(pow10, 21);
    }
    lemma_decimal_len_below(n as nat, 20);
}

/// The text of one digit.
fn digit_text(d: u8) -> (t: &'static str)
    requires
        d < 10,
    ensures
        t@ == seq![digit(d as nat)],
{
    proof {
        reveal_strlit("0");
        reveal_strlit("1");
        reveal_strlit("2");
        reveal_strlit("3");
        reveal_strlit("4");
        reveal_strlit("5");
        reveal_strlit("6");
        reveal_strlit("7");
        reveal_strlit("8");
        reveal_strlit("9");
    }
    let t = if d == 0 {
        "0"
    } else if d == 1 {
        "1"
    } else if d == 2 {
        "2"
    } else if d == 3 {
        "3"
    } else if d == 4 {
        "4"
    } else if d == 5 {
        "5"
    } else if d == 6 {
        "6"
    } else if d == 7 {
        "7"
    } else if d == 8 {
        "8"
    } else {
        "9"
    };
    assert(t@ =~= seq![digit(d as nat)]);
    t
}

/// Appends the decimal numeral of `n` to `text`.
pub fn append_decimal(text: &mut String, n: u64)
    ensures
        final(text)@ == old(text)@ + decimal(n as nat),
    decreases n,
{
    if n >= 10 {
        append_decimal(text, n / 10);
    }
    let d: u8 = (n % 10) as u8;
    text.append(digit_text(d));
    assert(text@ =~= old(text)@ + decimal(n as nat));
}

/// The number of digits in the decimal numeral of `n`.
pub fn decimal_width(n: u64) -> (w: u32)
    ensures
        w == decimal(n as nat).len(),
        1 <= w <= 20,
{
    let mut rest: u64 = n;
    let mut w: u32 = 1;
    proof {
        let p = pow10(0);
        assert(rest * p == rest) by (nonlinear_arith)
            requires
                p == 1,
        ;
    }
    while rest >= 10
        invariant
            1 <= w <= 20,
            rest * pow10((w - 1) as nat) <= n,
            decimal(n as nat).len() == decimal(rest as nat).len() + w - 1,
        decreases rest,
    {
        proof {
            lemma_width_step(n as nat, rest as nat, (w - 1) as nat);
        }
        rest = rest / 10;
        w = w + 1;
    }
    w
}

/// Ten to the `e`.
pub open spec fn pow10(e: nat) -> nat
    decreases e,
{
    if e == 0 {
        1
    } else {
        10 * pow10((e - 1) as nat)
    }
}

/// Dropping one more digit of `rest` keeps the bound on the digits dropped:
/// a 64-bit number has no twenty-first digit.
proof fn lemma_width_step(n: nat, rest: nat, dropped: nat)
    requires
        n <= u64::MAX,
        rest >= 10,
        dropped <= 19,
        rest * pow10(dropped) <= n,
    ensures
        dropped < 19,
        (rest / 10) * pow10(dropped + 1) <= n,
        decimal(rest).len() == decimal(rest / 10).len() + 1,
{
    let p = pow10(dropped);
    assert((rest / 10) * (10 * p) <= rest * p) by (nonlinear_arith)
        requires
            p >= 0,
            rest >= 0,
    ;
    if dropped == 19 {
        reveal_with_fuel(pow10, 20);
        assert(p == 10_000_000_000_000_000_000nat);
        assert(rest * p >= 10 * p) by (nonlinear_arith)
            requires
                rest >= 10,
                p >= 0,
        ;
    }
}

} // verus!
