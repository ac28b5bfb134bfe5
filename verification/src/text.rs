//! Whole numbers written out in decimal, for the messages of the game.

use vstd::prelude::*;
use vstd::string::*;

verus! {

/// The character for one decimal digit.
pub open spec fn digit(d: int) -> char {
    if d == 0 {
        '0'
    } else if d == 1 {
        '1'
    } else if d == 2 {
        '2'
    } else if d == 3 {
        '3'
    } else if d == 4 {
        '4'
    } else if d == 5 {
        '5'
    } else if d == 6 {
        '6'
    } else if d == 7 {
        '7'
    } else if d == 8 {
        '8'
    } else {
        '9'
    }
}

/// A natural number in decimal, without leading zeros.
pub open spec fn decimal_of_nat(n: nat) -> Seq<char>
    decreases n,
{
    if n < 10 {
        seq![digit(n as int)]
    } else {
        decimal_of_nat(n / 10).push(digit((n % 10) as int))
    }
}

/// A whole number in decimal, with a minus sign in front if it is negative.
pub open spec fn decimal(n: int) -> Seq<char> {
    if n < 0 {
        seq!['-'] + decimal_of_nat((-n) as nat)
    } else {
        decimal_of_nat(n as nat)
    }
}

/// Digits that were split off a number from its low end, written out from
/// the high end: the digit split off last comes first.
spec fn split_off(digits: Seq<u64>) -> Seq<char>
    decreases digits.len(),
{
    if digits.len() == 0 {
        Seq::empty()
    } else {
        seq![digit(digits.last() as int)] + split_off(digits.drop_last())
    }
}

fn digit_text(d: u64) -> (text: &'static str)
    requires
        d < 10,
    ensures
        text@ == seq![digit(d as int)],
{
    proof {
        reveal_strlit("0");
        reveal_strlit("1");
        reveal_strlit("2");
        reveal_strlit("3");
        reveal_strlit("4");
        reveal_strlit("5");
        reveal_strlit("6");
        reveal_strlit("7");
        reveal_strlit("8");
        reveal_strlit("9");
    }
    let text = if d == 0 {
        "0"
    } else if d == 1 {
        "1"
    } else if d == 2 {
        "2"
    } else if d == 3 {
        "3"
    } else if d == 4 {
        "4"
    } else if d == 5 {
        "5"
    } else if d == 6 {
        "6"
    } else if d == 7 {
        "7"
    } else if d == 8 {
        "8"
    } else {
        "9"
    };
    assert(text@ =~= seq![digit(d as int)]);
    text
}

/// Adds `n`, written out in decimal, to the end of `text`.
pub fn append_natural(text: &mut String, n: u64)
    ensures
        final(text)@ == old(text)@ + decimal_of_nat(n as nat),
{
    let ghost target = text@ + decimal_of_nat(n as nat);
    let mut digits: Vec<u64> = Vec::new();
    let mut rest: u64 = n;
    while rest >= 10
        invariant
            decimal_of_nat(n as nat) == decimal_of_nat(rest as nat) + split_off(digits@),
            forall|i: int| 0 <= i < digits@.len() ==> #[trigger] digits@[i] < 10,
        decreases rest,
    {
        let ghost before = digits@;
        digits.push(rest % 10);
        proof {
            assert(digits@.drop_last() == before);
            assert(decimal_of_nat((rest / 10) as nat) + split_off(digits@) =~= decimal_of_nat(
                rest as nat,
            ) + split_off(before));
        }
        rest = rest / 10;
    }
    let ghost front = text@;
    text.append(digit_text(rest));
    let mut left: usize = digits.len();
    proof {
        assert(digits@.take(left as int) == digits@);
        assert(text@ + split_off(digits@) =~= front + (decimal_of_nat(rest as nat) + split_off(
            digits@,
        )));
    }
    while left > 0
        invariant
            left <= digits@.len(),
            forall|i: int| 0 <= i < digits@.len() ==> #[trigger] digits@[i] < 10,
            text@ + split_off(digits@.take(left as int)) == target,
        decreases left,
    {
        let ghost before = text@;
        left = left - 1;
        text.append(digit_text(digits[left]));
        proof {
            let taken = digits@.take(left as int + 1);
            assert(taken.drop_last() == digits@.take(left as int));
            assert(taken.last() == digits@[left as int]);
            assert(text@ + split_off(digits@.take(left as int)) =~= before + split_off(taken));
        }
    }
    proof {
        assert(split_off(digits@.take(0)) =~= Seq::<char>::empty());
        assert(text@ + Seq::<char>::empty() =~= text@);
    }
}

/// Adds `n`, written out in decimal, to the end of `text`.
pub fn append_decimal(text: &mut String, n: i64)
    ensures
        final(text)@ == old(text)@ + decimal(n as int),
{
    let ghost front = text@;
    if n < 0 {
        proof {
            reveal_strlit("-");
        }
        text.append("-");
        append_natural(text, (-(n + 1)) as u64 + 1);
        assert(text@ =~= front + decimal(n as int));
    } else {
        append_natural(text, n as u64);
    }
}

/// Writes `n` out in decimal.
pub fn decimal_string(n: i64) -> (text: String)
    ensures
        text@ == decimal(n as int),
{
    let mut text = String::new();
    append_decimal(&mut text, n);
    assert(Seq::<char>::empty() + decimal(n as int) =~= decimal(n as int));
    text
}

} // verus!
