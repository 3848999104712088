//! Numbers written out in decimal, for file names, labels and command lines.

use vstd::prelude::*;
use vstd::string::StringExecFns;

verus! {

/// The character of the decimal digit `d`.
pub open spec fn digit_char(d: int) -> char {
    if d == 0 {
        '0'
    } else if d == 1 {
        '1'
    } else if d == 2 {
        '2'
    } else if d == 3 {
        '3'
    } else if d == 4 {
        '4'
    } else if d == 5 {
        '5'
    } else if d == 6 {
        '6'
    } else if d == 7 {
        '7'
    } else if d == 8 {
        '8'
    } else {
        '9'
    }
}

/// `n` in decimal, without leading zeros.
pub open spec fn decimal(n: nat) -> Seq<char>
    decreases n,
{
    if n < 10 {
        seq![digit_char(n as int)]
    } else {
        decimal(n / 10).push(digit_char((n % 10) as int))
    }
}

/// The characters of `digits`, the last digit first.
pub open spec fn reversed_digits(digits: Seq<u8>) -> Seq<char> {
    Seq::new(digits.len(), |i: int| digit_char(digits[digits.len() - 1 - i] as int))
}

/// The text of one decimal digit.
fn digit_text(d: u8) -> (text: &'static str)
    requires
        d < 10,
    ensures
        text@ == seq![digit_char(d as int)],
{
    proof {
        reveal_strlit("0");
        reveal_strlit("1");
        reveal_strlit("2");
        reveal_strlit("3");
        reveal_strlit("4");
        reveal_strlit("5");
        reveal_strlit("6");
        reveal_strlit("7");
        reveal_strlit("8");
        reveal_strlit("9");
    }
    let text = if d == 0 {
        "0"
    } else if d == 1 {
        "1"
    } else if d == 2 {
        "2"
    } else if d == 3 {
        "3"
    } else if d == 4 {
        "4"
    } else if d == 5 {
        "5"
    } else if d == 6 {
        "6"
    } else if d == 7 {
        "7"
    } else if d == 8 {
        "8"
    } else {
        "9"
    };
    assert(text@ =~= seq![digit_char(d as int)]);
    text
}

/// Appends `n` in decimal to `out`.
pub fn append_decimal(out: &mut String, n: u64)
    ensures
        final(out)@ == old(out)@ + decimal(n as nat),
{
    let mut digits: Vec<u8> = Vec::new();
    let mut rest: u64 = n;
    while rest >= 10
        invariant
            decimal(n as nat) == decimal(rest as nat) + reversed_digits(digits@),
            forall|k: int| 0 <= k < digits.len() ==> digits@[k] < 10,
        decreases rest,
    {
        let ghost before = digits@;
        let digit: u8 = (rest % 10) as u8;
        digits.push(digit);
        assert(reversed_digits(digits@) =~= seq![digit_char(digit as int)] + reversed_digits(
            before,
        ));
        assert(decimal(rest as nat) == decimal((rest / 10) as nat).push(digit_char(digit as int)));
        assert(decimal(n as nat) =~= decimal((rest / 10) as nat) + reversed_digits(digits@));
        rest = rest / 10;
    }
    let ghost before = digits@;
    digits.push(rest as u8);
    assert(reversed_digits(digits@) =~= seq![digit_char(rest as int)] + reversed_digits(before));
    assert(decimal(n as nat) =~= reversed_digits(digits@));
    let mut left: usize = digits.len();
    while left > 0
        invariant
            left <= digits.len(),
            forall|k: int| 0 <= k < digits.len() ==> digits@[k] < 10,
            out@ == old(out)@ + reversed_digits(digits@).subrange(0, digits.len() - left),
        decreases left,
    {
        left -= 1;
        out.append(digit_text(digits[left]));
        assert(out@ =~= old(out)@ + reversed_digits(digits@).subrange(0, digits.len() - left));
    }
    assert(reversed_digits(digits@).subrange(0, digits.len() as int) =~= reversed_digits(digits@));
}

/// `n` in decimal.
pub fn decimal_text(n: u64) -> (text: String)
    ensures
        text@ == decimal(n as nat),
{
    let mut text = String::new();
    append_decimal(&mut text, n);
    assert(Seq::<char>::empty() + decimal(n as nat) =~= decimal(n as nat));
    text
}

} // verus!
