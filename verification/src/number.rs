//! Whole numbers as decimal text.

use crate::text::{self, pad_left, repeat};
use vstd::prelude::*;
use vstd::string::*;

verus! {

/// The decimal digit for a value below ten.
pub open spec fn digit(d: nat) -> char {
    (48 + d) as char
}

/// `n` in decimal, without leading zeros.
pub open spec fn dec(n: nat) -> Seq<char>
    decreases n,
{
    if n < 10 {
        seq![digit(n)]
    } else {
        dec(n / 10).push(digit(n % 10))
    }
}

/// `n` in decimal, filled up with zeros on the left to `width` digits.
pub open spec fn dec_zero_padded(n: nat, width: nat) -> Seq<char> {
    if dec(n).len() >= width {
        dec(n)
    } else {
        text::repeated("0"@, (width - dec(n).len()) as nat) + dec(n)
    }
}

fn digit_text(d: u64) -> (r: &'static str)
    requires
        d < 10,
    ensures
        r@ == seq![digit(d as nat)],
{
    proof {
        reveal_strlit("0");
        reveal_strlit("1");
        reveal_strlit("2");
        reveal_strlit("3");
        reveal_strlit("4");
        reveal_strlit("5");
        reveal_strlit("6");
        reveal_strlit("7");
        reveal_strlit("8");
        reveal_strlit("9");
    }
    let r = match d {
        0 => "0",
        1 => "1",
        2 => "2",
        3 => "3",
        4 => "4",
        5 => "5",
        6 => "6",
        7 => "7",
        8 => "8",
        _ => "9",
    };
    assert(r@ =~= seq![digit(d as nat)]);
    r
}

/// `n` in decimal.
pub fn decimal(n: u64) -> (r: String)
    ensures
        r@ == dec(n as nat),
    decreases n,
{
    if n < 10 {
        digit_text(n).to_owned()
    } else {
        let r = decimal(n / 10).concat(digit_text(n % 10));
        assert(r@ =~= dec(n as nat));
        r
    }
}

/// `n` in decimal, with zeros in front up to `width` digits.
pub fn decimal_zero_padded(n: u64, width: usize) -> (r: String)
    ensures
        r@ == dec_zero_padded(n as nat, width as nat),
{
    let d = decimal(n);
    let len: usize = d.as_str().unicode_len();
    if len < width {
        repeat("0", width - len).concat(d.as_str())
    } else {
        d
    }
}

/// `n` in decimal, with spaces in front up to `width` characters.
pub fn decimal_right_aligned(n: u64, width: usize) -> (r: String)
    ensures
        r@ == crate::text::padded_left(dec(n as nat), width as nat),
{
    pad_left(decimal(n).as_str(), width)
}

/// How many digits small numbers have.
pub proof fn lemma_dec_width(n: nat)
    ensures
        dec(n).len() >= 1,
        n < 10 ==> dec(n).len() == 1,
        n < 1_000 ==> dec(n).len() <= 3,
        n < 10_000 ==> dec(n).len() <= 4,
        dec_zero_padded(n, 1) == dec(n),
    decreases n,
{
    reveal_with_fuel(dec, 5);
    if n >= 10 {
        lemma_dec_width(n / 10);
    }
}

/// A larger number has no fewer digits.
pub proof fn lemma_dec_grows(a: nat, b: nat)
    requires
        a <= b,
    ensures
        dec(a).len() <= dec(b).len(),
    decreases b,
{
    if a < 10 {
        lemma_dec_width(b);
    } else {
        lemma_dec_grows(a / 10, b / 10);
    }
}

/// The number that a text of decimal digits stands for.
pub open spec fn value_of(digits: Seq<char>) -> nat
    decreases digits.len(),
{
    if digits.len() == 0 {
        0
    } else {
        (10 * value_of(digits.drop_last()) + (digits.last() as int - '0' as int)) as nat
    }
}

/// A decimal text stands for its number: digits alone, without zeros in front.
pub proof fn law_decimal_stands_for_its_number(n: nat)
    ensures
        value_of(dec(n)) == n,
        forall|i: int| 0 <= i < dec(n).len() ==> '0' <= #[trigger] dec(n)[i] <= '9',
        n > 0 ==> dec(n)[0] != '0',
        dec(n).len() > 0,
    decreases n,
{
    if n < 10 {
        assert(seq![digit(n)].drop_last() =~= Seq::empty());
        reveal_with_fuel(value_of, 2);
    } else {
        law_decimal_stands_for_its_number(n / 10);
        assert(dec(n).drop_last() =~= dec(n / 10));
        assert(dec(n)[0] == dec(n / 10)[0]);
    }
}

/// Different numbers have different texts.
pub proof fn law_decimals_differ(a: nat, b: nat)
    ensures
        dec(a) == dec(b) <==> a == b,
{
    law_decimal_stands_for_its_number(a);
    law_decimal_stands_for_its_number(b);
}

/// Zeros in front change the width of a number and not the number.
pub proof fn law_zeros_in_front_change_nothing(n: nat, width: nat)
    ensures
        value_of(dec_zero_padded(n, width)) == n,
        dec_zero_padded(n, width).len() == if dec(n).len() >= width {
            dec(n).len()
        } else {
            width
        },
{
    law_decimal_stands_for_its_number(n);
    if dec(n).len() < width {
        reveal_strlit("0");
        assert("0"@ =~= seq!['0']);
        let k = (width - dec(n).len()) as nat;
        text::law_repetition('0', k);
        lemma_value_behind_zeros(k, dec(n));
    }
}

proof fn lemma_value_behind_zeros(k: nat, digits: Seq<char>)
    ensures
        value_of(Seq::new(k, |i: int| '0') + digits) == value_of(digits),
    decreases k + digits.len(),
{
    let zeros = Seq::new(k, |i: int| '0');
    if digits.len() > 0 {
        lemma_value_behind_zeros(k, digits.drop_last());
        assert((zeros + digits).drop_last() =~= zeros + digits.drop_last());
    } else if k > 0 {
        lemma_value_behind_zeros((k - 1) as nat, digits);
        assert((zeros + digits).drop_last() =~= Seq::new((k - 1) as nat, |i: int| '0') + digits);
        assert(digits =~= Seq::empty());
    } else {
        assert(zeros + digits =~= digits);
    }
}

} // verus!
