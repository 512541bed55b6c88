//! Names of the input strips.

use vstd::prelude::*;
use vstd::string::StringExecFns;

verus! {

/// The character that stands for a decimal digit.
pub open spec fn digit_char(d: nat) -> char {
    if d == 0 {
        '0'
    } else if d == 1 {
        '1'
    } else if d == 2 {
        '2'
    } else if d == 3 {
        '3'
    } else if d == 4 {
        '4'
    } else if d == 5 {
        '5'
    } else if d == 6 {
        '6'
    } else if d == 7 {
        '7'
    } else if d == 8 {
        '8'
    } else {
        '9'
    }
}

/// A number in decimal, without leading zeros.
pub open spec fn decimal(n: nat) -> Seq<char>
    decreases n,
{
    if n < 10 {
        seq![digit_char(n)]
    } else {
        decimal(n / 10).push(digit_char(n % 10))
    }
}

/// The name of the input strip with the given number.
pub open spec fn label_of(number: nat) -> Seq<char> {
    "Channel "@ + decimal(number)
}

fn digit_str(d: u8) -> (r: &'static str)
    requires
        d < 10,
    ensures
        r@ == seq![digit_char(d as nat)],
{
    proof {
        reveal_strlit("0");
        reveal_strlit("1");
        reveal_strlit("2");
        reveal_strlit("3");
        reveal_strlit("4");
        reveal_strlit("5");
        reveal_strlit("6");
        reveal_strlit("7");
        reveal_strlit("8");
        reveal_strlit("9");
    }
    let r: &'static str = if d == 0 {
        "0"
    } else if d == 1 {
        "1"
    } else if d == 2 {
        "2"
    } else if d == 3 {
        "3"
    } else if d == 4 {
        "4"
    } else if d == 5 {
        "5"
    } else if d == 6 {
        "6"
    } else if d == 7 {
        "7"
    } else if d == 8 {
        "8"
    } else {
        "9"
    };
    assert(r@ =~= seq![digit_char(d as nat)]);
    r
}

/// Names the input strip with the given number: `Channel 1`, `Channel 2`, ...
pub fn channel_label(number: u8) -> (r: String)
    ensures
        r@ == label_of(number as nat),
{
    let mut name: String = String::from_str("Channel ");
    if number >= 100 {
        name.append(digit_str(number / 100));
    }
    if number >= 10 {
        name.append(digit_str((number / 10) % 10));
    }
    name.append(digit_str(number % 10));
    proof {
        let n = number as nat;
        reveal_with_fuel(decimal, 3);
        if n >= 100 {
            assert(decimal(n) =~= seq![digit_char(n / 100)] + seq![digit_char((n / 10) % 10)]
                + seq![digit_char(n % 10)]);
        } else if n >= 10 {
            assert(decimal(n) =~= seq![digit_char(n / 10)] + seq![digit_char(n % 10)]);
            assert((n / 10) % 10 == n / 10);
        }
        assert(name@ =~= label_of(n));
    }
    name
}

} // verus!
