//! Numbers as text.

use crate::base_types::Bytes32;
use vstd::prelude::*;
use vstd::string::StringExecFns;

verus! {

/// The character of a decimal digit.
pub open spec fn digit(d: nat) -> char {
    (48 + d) as char
}

/// A number written in decimal digits, without leading zeros.
pub open spec fn decimal(n: nat) -> Seq<char>
    decreases n,
{
    if n < 10 {
        seq![digit(n)]
    } else {
        decimal(n / 10).push(digit(n % 10))
    }
}

fn digit_text(d: u64) -> (r: &'static str)
    requires
        d < 10,
    ensures
        r@ == seq![digit(d as nat)],
{
    proof {
        reveal_strlit("0");
        reveal_strlit("1");
        reveal_strlit("2");
        reveal_strlit("3");
        reveal_strlit("4");
        reveal_strlit("5");
        reveal_strlit("6");
        reveal_strlit("7");
        reveal_strlit("8");
        reveal_strlit("9");
    }
    if d == 0 {
        "0"
    } else if d == 1 {
        "1"
    } else if d == 2 {
        "2"
    } else if d == 3 {
        "3"
    } else if d == 4 {
        "4"
    } else if d == 5 {
        "5"
    } else if d == 6 {
        "6"
    } else if d == 7 {
        "7"
    } else if d == 8 {
        "8"
    } else {
        "9"
    }
}

/// Writes a number in decimal digits.
pub fn decimal_text(n: u64) -> (r: String)
    ensures
        r@ == decimal(n as nat),
    decreases n,
{
    if n < 10 {
        String::from_str(digit_text(n))
    } else {
        let mut text = decimal_text(n / 10);
        text.append(digit_text(n % 10));
        assert(text@ =~= decimal((n / 10) as nat).push(digit((n % 10) as nat)));
        text
    }
}

/// The number that a text of decimal digits spells.
pub open spec fn spelled(text: Seq<char>) -> nat
    decreases text.len(),
{
    if text.len() == 0 {
        0
    } else {
        (spelled(text.drop_last()) * 10 + (text.last() as nat - 48)) as nat
    }
}

/// A number can be read back from its text.
pub proof fn decimal_is_faithful(n: nat)
    ensures
        spelled(decimal(n)) == n,
    decreases n,
{
    if n < 10 {
        assert(seq![digit(n)].drop_last() =~= Seq::<char>::empty());
        assert(spelled(Seq::<char>::empty()) == 0);
    } else {
        decimal_is_faithful(n / 10);
        assert(decimal(n).drop_last() =~= decimal(n / 10));
    }
}

/// The character of a hexadecimal digit.
pub open spec fn hex_digit(d: nat) -> char {
    if d < 10 {
        digit(d)
    } else {
        (87 + d) as char
    }
}

/// The last `width` hexadecimal digits of a number.
pub open spec fn hex(n: nat, width: nat) -> Seq<char>
    decreases width,
{
    if width == 0 {
        Seq::empty()
    } else {
        hex(n / 16, (width - 1) as nat).push(hex_digit(n % 16))
    }
}

/// Thirty-two bytes in hexadecimal digits.
pub open spec fn hex_bytes(bytes: Bytes32) -> Seq<char> {
    "0x"@ + hex(bytes.hi as nat, 32) + hex(bytes.lo as nat, 32)
}

fn hex_digit_text(d: u64) -> (r: &'static str)
    requires
        d < 16,
    ensures
        r@ == seq![hex_digit(d as nat)],
{
    proof {
        reveal_strlit("a");
        reveal_strlit("b");
        reveal_strlit("c");
        reveal_strlit("d");
        reveal_strlit("e");
        reveal_strlit("f");
    }
    if d < 10 {
        digit_text(d)
    } else if d == 10 {
        "a"
    } else if d == 11 {
        "b"
    } else if d == 12 {
        "c"
    } else if d == 13 {
        "d"
    } else if d == 14 {
        "e"
    } else {
        "f"
    }
}

/// Writes the last `width` hexadecimal digits of a number.
pub fn hex_text(n: u128, width: usize) -> (r: String)
    ensures
        r@ == hex(n as nat, width as nat),
    decreases width,
{
    if width == 0 {
        let text = String::from_str("");
        proof {
            reveal_strlit("");
        }
        assert(text@ =~= Seq::<char>::empty());
        text
    } else {
        let mut text = hex_text(n / 16, width - 1);
        text.append(hex_digit_text((n % 16) as u64));
        assert(text@ =~= hex((n / 16) as nat, (width - 1) as nat).push(
            hex_digit((n % 16) as nat),
        ));
        text
    }
}

/// Writes thirty-two bytes in hexadecimal digits.
pub fn hex_bytes_text(bytes: &Bytes32) -> (r: String)
    ensures
        r@ == hex_bytes(*bytes),
{
    let mut text = String::from_str("0x");
    text.append(hex_text(bytes.hi, 32).as_str());
    text.append(hex_text(bytes.lo, 32).as_str());
    text
}

} // verus!
