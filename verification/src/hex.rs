//! Lower-case hexadecimal rendering of flag values.
//!
//! Capability bitsets travel in protocol responses as hexadecimal tokens of
//! the form `0x...` with no leading zeros; zero renders as `0x0`.

use vstd::prelude::*;
use vstd::string::StringExecFns;

verus! {

/// The lower-case character for one hexadecimal digit value below 16.
pub open spec fn spec_hex_digit(d: nat) -> char {
    if d == 0 {
        '0'
    } else if d == 1 {
        '1'
    } else if d == 2 {
        '2'
    } else if d == 3 {
        '3'
    } else if d == 4 {
        '4'
    } else if d == 5 {
        '5'
    } else if d == 6 {
        '6'
    } else if d == 7 {
        '7'
    } else if d == 8 {
        '8'
    } else if d == 9 {
        '9'
    } else if d == 10 {
        'a'
    } else if d == 11 {
        'b'
    } else if d == 12 {
        'c'
    } else if d == 13 {
        'd'
    } else if d == 14 {
        'e'
    } else {
        'f'
    }
}

/// The hexadecimal digits of `n`, most significant first, without leading
/// zeros; a single `'0'` for zero.
pub open spec fn spec_hex_digits(n: nat) -> Seq<char>
    decreases n,
{
    if n < 16 {
        seq![spec_hex_digit(n)]
    } else {
        spec_hex_digits(n / 16) + seq![spec_hex_digit(n % 16)]
    }
}

/// A hexadecimal token as the protocol renders it: `0x` followed by the
/// digits of `n`.
pub open spec fn spec_hex_token(n: nat) -> Seq<char> {
    seq!['0', 'x'] + spec_hex_digits(n)
}

/// The one-character string for a hexadecimal digit value below 16.
fn hex_digit_str(d: u64) -> (r: &'static str)
    requires
        d < 16,
    ensures
        r@ == seq![spec_hex_digit(d as nat)],
{
    let s: &'static str = if d == 0 {
        proof { reveal_strlit("0"); }
        "0"
    } else if d == 1 {
        proof { reveal_strlit("1"); }
        "1"
    } else if d == 2 {
        proof { reveal_strlit("2"); }
        "2"
    } else if d == 3 {
        proof { reveal_strlit("3"); }
        "3"
    } else if d == 4 {
        proof { reveal_strlit("4"); }
        "4"
    } else if d == 5 {
        proof { reveal_strlit("5"); }
        "5"
    } else if d == 6 {
        proof { reveal_strlit("6"); }
        "6"
    } else if d == 7 {
        proof { reveal_strlit("7"); }
        "7"
    } else if d == 8 {
        proof { reveal_strlit("8"); }
        "8"
    } else if d == 9 {
        proof { reveal_strlit("9"); }
        "9"
    } else if d == 10 {
        proof { reveal_strlit("a"); }
        "a"
    } else if d == 11 {
        proof { reveal_strlit("b"); }
        "b"
    } else if d == 12 {
        proof { reveal_strlit("c"); }
        "c"
    } else if d == 13 {
        proof { reveal_strlit("d"); }
        "d"
    } else if d == 14 {
        proof { reveal_strlit("e"); }
        "e"
    } else {
        proof { reveal_strlit("f"); }
        "f"
    };
    proof {
        assert(s@ =~= seq![spec_hex_digit(d as nat)]);
    }
    s
}

/// The hexadecimal digits of `n`, most significant first, without leading
/// zeros.
fn hex_digits_u64(n: u64) -> (r: String)
    ensures
        r@ == spec_hex_digits(n as nat),
    decreases n,
{
    if n < 16 {
        String::from_str(hex_digit_str(n))
    } else {
        let mut s = hex_digits_u64(n / 16);
        s.append(hex_digit_str(n % 16));
        s
    }
}

/// Renders `n` as a lower-case hexadecimal token with a `0x` prefix and no
/// leading zeros.
pub fn hex_token_u64(n: u64) -> (r: String)
    ensures
        r@ == spec_hex_token(n as nat),
{
    proof {
        reveal_strlit("0x");
    }
    let mut s = String::from_str("0x");
    let digits = hex_digits_u64(n);
    s.append(digits.as_str());
    proof {
        assert(s@ =~= spec_hex_token(n as nat));
    }
    s
}

} // verus!
