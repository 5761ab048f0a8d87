//! Text helpers shared by diagnostics: decimal rendering of counters so
//! that error messages can carry exact sizes and bounds.

use vstd::prelude::*;

verus! {

/// The character for one decimal digit.
pub open spec fn digit_char(d: nat) -> char {
    if d == 0 {
        '0'
    } else if d == 1 {
        '1'
    } else if d == 2 {
        '2'
    } else if d == 3 {
        '3'
    } else if d == 4 {
        '4'
    } else if d == 5 {
        '5'
    } else if d == 6 {
        '6'
    } else if d == 7 {
        '7'
    } else if d == 8 {
        '8'
    } else {
        '9'
    }
}

/// The decimal rendering of a number, most significant digit first.
pub open spec fn dec_digits(n: nat) -> Seq<char>
    decreases n,
{
    if n < 10 {
        seq![digit_char(n)]
    } else {
        dec_digits(n / 10) + seq![digit_char(n % 10)]
    }
}

/// One digit as a string slice.
fn digit_str(d: u64) -> (r: &'static str)
    requires
        d < 10,
    ensures
        r@ == seq![digit_char(d as nat)],
{
    proof {
        reveal_strlit("0");
        reveal_strlit("1");
        reveal_strlit("2");
        reveal_strlit("3");
        reveal_strlit("4");
        reveal_strlit("5");
        reveal_strlit("6");
        reveal_strlit("7");
        reveal_strlit("8");
        reveal_strlit("9");
    }
    if d == 0 {
        proof { assert("0"@ =~= seq![digit_char(0)]); }
        "0"
    } else if d == 1 {
        proof { assert("1"@ =~= seq![digit_char(1)]); }
        "1"
    } else if d == 2 {
        proof { assert("2"@ =~= seq![digit_char(2)]); }
        "2"
    } else if d == 3 {
        proof { assert("3"@ =~= seq![digit_char(3)]); }
        "3"
    } else if d == 4 {
        proof { assert("4"@ =~= seq![digit_char(4)]); }
        "4"
    } else if d == 5 {
        proof { assert("5"@ =~= seq![digit_char(5)]); }
        "5"
    } else if d == 6 {
        proof { assert("6"@ =~= seq![digit_char(6)]); }
        "6"
    } else if d == 7 {
        proof { assert("7"@ =~= seq![digit_char(7)]); }
        "7"
    } else if d == 8 {
        proof { assert("8"@ =~= seq![digit_char(8)]); }
        "8"
    } else {
        proof { assert("9"@ =~= seq![digit_char(9)]); }
        "9"
    }
}

/// Renders a number in decimal.
pub fn u64_to_string(n: u64) -> (s: String)
    ensures
        s@ == dec_digits(n as nat),
{
    let mut m: u64 = n;
    let mut s = String::new();
    if m == 0 {
        let r = digit_str(0).to_owned();
        proof { assert(r@ =~= dec_digits(0)); }
        return r;
    }
    while m > 0
        invariant
            m > 0 ==> dec_digits(n as nat) =~= dec_digits(m as nat) + s@,
            m == 0 ==> s@ =~= dec_digits(n as nat),
        decreases m,
    {
        let d = m % 10;
        let ghost m0 = m as nat;
        let ghost s0 = s@;
        let mut s2 = digit_str(d).to_owned();
        s2.append(s.as_str());
        s = s2;
        m = m / 10;
        proof {
            assert(s@ =~= seq![digit_char(m0 % 10)] + s0);
            if m > 0 {
                assert(dec_digits(m0) =~= dec_digits(m0 / 10) + seq![digit_char(m0 % 10)]);
                assert(dec_digits(n as nat) =~= dec_digits(m as nat) + s@);
            } else {
                assert(m0 < 10);
                assert(dec_digits(m0) =~= seq![digit_char(m0)]);
                assert(s@ =~= dec_digits(n as nat));
            }
        }
    }
    s
}

} // verus!
