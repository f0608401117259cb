//! Decimal rendering and column padding for the listings and summaries the
//! engine produces.

use vstd::prelude::*;
use vstd::string::StrSliceExecFns;
use vstd::string::StringExecFns;

verus! {

/// The decimal digit character for a value below ten.
pub open spec fn digit_char(d: int) -> char {
    if d == 0 {
        '0'
    } else if d == 1 {
        '1'
    } else if d == 2 {
        '2'
    } else if d == 3 {
        '3'
    } else if d == 4 {
        '4'
    } else if d == 5 {
        '5'
    } else if d == 6 {
        '6'
    } else if d == 7 {
        '7'
    } else if d == 8 {
        '8'
    } else {
        '9'
    }
}

/// The decimal representation of a non-negative integer, most significant
/// digit first.
pub open spec fn dec_str(n: int) -> Seq<char>
    decreases n,
{
    if n < 10 {
        seq![digit_char(n)]
    } else {
        dec_str(n / 10) + seq![digit_char(n % 10)]
    }
}

fn digit_str(d: u64) -> (s: &'static str)
    requires
        d < 10,
    ensures
        s@ == seq![digit_char(d as int)],
{
    let r: &'static str = match d {
        0 => "0",
        1 => "1",
        2 => "2",
        3 => "3",
        4 => "4",
        5 => "5",
        6 => "6",
        7 => "7",
        8 => "8",
        _ => "9",
    };
    proof {
        reveal_strlit("0");
        reveal_strlit("1");
        reveal_strlit("2");
        reveal_strlit("3");
        reveal_strlit("4");
        reveal_strlit("5");
        reveal_strlit("6");
        reveal_strlit("7");
        reveal_strlit("8");
        reveal_strlit("9");
        assert(r@ =~= seq![digit_char(d as int)]);
    }
    r
}

/// Render a number in decimal.
pub fn u64_to_string(n: u64) -> (s: String)
    ensures
        s@ == dec_str(n as int),
    decreases n,
{
    if n < 10 {
        String::from_str(digit_str(n))
    } else {
        let mut s = u64_to_string(n / 10);
        s.append(digit_str(n % 10));
        s
    }
}

/// `s` padded on the right with spaces to at least `w` characters; a longer
/// `s` stays as it is.
pub open spec fn pad_right(s: Seq<char>, w: int) -> Seq<char> {
    s + Seq::new(
        if s.len() < w {
            (w - s.len()) as nat
        } else {
            0
        },
        |i: int| ' ',
    )
}

/// Pad a column value on the right with spaces to at least `w` characters.
pub fn pad_to(s: String, w: usize) -> (r: String)
    ensures
        r@ == pad_right(s@, w as int),
{
    proof {
        reveal_strlit(" ");
    }
    let mut r = s;
    let mut l = r.as_str().unicode_len();
    proof {
        assert(r@ =~= r@ + Seq::new(0, |i: int| ' '));
    }
    while l < w
        invariant
            l == r@.len(),
            r@.len() >= s@.len(),
            l <= w || l == s@.len(),
            r@ == s@ + Seq::new((l - s@.len()) as nat, |i: int| ' '),
        decreases w - l,
    {
        r.append(" ");
        proof {
            reveal_strlit(" ");
            assert(r@ =~= s@ + Seq::new((l + 1 - s@.len()) as nat, |i: int| ' '));
        }
        l = l + 1;
    }
    proof {
        assert(r@ =~= pad_right(s@, w as int));
    }
    r
}

} // verus!
