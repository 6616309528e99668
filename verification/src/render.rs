//! Rendering matches for line-oriented output: each match becomes
//! `RR-CC | line`, with row and column zero-padded to at least two
//! digits. Padding only adds leading zeros; it never removes digits.

use crate::scan::Line;
use vstd::prelude::*;
use vstd::string::{StrSliceExecFns, StringExecFns};

verus! {

/// The decimal digit character for `d`.
pub open spec fn dec_digit(d: int) -> char {
    if d == 0 {
        '0'
    } else if d == 1 {
        '1'
    } else if d == 2 {
        '2'
    } else if d == 3 {
        '3'
    } else if d == 4 {
        '4'
    } else if d == 5 {
        '5'
    } else if d == 6 {
        '6'
    } else if d == 7 {
        '7'
    } else if d == 8 {
        '8'
    } else {
        '9'
    }
}

/// The decimal numeral of `n`: most significant digit first, no sign, no
/// leading zeros, a single `'0'` for zero.
pub open spec fn dec_str(n: int) -> Seq<char>
    recommends
        n >= 0,
    decreases n,
{
    if n < 10 {
        seq![dec_digit(n)]
    } else {
        dec_str(n / 10).push(dec_digit(n % 10))
    }
}

fn digit_literal(d: u64) -> (r: &'static str)
    requires
        d < 10,
    ensures
        r@ == seq![dec_digit(d as int)],
{
    if d == 0 {
        proof {
            reveal_strlit("0");
            assert("0"@ =~= seq![dec_digit(0)]);
        }
        "0"
    } else if d == 1 {
        proof {
            reveal_strlit("1");
            assert("1"@ =~= seq![dec_digit(1)]);
        }
        "1"
    } else if d == 2 {
        proof {
            reveal_strlit("2");
            assert("2"@ =~= seq![dec_digit(2)]);
        }
        "2"
    } else if d == 3 {
        proof {
            reveal_strlit("3");
            assert("3"@ =~= seq![dec_digit(3)]);
        }
        "3"
    } else if d == 4 {
        proof {
            reveal_strlit("4");
            assert("4"@ =~= seq![dec_digit(4)]);
        }
        "4"
    } else if d == 5 {
        proof {
            reveal_strlit("5");
            assert("5"@ =~= seq![dec_digit(5)]);
        }
        "5"
    } else if d == 6 {
        proof {
            reveal_strlit("6");
            assert("6"@ =~= seq![dec_digit(6)]);
        }
        "6"
    } else if d == 7 {
        proof {
            reveal_strlit("7");
            assert("7"@ =~= seq![dec_digit(7)]);
        }
        "7"
    } else if d == 8 {
        proof {
            reveal_strlit("8");
            assert("8"@ =~= seq![dec_digit(8)]);
        }
        "8"
    } else {
        proof {
            reveal_strlit("9");
            assert("9"@ =~= seq![dec_digit(9)]);
        }
        "9"
    }
}

/// The decimal rendering of `n`.
pub fn decimal_string(n: u64) -> (r: String)
    ensures
        r@ == dec_str(n as int),
    decreases n,
{
    if n < 10 {
        String::from_str(digit_literal(n))
    } else {
        let mut s = decimal_string(n / 10);
        s.append(digit_literal(n % 10));
        proof {
            assert(dec_str(n as int) =~= dec_str((n / 10) as int) + seq![
                dec_digit((n % 10) as int),
            ]);
        }
        s
    }
}

/// Zero-padding of `s` to at least `l` characters: leading `'0'`s are
/// added up to the width; a longer `s` is kept whole.
pub open spec fn pad_spec(s: Seq<char>, l: int) -> Seq<char> {
    if s.len() >= l {
        s
    } else {
        Seq::new((l - s.len()) as nat, |k: int| '0') + s
    }
}

/// Pads a numeral with leading zeros to at least `l` characters, never
/// removing any.
pub fn pad(n: String, l: usize) -> (r: String)
    ensures
        r@ == pad_spec(n@, l as int),
{
    let nl = n.as_str().unicode_len();
    if nl >= l {
        n
    } else {
        let mut z = String::new();
        let mut i: usize = 0;
        while i < l - nl
            invariant
                nl == n@.len(),
                nl < l,
                i <= l - nl,
                z@ == Seq::new(i as nat, |k: int| '0'),
            decreases l - nl - i,
        {
            z.append("0");
            i = i + 1;
            proof {
                reveal_strlit("0");
                assert(z@ =~= Seq::new(i as nat, |k: int| '0'));
            }
        }
        z.append(n.as_str());
        z
    }
}

/// The rendering of one match: row and column, each zero-padded to at
/// least two digits, separated by `'-'`, then `" | "` and the unmodified
/// original line.
pub open spec fn render_spec(row: int, col: int, text: Seq<char>) -> Seq<char> {
    pad_spec(dec_str(row), 2) + seq!['-'] + pad_spec(dec_str(col), 2) + seq![' ', '|', ' ']
        + text
}

/// Renders a match as `RR-CC | line`.
pub fn render_match<'a>(m: &Line<'a>) -> (r: String)
    ensures
        r@ == render_spec(m.row as int, m.col as int, m.text@),
{
    let mut s = pad(decimal_string(m.row as u64), 2);
    let cs = pad(decimal_string(m.col as u64), 2);
    s.append("-");
    s.append(cs.as_str());
    s.append(" | ");
    s.append(m.text);
    proof {
        reveal_strlit("-");
        reveal_strlit(" | ");
        assert("-"@ =~= seq!['-']);
        assert(" | "@ =~= seq![' ', '|', ' ']);
        assert(s@ =~= render_spec(m.row as int, m.col as int, m.text@));
    }
    s
}

} // verus!
