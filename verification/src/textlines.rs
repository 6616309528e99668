//! Splitting a text into lines. A line is a maximal run of characters
//! between line terminators (`\n`, or `\r\n` taken as one terminator); a
//! trailing run without a terminator is still a line; empty text has no
//! lines.

use vstd::prelude::*;
use vstd::string::StrSliceExecFns;

verus! {

/// Index of the first `'\n'` in `s`, or `s.len()` if there is none.
pub open spec fn first_nl(s: Seq<char>) -> int
    decreases s.len(),
{
    if s.len() == 0 {
        0
    } else if s[0] == '\n' {
        0
    } else {
        1 + first_nl(s.drop_first())
    }
}

pub proof fn lemma_first_nl(s: Seq<char>)
    ensures
        0 <= first_nl(s) <= s.len(),
        forall|j: int| 0 <= j < first_nl(s) ==> s[j] != '\n',
        first_nl(s) < s.len() ==> s[first_nl(s)] == '\n',
    decreases s.len(),
{
    if s.len() == 0 {
    } else if s[0] == '\n' {
    } else {
        lemma_first_nl(s.drop_first());
        assert forall|j: int| 0 <= j < first_nl(s) implies s[j] != '\n' by {
            if j > 0 {
                assert(s.drop_first()[j - 1] == s[j]);
            }
        }
        if first_nl(s) < s.len() {
            assert(s.drop_first()[first_nl(s) - 1] == s[first_nl(s)]);
        }
    }
}

/// The exact position of the first newline follows from a scan that found
/// no newline before `i` and a newline (or the end) at `i`.
pub proof fn lemma_first_nl_is(s: Seq<char>, i: int)
    requires
        0 <= i <= s.len(),
        forall|j: int| 0 <= j < i ==> s[j] != '\n',
        i < s.len() ==> s[i] == '\n',
    ensures
        first_nl(s) == i,
    decreases s.len(),
{
    if s.len() == 0 {
    } else if s[0] == '\n' {
        assert(i == 0);
    } else {
        assert(i >= 1);
        assert forall|j: int| 0 <= j < i - 1 implies s.drop_first()[j] != '\n' by {
            assert(s.drop_first()[j] == s[j + 1]);
        }
        if i - 1 < s.drop_first().len() {
            assert(s.drop_first()[i - 1] == s[i]);
        }
        lemma_first_nl_is(s.drop_first(), i - 1);
    }
}

/// A line segment with a trailing carriage return removed, as `\r\n`
/// counts as a single terminator.
pub open spec fn strip_cr(l: Seq<char>) -> Seq<char> {
    if l.len() > 0 && l[l.len() - 1] == '\r' {
        l.drop_last()
    } else {
        l
    }
}

/// The lines of a text, in order.
pub open spec fn lines_of(s: Seq<char>) -> Seq<Seq<char>>
    decreases s.len(),
{
    if s.len() == 0 {
        Seq::empty()
    } else {
        let i = first_nl(s);
        if 0 <= i < s.len() {
            seq![strip_cr(s.take(i))] + lines_of(s.skip(i + 1))
        } else {
            seq![s]
        }
    }
}

/// There are at most as many lines as characters, and no line is longer
/// than the text it came from.
pub proof fn lemma_lines_of_bounds(s: Seq<char>)
    ensures
        lines_of(s).len() <= s.len(),
        forall|i: int|
            0 <= i < lines_of(s).len() ==> (#[trigger] lines_of(s)[i]).len() <= s.len(),
    decreases s.len(),
{
    if s.len() == 0 {
    } else {
        lemma_first_nl(s);
        let k = first_nl(s);
        if k < s.len() {
            lemma_lines_of_bounds(s.skip(k + 1));
            assert(s.skip(k + 1).len() == s.len() - k - 1);
            assert forall|i: int|
                0 <= i < lines_of(s).len() implies (#[trigger] lines_of(s)[i]).len()
                <= s.len() by {
                if i == 0 {
                    assert(lines_of(s)[0] == strip_cr(s.take(k)));
                    assert(s.take(k).len() == k);
                } else {
                    assert(lines_of(s)[i] == lines_of(s.skip(k + 1))[i - 1]);
                }
            }
        }
    }
}

/// Splits a text into its lines, each borrowed from the original.
pub fn split_lines<'a>(s: &'a str) -> (r: Vec<&'a str>)
    ensures
        r@.map_values(|l: &str| l@) == lines_of(s@),
{
    let mut out: Vec<&'a str> = Vec::new();
    let mut rest: &'a str = s;
    let mut rlen: usize = rest.unicode_len();
    while rlen > 0
        invariant
            rlen == rest@.len(),
            lines_of(s@) == out@.map_values(|l: &str| l@) + lines_of(rest@),
        decreases rlen,
    {
        let ghost prev_rest = rest@;
        let ghost prev_map = out@.map_values(|l: &str| l@);
        let mut i: usize = 0;
        while i < rlen && rest.get_char(i) != '\n'
            invariant
                rlen == rest@.len(),
                i <= rlen,
                forall|j: int| 0 <= j < i ==> rest@[j] != '\n',
            decreases rlen - i,
        {
            i = i + 1;
        }
        proof {
            lemma_first_nl_is(rest@, i as int);
        }
        if i == rlen {
            // no terminator: the whole remainder is the last line
            out.push(rest);
            let tail = rest.substring_char(rlen, rlen);
            proof {
                assert(lines_of(prev_rest) =~= seq![prev_rest]);
                assert(out@.map_values(|l: &str| l@) =~= prev_map + seq![prev_rest]);
                assert(lines_of(s@) =~= out@.map_values(|l: &str| l@) + lines_of(tail@));
            }
            rest = tail;
            rlen = 0;
        } else {
            let end: usize = if i > 0 && rest.get_char(i - 1) == '\r' {
                i - 1
            } else {
                i
            };
            let line = rest.substring_char(0, end);
            let tail = rest.substring_char(i + 1, rlen);
            out.push(line);
            proof {
                assert(prev_rest.take(i as int) =~= prev_rest.subrange(0, i as int));
                if i > 0 && prev_rest[i - 1] == '\r' {
                    assert(prev_rest.take(i as int)[i - 1] == prev_rest[i - 1]);
                    assert(strip_cr(prev_rest.take(i as int)) =~= prev_rest.subrange(
                        0,
                        i - 1,
                    ));
                } else {
                    if i > 0 {
                        assert(prev_rest.take(i as int)[i - 1] == prev_rest[i - 1]);
                    }
                    assert(strip_cr(prev_rest.take(i as int)) =~= prev_rest.subrange(
                        0,
                        i as int,
                    ));
                }
                assert(line@ == strip_cr(prev_rest.take(i as int)));
                assert(lines_of(prev_rest) == seq![strip_cr(prev_rest.take(i as int))]
                    + lines_of(prev_rest.skip(i + 1)));
                assert(out@.map_values(|l: &str| l@) =~= prev_map + seq![line@]);
                assert(lines_of(s@) =~= out@.map_values(|l: &str| l@) + lines_of(tail@));
            }
            rest = tail;
            rlen = rlen - (i + 1);
        }
    }
    proof {
        assert(lines_of(rest@) =~= Seq::<Seq<char>>::empty());
        assert(lines_of(s@) =~= out@.map_values(|l: &str| l@));
    }
    out
}

} // verus!
