//! The scanner: locates, in every line of a text, the first window of
//! folded-query length whose folded text contains the folded query.

use crate::casing::{apply_fold, fold_spec, CaseFold};
use crate::textlines::{lemma_lines_of_bounds, lines_of, split_lines};
use vstd::prelude::*;
use vstd::string::StrSliceExecFns;

verus! {

/// One reported occurrence: 1-based row, 1-based column, and the full
/// original line, borrowed from the searched text. The record stays
/// valid only while that text is alive and unchanged.
#[derive(Debug, PartialEq)]
pub struct Line<'a> {
    pub row: u32,
    pub col: usize,
    pub text: &'a str,
}

/// Ghost record of one match: row and column, both 1-based, and the
/// characters of the line.
#[verifier::ext_equal]
pub struct MatchRec {
    pub row: int,
    pub col: int,
    pub line: Seq<char>,
}

impl<'a> Line<'a> {
    /// The ghost record this match stands for.
    pub open spec fn rec(self) -> MatchRec {
        MatchRec { row: self.row as int, col: self.col as int, line: self.text@ }
    }
}

/// `needle` occurs in `hay` starting at position `i`.
pub open spec fn contains_at(hay: Seq<char>, needle: Seq<char>, i: int) -> bool {
    &&& 0 <= i
    &&& i + needle.len() <= hay.len()
    &&& hay.subrange(i, i + needle.len()) == needle
}

/// `needle` occurs somewhere in `hay`.
pub open spec fn seq_contains(hay: Seq<char>, needle: Seq<char>) -> bool {
    exists|i: int| contains_at(hay, needle, i)
}

/// The window of folded-query length starting at `c` (0-based) fits in
/// the line and, folded, contains the folded query `fq`.
pub open spec fn window_hit(fold: CaseFold, fq: Seq<char>, line: Seq<char>, c: int) -> bool {
    &&& 0 <= c
    &&& c + fq.len() <= line.len()
    &&& seq_contains(fold_spec(fold, line.subrange(c, c + fq.len())), fq)
}

/// The first matching window at or after `c`, if any.
pub open spec fn first_hit_from(fold: CaseFold, fq: Seq<char>, line: Seq<char>, c: int) -> Option<
    int,
>
    decreases line.len() + 1 - c,
{
    if !(0 <= c && c + fq.len() <= line.len()) {
        None
    } else if window_hit(fold, fq, line, c) {
        Some(c)
    } else {
        first_hit_from(fold, fq, line, c + 1)
    }
}

/// A first hit is a hit, lies at or after the start of the scan, and
/// nothing before it is a hit.
pub proof fn lemma_first_hit_some(fold: CaseFold, fq: Seq<char>, line: Seq<char>, c0: int, h: int)
    requires
        first_hit_from(fold, fq, line, c0) == Some(h),
    ensures
        c0 <= h,
        h + fq.len() <= line.len(),
        window_hit(fold, fq, line, h),
        forall|j: int| c0 <= j < h ==> !window_hit(fold, fq, line, j),
    decreases line.len() + 1 - c0,
{
    if !(0 <= c0 && c0 + fq.len() <= line.len()) {
    } else if window_hit(fold, fq, line, c0) {
    } else {
        lemma_first_hit_some(fold, fq, line, c0 + 1, h);
    }
}

/// Whether `needle` occurs in `hay`, checked at one position.
fn match_at(hay: &str, needle: &str, at: usize) -> (r: bool)
    requires
        at + needle@.len() <= hay@.len(),
    ensures
        r == contains_at(hay@, needle@, at as int),
{
    let hlen = hay.unicode_len();
    let nlen = needle.unicode_len();
    let mut j: usize = 0;
    while j < nlen
        invariant
            nlen == needle@.len(),
            hlen == hay@.len(),
            at + nlen <= hlen,
            j <= nlen,
            forall|k: int| 0 <= k < j ==> hay@[at + k] == needle@[k],
        decreases nlen - j,
    {
        if hay.get_char(at + j) != needle.get_char(j) {
            proof {
                assert(hay@.subrange(at as int, at + nlen)[j as int] == hay@[at + j]);
            }
            return false;
        }
        j = j + 1;
    }
    proof {
        assert(hay@.subrange(at as int, at + nlen) =~= needle@);
    }
    true
}

/// Whether `needle` occurs anywhere in `hay` as a contiguous run of
/// characters.
fn str_contains(hay: &str, needle: &str) -> (r: bool)
    ensures
        r == seq_contains(hay@, needle@),
{
    let hlen = hay.unicode_len();
    let nlen = needle.unicode_len();
    if nlen > hlen {
        proof {
            assert(forall|i: int| !contains_at(hay@, needle@, i));
        }
        return false;
    }
    let bound = hlen - nlen;
    let mut i: usize = 0;
    while i <= bound
        invariant
            hlen == hay@.len(),
            nlen == needle@.len(),
            nlen <= hlen,
            bound == hlen - nlen,
            forall|k: int| 0 <= k < i ==> !contains_at(hay@, needle@, k),
        decreases bound + 1 - i,
    {
        if match_at(hay, needle, i) {
            return true;
        }
        proof {
            if nlen == 0 {
                assert(hay@.subrange(i as int, i as int) =~= needle@);
                assert(contains_at(hay@, needle@, i as int));
                assert(false);
            }
        }
        i = i + 1;
    }
    proof {
        assert forall|k: int| !contains_at(hay@, needle@, k) by {
            if contains_at(hay@, needle@, k) {
                assert(0 <= k <= bound);
            }
        }
    }
    false
}

/// Scans one line left to right and returns the 0-based start of the
/// first matching window, if any.
fn scan_line(fold: CaseFold, fq: &str, line: &str) -> (r: Option<usize>)
    ensures
        match r {
            Some(c) => first_hit_from(fold, fq@, line@, 0) == Some(c as int),
            None => first_hit_from(fold, fq@, line@, 0) is None,
        },
{
    let qlen = fq.unicode_len();
    let llen = line.unicode_len();
    if qlen > llen {
        return None;
    }
    let bound = llen - qlen;
    let mut c: usize = 0;
    while c <= bound
        invariant
            qlen == fq@.len(),
            llen == line@.len(),
            qlen <= llen,
            bound == llen - qlen,
            first_hit_from(fold, fq@, line@, 0) == first_hit_from(fold, fq@, line@, c as int),
        decreases bound + 1 - c,
    {
        let window = line.substring_char(c, c + qlen);
        let folded = apply_fold(fold, window);
        let hit = str_contains(folded.as_str(), fq);
        proof {
            assert(window@ == line@.subrange(c as int, c + qlen));
            assert(folded@ == fold_spec(fold, line@.subrange(c as int, c + qlen)));
        }
        if hit {
            proof {
                assert(window_hit(fold, fq@, line@, c as int));
            }
            return Some(c);
        }
        proof {
            assert(!window_hit(fold, fq@, line@, c as int));
            assert(first_hit_from(fold, fq@, line@, c as int) == first_hit_from(
                fold,
                fq@,
                line@,
                c + 1,
            ));
            if qlen == 0 {
                assert(folded@.subrange(0, 0) =~= fq@);
                assert(contains_at(folded@, fq@, 0));
                assert(false);
            }
        }
        c = c + 1;
    }
    None
}

/// The matches of the folded query `fq` in the lines `ls`, rows numbered
/// from `row0`: per line, at most one record, at the first matching
/// window.
pub open spec fn matches_of(fold: CaseFold, fq: Seq<char>, ls: Seq<Seq<char>>, row0: int) -> Seq<
    MatchRec,
>
    decreases ls.len(),
{
    if ls.len() == 0 {
        Seq::empty()
    } else {
        let rest = matches_of(fold, fq, ls.drop_first(), row0 + 1);
        match first_hit_from(fold, fq, ls[0], 0) {
            Some(c) => seq![MatchRec { row: row0, col: c + 1, line: ls[0] }] + rest,
            None => rest,
        }
    }
}

/// What a search returns: the matches of the folded query against the
/// lines of the text, rows numbered from 1.
pub open spec fn search_model(fold: CaseFold, q: Seq<char>, text: Seq<char>) -> Seq<MatchRec> {
    matches_of(fold, fold_spec(fold, q), lines_of(text), 1)
}

/// The scanner: reports, for every line of `contents` in which the
/// folded query occurs, the first matching window, as a 1-based row and
/// column together with the full original line.
pub fn search<'a>(query: &str, contents: &'a str, fold: CaseFold) -> (r: Vec<Line<'a>>)
    requires
        contents@.len() < u32::MAX,
    ensures
        r@.map_values(|m: Line<'a>| m.rec()) == search_model(fold, query@, contents@),
{
    let fq = apply_fold(fold, query);
    let ls = split_lines(contents);
    let mut out: Vec<Line<'a>> = Vec::new();
    let mut idx: usize = 0;
    proof {
        lemma_lines_of_bounds(contents@);
        assert(lines_of(contents@).skip(0) =~= lines_of(contents@));
    }
    while idx < ls.len()
        invariant
            ls@.map_values(|l: &str| l@) == lines_of(contents@),
            fq@ == fold_spec(fold, query@),
            contents@.len() < u32::MAX,
            idx <= ls@.len(),
            lines_of(contents@).len() <= contents@.len(),
            forall|i: int|
                0 <= i < lines_of(contents@).len() ==> (#[trigger] lines_of(contents@)[i]).len()
                    <= contents@.len(),
            matches_of(fold, fq@, lines_of(contents@), 1) == out@.map_values(
                |m: Line<'a>| m.rec(),
            ) + matches_of(fold, fq@, lines_of(contents@).skip(idx as int), idx + 1),
        decreases ls@.len() - idx,
    {
        let line: &'a str = ls[idx];
        let ghost tail = lines_of(contents@).skip(idx as int);
        proof {
            assert(line@ == lines_of(contents@)[idx as int]);
            assert(tail.len() == lines_of(contents@).len() - idx);
            assert(tail[0] == lines_of(contents@)[idx as int]);
            assert(tail.drop_first() =~= lines_of(contents@).skip(idx + 1));
        }
        match scan_line(fold, fq.as_str(), line) {
            Some(c) => {
                proof {
                    lemma_first_hit_some(fold, fq@, line@, 0, c as int);
                }
                let m = Line { row: (idx + 1) as u32, col: c + 1, text: line };
                let ghost prev_map = out@.map_values(|m: Line<'a>| m.rec());
                out.push(m);
                proof {
                    assert(m.rec() == (MatchRec { row: idx + 1, col: c + 1, line: line@ }));
                    assert(out@.map_values(|m: Line<'a>| m.rec()) =~= prev_map + seq![m.rec()]);
                    assert(matches_of(fold, fq@, tail, idx + 1) == seq![m.rec()] + matches_of(
                        fold,
                        fq@,
                        tail.drop_first(),
                        idx + 2,
                    ));
                    assert(matches_of(fold, fq@, lines_of(contents@), 1) =~= out@.map_values(
                        |m: Line<'a>| m.rec(),
                    ) + matches_of(fold, fq@, lines_of(contents@).skip(idx + 1), idx + 2));
                }
            },
            None => {
                proof {
                    assert(matches_of(fold, fq@, tail, idx + 1) == matches_of(
                        fold,
                        fq@,
                        tail.drop_first(),
                        idx + 2,
                    ));
                }
            },
        }
        idx = idx + 1;
    }
    proof {
        assert(lines_of(contents@).skip(ls@.len() as int) =~= Seq::<Seq<char>>::empty());
    }
    out
}

} // verus!
