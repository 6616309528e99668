//! Laws of the scanner, stated over the model that `search`'s contract
//! uses and proved once for all inputs.

use crate::casing::{fold_spec, lower_of, CaseFold};
use crate::scan::{
    contains_at, first_hit_from, lemma_first_hit_some, matches_of, search_model, seq_contains,
    window_hit, MatchRec,
};
use crate::textlines::lines_of;
use vstd::prelude::*;

verus! {

/// Every reported match lies within its line: the column is at least 1,
/// and the window of folded-query length starting there ends at or
/// before the end of the line.
pub proof fn lemma_match_within_line(fold: CaseFold, fq: Seq<char>, ls: Seq<Seq<char>>, row0: int)
    ensures
        forall|k: int|
            0 <= k < matches_of(fold, fq, ls, row0).len() ==> 1 <= (
            #[trigger] matches_of(fold, fq, ls, row0)[k]).col && matches_of(fold, fq, ls, row0)[k].col
                + fq.len() - 1 <= matches_of(fold, fq, ls, row0)[k].line.len(),
    decreases ls.len(),
{
    if ls.len() == 0 {
    } else {
        lemma_match_within_line(fold, fq, ls.drop_first(), row0 + 1);
        let ms = matches_of(fold, fq, ls, row0);
        let rest = matches_of(fold, fq, ls.drop_first(), row0 + 1);
        match first_hit_from(fold, fq, ls[0], 0) {
            Some(c) => {
                lemma_first_hit_some(fold, fq, ls[0], 0, c);
                assert forall|k: int|
                    0 <= k < ms.len() implies 1 <= (#[trigger] ms[k]).col && ms[k].col + fq.len()
                    - 1 <= ms[k].line.len() by {
                    if k > 0 {
                        assert(ms[k] == rest[k - 1]);
                    }
                }
            },
            None => {
                assert forall|k: int|
                    0 <= k < ms.len() implies 1 <= (#[trigger] ms[k]).col && ms[k].col + fq.len()
                    - 1 <= ms[k].line.len() by {
                    assert(ms[k] == rest[k]);
                }
            },
        }
    }
}

/// Rows are strictly increasing across the result — so no row carries
/// more than one match — and every row lies in the scanned range.
pub proof fn lemma_rows_increasing(fold: CaseFold, fq: Seq<char>, ls: Seq<Seq<char>>, row0: int)
    ensures
        forall|k: int|
            0 <= k < matches_of(fold, fq, ls, row0).len() ==> row0 <= (
            #[trigger] matches_of(fold, fq, ls, row0)[k]).row < row0 + ls.len(),
        forall|i: int, j: int|
            0 <= i < j < matches_of(fold, fq, ls, row0).len() ==> (
            #[trigger] matches_of(fold, fq, ls, row0)[i]).row < (
            #[trigger] matches_of(fold, fq, ls, row0)[j]).row,
    decreases ls.len(),
{
    if ls.len() == 0 {
    } else {
        lemma_rows_increasing(fold, fq, ls.drop_first(), row0 + 1);
        let ms = matches_of(fold, fq, ls, row0);
        let rest = matches_of(fold, fq, ls.drop_first(), row0 + 1);
        match first_hit_from(fold, fq, ls[0], 0) {
            Some(c) => {
                assert forall|k: int|
                    0 <= k < ms.len() implies row0 <= (#[trigger] ms[k]).row < row0
                    + ls.len() by {
                    if k > 0 {
                        assert(ms[k] == rest[k - 1]);
                    }
                }
                assert forall|i: int, j: int|
                    0 <= i < j < ms.len() implies (#[trigger] ms[i]).row < (
                #[trigger] ms[j]).row by {
                    if i > 0 {
                        assert(ms[i] == rest[i - 1]);
                    }
                    assert(ms[j] == rest[j - 1]);
                }
            },
            None => {
                assert forall|k: int|
                    0 <= k < ms.len() implies row0 <= (#[trigger] ms[k]).row < row0
                    + ls.len() by {
                    assert(ms[k] == rest[k]);
                }
                assert forall|i: int, j: int|
                    0 <= i < j < ms.len() implies (#[trigger] ms[i]).row < (
                #[trigger] ms[j]).row by {
                    assert(ms[i] == rest[i]);
                    assert(ms[j] == rest[j]);
                }
            },
        }
    }
}

/// Case-insensitive search depends only on the lowercase folding of the
/// query: two queries that fold to the same characters produce the same
/// matches, whatever their original casing.
pub proof fn lemma_insensitive_query_casing(q1: Seq<char>, q2: Seq<char>, text: Seq<char>)
    requires
        lower_of(q1) == lower_of(q2),
    ensures
        search_model(CaseFold::Insensitive, q1, text) == search_model(
            CaseFold::Insensitive,
            q2,
            text,
        ),
{
}

/// A sequence that contains an equally long sequence equals it.
proof fn lemma_contains_same_len(hay: Seq<char>, needle: Seq<char>)
    requires
        seq_contains(hay, needle),
        hay.len() == needle.len(),
    ensures
        hay == needle,
{
    let i = choose|i: int| contains_at(hay, needle, i);
    assert(i == 0);
    assert(hay.subrange(0, hay.len() as int) =~= hay);
}

/// Case-sensitive search reports only exact occurrences: at every
/// reported match the window equals the query character for character,
/// so a candidate that differs from the query only in case is never
/// reported.
pub proof fn lemma_sensitive_exact(q: Seq<char>, ls: Seq<Seq<char>>, row0: int)
    ensures
        forall|k: int|
            0 <= k < matches_of(CaseFold::Sensitive, q, ls, row0).len() ==> (
            #[trigger] matches_of(CaseFold::Sensitive, q, ls, row0)[k]).line.subrange(
                matches_of(CaseFold::Sensitive, q, ls, row0)[k].col - 1,
                matches_of(CaseFold::Sensitive, q, ls, row0)[k].col - 1 + q.len(),
            ) == q,
    decreases ls.len(),
{
    let fold = CaseFold::Sensitive;
    if ls.len() == 0 {
    } else {
        lemma_sensitive_exact(q, ls.drop_first(), row0 + 1);
        let ms = matches_of(fold, q, ls, row0);
        let rest = matches_of(fold, q, ls.drop_first(), row0 + 1);
        match first_hit_from(fold, q, ls[0], 0) {
            Some(c) => {
                lemma_first_hit_some(fold, q, ls[0], 0, c);
                assert(window_hit(fold, q, ls[0], c));
                lemma_contains_same_len(ls[0].subrange(c, c + q.len()), q);
                assert forall|k: int|
                    0 <= k < ms.len() implies (#[trigger] ms[k]).line.subrange(
                    ms[k].col - 1,
                    ms[k].col - 1 + q.len(),
                ) == q by {
                    if k > 0 {
                        assert(ms[k] == rest[k - 1]);
                    }
                }
            },
            None => {
                assert forall|k: int|
                    0 <= k < ms.len() implies (#[trigger] ms[k]).line.subrange(
                    ms[k].col - 1,
                    ms[k].col - 1 + q.len(),
                ) == q by {
                    assert(ms[k] == rest[k]);
                }
            },
        }
    }
}

/// With a folded query of length zero, every line matches at column 1.
pub proof fn lemma_empty_query_matches_all(
    fold: CaseFold,
    fq: Seq<char>,
    ls: Seq<Seq<char>>,
    row0: int,
)
    requires
        fq.len() == 0,
    ensures
        matches_of(fold, fq, ls, row0).len() == ls.len(),
        forall|i: int|
            0 <= i < ls.len() ==> #[trigger] matches_of(fold, fq, ls, row0)[i] == (MatchRec {
                row: row0 + i,
                col: 1,
                line: ls[i],
            }),
    decreases ls.len(),
{
    if ls.len() == 0 {
    } else {
        lemma_empty_query_matches_all(fold, fq, ls.drop_first(), row0 + 1);
        assert(fold_spec(fold, ls[0].subrange(0, 0)).subrange(0, 0) =~= fq);
        assert(contains_at(fold_spec(fold, ls[0].subrange(0, 0)), fq, 0));
        assert(window_hit(fold, fq, ls[0], 0));
        assert(first_hit_from(fold, fq, ls[0], 0) == Some(0int));
        let ms = matches_of(fold, fq, ls, row0);
        let rest = matches_of(fold, fq, ls.drop_first(), row0 + 1);
        assert forall|i: int|
            0 <= i < ls.len() implies #[trigger] ms[i] == (MatchRec {
            row: row0 + i,
            col: 1,
            line: ls[i],
        }) by {
            if i > 0 {
                assert(ms[i] == rest[i - 1]);
                assert(ls.drop_first()[i - 1] == ls[i]);
            }
        }
    }
}

/// A folded query longer than every line of the text yields an empty
/// result.
pub proof fn lemma_query_longer_than_lines(fold: CaseFold, fq: Seq<char>, ls: Seq<Seq<char>>, row0: int)
    requires
        forall|i: int| 0 <= i < ls.len() ==> (#[trigger] ls[i]).len() < fq.len(),
    ensures
        matches_of(fold, fq, ls, row0).len() == 0,
    decreases ls.len(),
{
    if ls.len() == 0 {
    } else {
        assert(ls[0].len() < fq.len());
        assert(first_hit_from(fold, fq, ls[0], 0) is None);
        assert forall|i: int|
            0 <= i < ls.drop_first().len() implies (#[trigger] ls.drop_first()[i]).len()
            < fq.len() by {
            assert(ls.drop_first()[i] == ls[i + 1]);
        }
        lemma_query_longer_than_lines(fold, fq, ls.drop_first(), row0 + 1);
    }
}

/// Case-sensitive search, stated for the search model itself: at every
/// reported match the window equals the query character for character.
pub proof fn lemma_sensitive_exact_search(q: Seq<char>, text: Seq<char>)
    ensures
        forall|k: int|
            0 <= k < search_model(CaseFold::Sensitive, q, text).len() ==> (
            #[trigger] search_model(CaseFold::Sensitive, q, text)[k]).line.subrange(
                search_model(CaseFold::Sensitive, q, text)[k].col - 1,
                search_model(CaseFold::Sensitive, q, text)[k].col - 1 + q.len(),
            ) == q,
{
    lemma_sensitive_exact(q, lines_of(text), 1);
}

/// An empty folded query matches every line of the text at column 1.
pub proof fn lemma_empty_query_search(fold: CaseFold, q: Seq<char>, text: Seq<char>)
    requires
        fold_spec(fold, q).len() == 0,
    ensures
        search_model(fold, q, text).len() == lines_of(text).len(),
        forall|i: int|
            0 <= i < lines_of(text).len() ==> #[trigger] search_model(fold, q, text)[i] == (
            MatchRec { row: i + 1, col: 1, line: lines_of(text)[i] }),
{
    lemma_empty_query_matches_all(fold, fold_spec(fold, q), lines_of(text), 1);
}

/// A folded query longer than every line of the text yields an empty
/// result.
pub proof fn lemma_query_longer_search(fold: CaseFold, q: Seq<char>, text: Seq<char>)
    requires
        forall|i: int|
            0 <= i < lines_of(text).len() ==> (#[trigger] lines_of(text)[i]).len() < fold_spec(
                fold,
                q,
            ).len(),
    ensures
        search_model(fold, q, text).len() == 0,
{
    lemma_query_longer_than_lines(fold, fold_spec(fold, q), lines_of(text), 1);
}

/// The laws above, restated for the search model itself: every match of
/// a search lies within its line, and rows are strictly increasing with
/// at most one match per row.
pub proof fn lemma_search_model_sound(fold: CaseFold, q: Seq<char>, text: Seq<char>)
    ensures
        forall|k: int|
            0 <= k < search_model(fold, q, text).len() ==> 1 <= (
            #[trigger] search_model(fold, q, text)[k]).col && search_model(fold, q, text)[k].col
                + fold_spec(fold, q).len() - 1 <= search_model(fold, q, text)[k].line.len(),
        forall|k: int|
            0 <= k < search_model(fold, q, text).len() ==> 1 <= (
            #[trigger] search_model(fold, q, text)[k]).row <= lines_of(text).len(),
        forall|i: int, j: int|
            0 <= i < j < search_model(fold, q, text).len() ==> (
            #[trigger] search_model(fold, q, text)[i]).row < (
            #[trigger] search_model(fold, q, text)[j]).row,
{
    lemma_match_within_line(fold, fold_spec(fold, q), lines_of(text), 1);
    lemma_rows_increasing(fold, fold_spec(fold, q), lines_of(text), 1);
}

} // verus!
