use minigrep::{search, CaseFold, Line};

#[test]
fn should_find_case_sensitive() {
    let found = Line {
        row: 2,
        col: 16,
        text: "safe, fast, productive.",
    };
    let query = "duct";
    let contents = "\
Rust:
safe, fast, productive.
Pick three.
Duct tape";

    assert_eq!(vec![found], search(query, contents, CaseFold::Sensitive));
}

#[test]
fn should_find_case_insensitve() {
    let found1 = Line {
        row: 1,
        col: 1,
        text: "Rust:",
    };
    let found2 = Line {
        row: 4,
        col: 2,
        text: "Trust me.",
    };
    let query = "rUsT";
    let contents = "\
Rust:
safe, fast, productive.
Pick three.
Trust me.";

    assert_eq!(
        vec![found1, found2],
        search(query, contents, CaseFold::Insensitive)
    );
}

#[test]
fn empty_query_matches_every_line_at_column_one() {
    let contents = "ab\ncd\nef";
    let expected = vec![
        Line { row: 1, col: 1, text: "ab" },
        Line { row: 2, col: 1, text: "cd" },
        Line { row: 3, col: 1, text: "ef" },
    ];
    assert_eq!(expected, search("", contents, CaseFold::Sensitive));
    assert_eq!(expected, search("", contents, CaseFold::Insensitive));
}

#[test]
fn query_longer_than_every_line_yields_nothing() {
    let contents = "ab\ncd";
    assert_eq!(
        Vec::<Line>::new(),
        search("abcdef", contents, CaseFold::Sensitive)
    );
    assert_eq!(
        Vec::<Line>::new(),
        search("abcdef", contents, CaseFold::Insensitive)
    );
}

#[test]
fn empty_text_yields_nothing() {
    assert_eq!(Vec::<Line>::new(), search("x", "", CaseFold::Sensitive));
    assert_eq!(Vec::<Line>::new(), search("x", "", CaseFold::Insensitive));
}

#[test]
fn case_sensitive_rejects_query_differing_only_in_case() {
    assert_eq!(
        Vec::<Line>::new(),
        search("DUCT", "duct tape", CaseFold::Sensitive)
    );
    assert_eq!(
        Vec::<Line>::new(),
        search("Duct", "duct tape\nducts", CaseFold::Sensitive)
    );
}

#[test]
fn rows_strictly_increase_with_one_match_per_line() {
    let contents = "xxa\nbbb\nax\naaa";
    let result = search("a", contents, CaseFold::Sensitive);
    let expected = vec![
        Line { row: 1, col: 3, text: "xxa" },
        Line { row: 3, col: 1, text: "ax" },
        Line { row: 4, col: 1, text: "aaa" },
    ];
    assert_eq!(expected, result);
    for pair in result.windows(2) {
        assert!(pair[0].row < pair[1].row);
    }
}

#[test]
fn match_window_never_runs_past_line_end() {
    let result = search("cd", "abcd", CaseFold::Sensitive);
    assert_eq!(vec![Line { row: 1, col: 3, text: "abcd" }], result);
    assert!(result[0].col >= 1);
    assert!(result[0].col + "cd".len() - 1 <= "abcd".len());
}

#[test]
fn insensitive_search_ignores_query_casing() {
    let contents = "Mixed CASE text\nlower case";
    assert_eq!(
        search("CASE", contents, CaseFold::Insensitive),
        search("case", contents, CaseFold::Insensitive)
    );
    assert_eq!(
        vec![
            Line { row: 1, col: 7, text: "Mixed CASE text" },
            Line { row: 2, col: 7, text: "lower case" },
        ],
        search("cAsE", contents, CaseFold::Insensitive)
    );
}

#[test]
fn carriage_return_before_newline_is_not_part_of_the_line() {
    assert_eq!(
        vec![Line { row: 1, col: 1, text: "ab" }],
        search("ab", "ab\r\ncd", CaseFold::Sensitive)
    );
}

#[test]
fn bare_carriage_return_stays_in_the_line() {
    assert_eq!(
        vec![Line { row: 1, col: 1, text: "ab\r" }],
        search("ab", "ab\r", CaseFold::Sensitive)
    );
}

#[test]
fn only_first_occurrence_in_a_line_is_reported() {
    assert_eq!(
        vec![Line { row: 1, col: 1, text: "abab" }],
        search("ab", "abab", CaseFold::Sensitive)
    );
}

#[test]
fn columns_count_characters_not_bytes() {
    assert_eq!(
        vec![Line { row: 1, col: 4, text: "café" }],
        search("é", "café", CaseFold::Sensitive)
    );
    assert_eq!(
        vec![Line { row: 1, col: 4, text: "café" }],
        search("É", "café", CaseFold::Insensitive)
    );
}

#[test]
fn trailing_newline_adds_no_line() {
    assert_eq!(
        vec![Line { row: 1, col: 1, text: "ab" }],
        search("", "ab\n", CaseFold::Sensitive)
    );
}
