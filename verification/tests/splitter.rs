use foundry_js::splitter::split_top_level;

#[test]
fn split_keeps_nested_and_quoted_commas_together() {
    let parts = split_top_level("a(b, c), [d, e], \"f, g\"", ", ");
    assert_eq!(parts, vec!["a(b, c)", "[d, e]", "\"f, g\""]);
}

#[test]
fn split_of_empty_text_is_empty() {
    let parts = split_top_level("", ", ");
    assert!(parts.is_empty());
}

#[test]
fn split_of_text_without_delimiter_is_the_trimmed_text() {
    assert_eq!(split_top_level("  transfer(bob, 1)\t", ", "), vec!["transfer(bob, 1)"]);
}

#[test]
fn split_cuts_at_every_top_level_delimiter() {
    assert_eq!(split_top_level("a, b, c", ", "), vec!["a", "b", "c"]);
    assert_eq!(split_top_level("a,b,c", ","), vec!["a", "b", "c"]);
}

#[test]
fn split_trims_each_piece() {
    assert_eq!(split_top_level(" a ,\tb\n,  c  ", ","), vec!["a", "b", "c"]);
    assert_eq!(split_top_level("\u{a0}a\u{2003},\u{3000}b", ","), vec!["a", "b"]);
}

#[test]
fn split_follows_deep_nesting() {
    let parts = split_top_level("f(g(h(1, 2), [3, 4]), 5), i([j, (k, l)]), m", ", ");
    assert_eq!(parts, vec!["f(g(h(1, 2), [3, 4]), 5)", "i([j, (k, l)])", "m"]);
}

#[test]
fn split_ignores_brackets_inside_quotes() {
    let parts = split_top_level("\"(\", x, \"]\", y", ", ");
    assert_eq!(parts, vec!["\"(\"", "x", "\"]\"", "y"]);
}

#[test]
fn split_lets_an_escaped_quote_stay_inside_its_quotes() {
    let parts = split_top_level("\"a\\\", b\", c", ", ");
    assert_eq!(parts, vec!["\"a\\\", b\"", "c"]);
}

#[test]
fn split_lets_an_escaped_bracket_leave_the_depth_alone() {
    let parts = split_top_level("a\\(, b", ", ");
    assert_eq!(parts, vec!["a\\(", "b"]);
}

#[test]
fn split_takes_an_escaped_escape_as_one_pair() {
    let parts = split_top_level("\"a\\\\\", b", ", ");
    assert_eq!(parts, vec!["\"a\\\\\"", "b"]);
}

#[test]
fn split_keeps_an_empty_piece_between_two_delimiters() {
    assert_eq!(split_top_level("a,,b", ","), vec!["a", "", "b"]);
    assert_eq!(split_top_level(",a", ","), vec!["", "a"]);
}

#[test]
fn split_yields_no_piece_behind_a_last_delimiter() {
    assert_eq!(split_top_level("a, ", ", "), vec!["a"]);
    assert_eq!(split_top_level(",", ","), vec![""]);
}

#[test]
fn split_yields_an_empty_piece_for_trailing_blanks() {
    assert_eq!(split_top_level("a,  ", ","), vec!["a", ""]);
}

#[test]
fn split_needs_the_whole_delimiter() {
    assert_eq!(split_top_level("a,b, c", ", "), vec!["a,b", "c"]);
}

#[test]
fn split_with_an_empty_delimiter_cuts_nowhere() {
    assert_eq!(split_top_level("a, b", ""), vec!["a, b"]);
}

#[test]
fn split_does_not_cut_below_depth_zero() {
    assert_eq!(split_top_level("a), b", ", "), vec!["a), b"]);
    assert_eq!(split_top_level("(a, b", ", "), vec!["(a, b"]);
}

#[test]
fn split_does_not_cut_inside_an_open_quote() {
    assert_eq!(split_top_level("a, \"b, c", ", "), vec!["a", "\"b, c"]);
}

#[test]
fn split_handles_text_beyond_ascii() {
    assert_eq!(split_top_level("é(ü, ö), ß", ", "), vec!["é(ü, ö)", "ß"]);
}

#[test]
fn split_of_a_lone_escape_is_itself() {
    assert_eq!(split_top_level("\\", ","), vec!["\\"]);
    assert_eq!(split_top_level("a\\", ","), vec!["a\\"]);
}

#[test]
fn split_undoes_join_of_closed_parts() {
    let cases: Vec<Vec<&str>> = vec![
        vec![],
        vec!["x"],
        vec!["a(b, c)", "[d, e]", "\"f, g\""],
        vec!["", "", "z"],
        vec!["f(g(h(1, 2), [3, 4]), 5)", "\"quoted \\\" quote, still\"", "plain"],
        vec!["a\\,", "b"],
    ];
    for parts in cases {
        let joined = parts.join(", ");
        assert_eq!(split_top_level(&joined, ", "), parts);
    }
}

#[test]
fn split_pieces_are_never_longer_than_the_text() {
    for text in ["", "a", " a , b ", "((,", "\"a, b", "a, b, c, d"] {
        let pieces = split_top_level(text, ",");
        for piece in &pieces {
            assert!(piece.len() <= text.len());
            assert_eq!(piece.trim(), *piece);
            if pieces.len() >= 2 {
                assert!(piece.len() < text.len());
            }
        }
    }
}
