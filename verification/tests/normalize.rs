use reddit_bot::subreddits::parse_subreddits;
use reddit_bot::textfmt::{fmt_u32, parse_select};

#[test]
fn test_parse_subreddits() {
    let input = "aaa bbb ccc";
    let result = parse_subreddits(input);
    assert_eq!(result, ["aaa", "bbb", "ccc"]);

    let input = "ccc xxx aaa bbb";
    let result = parse_subreddits(input);
    assert_eq!(result, ["aaa", "bbb", "ccc", "xxx"]);

    let input = "aaa bbb bbb ccc bbb";
    let result = parse_subreddits(input);
    assert_eq!(result, ["aaa", "bbb", "ccc"]);

    let input = "\n\n  \n aaa\n\n bbb\n  bbb\n\n \n  ccc bbb\n \n";
    let result = parse_subreddits(input);
    assert_eq!(result, ["aaa", "bbb", "ccc"]);

    let input = "aaa\nbbb\nccc\n";
    let result = parse_subreddits(input);
    assert_eq!(result, ["aaa", "bbb", "ccc"]);

    let input = "aaa \nbbb \nccc \n";
    let result = parse_subreddits(input);
    assert_eq!(result, ["aaa", "bbb", "ccc"]);

    let input = "\n\n  \n r/aaa\n\n r/bbb\n  bbb\n\n \n  r/ccc bbb\n \n";
    let result = parse_subreddits(input);
    assert_eq!(result, ["aaa", "bbb", "ccc"]);
}

#[test]
fn parse_subreddits_single_name() {
    assert_eq!(parse_subreddits("rust"), ["rust"]);
    assert_eq!(parse_subreddits("r/rust"), ["rust"]);
}

#[test]
fn marker_is_stripped_only_at_the_front() {
    // An interior "r/" is part of the name and stays.
    assert_eq!(parse_subreddits("far/ther"), ["far/ther"]);
    assert_eq!(parse_subreddits("r/far/ther"), ["far/ther"]);
    assert_eq!(parse_subreddits("r/aaa bar/"), ["aaa", "bar/"]);
}

#[test]
fn parse_select_values() {
    assert_eq!(parse_select("5", 7, 0), 5);
    assert_eq!(parse_select("0", 7, 0), 0);
    assert_eq!(parse_select("6", 7, 0), 6);
    assert_eq!(parse_select("7", 7, 0), 0);
    assert_eq!(parse_select("99", 24, 12), 12);
    assert_eq!(parse_select("23", 24, 12), 23);
    assert_eq!(parse_select("", 24, 12), 12);
    assert_eq!(parse_select("abc", 24, 12), 12);
    assert_eq!(parse_select("-3", 24, 12), 12);
    assert_eq!(parse_select("-0", 24, 12), 0);
    assert_eq!(parse_select("+3", 24, 12), 3);
    assert_eq!(parse_select("999999999999999999999999", 24, 12), 12);
}

#[test]
fn fmt_u32_values() {
    assert_eq!(fmt_u32(0), "0");
    assert_eq!(fmt_u32(9), "9");
    assert_eq!(fmt_u32(10), "10");
    assert_eq!(fmt_u32(23), "23");
    assert_eq!(fmt_u32(12345), "12345");
}

#[test]
fn whitespace_runs_collapse_but_lone_tabs_stay() {
    // A run of mixed whitespace acts as one separator...
    assert_eq!(parse_subreddits("a \t b"), ["a", "b"]);
    // ...while a single non-space whitespace character is no separator.
    assert_eq!(parse_subreddits("a\tb"), ["a\tb"]);
}
