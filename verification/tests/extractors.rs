use article_segmenter::abstracts::extract_abstract;
use article_segmenter::authors::extract_authors;
use article_segmenter::body::extract_body;
use article_segmenter::intro::extract_introduction;
use article_segmenter::norm::normalize_line;
use article_segmenter::norm::clean_string;
use article_segmenter::tail::{extract_bibliography, extract_conclusion, extract_discussion};
use article_segmenter::title::extract_title;

fn doc(lines: &[&str]) -> Vec<String> {
    lines.iter().map(|s| s.to_string()).collect()
}

#[test]
fn title_skips_noise_lines() {
    let lines = doc(&[
        "Journal of Widget Science, Volume 3",
        "12/09",
        "",
        "A Study Of Widgets",
        "John Smith, Jane Doe, University X",
    ]);
    let (title, end) = extract_title(&lines).expect("title expected");
    assert_eq!(title, "A Study Of Widgets");
    assert_eq!(end, 4);
}

#[test]
fn title_wraps_second_line_when_not_author_like() {
    let lines = doc(&["A Study Of", "Widget Durability", "John Smith, University X"]);
    let (title, end) = extract_title(&lines).expect("title expected");
    assert_eq!(title, "A Study Of Widget Durability");
    assert_eq!(end, 2);
}

#[test]
fn title_not_found_when_every_line_is_noise() {
    let lines = doc(&["", "someone@example.org", "12/09", "Journal of Things"]);
    assert!(extract_title(&lines).is_none());
}

#[test]
fn title_found_when_no_line_is_noise() {
    let lines = doc(&["Plain opening line", "Second line, with a comma"]);
    assert!(extract_title(&lines).is_some());
}

#[test]
fn authors_stop_at_abstract_marker() {
    let lines = doc(&[
        "A Study Of Widgets",
        "John Smith, Jane Doe",
        "University X",
        "Abstract: widgets are studied.",
    ]);
    let authors = extract_authors(&lines, 1);
    assert_eq!(authors, "John Smith, Jane Doe University X");
}

#[test]
fn authors_stop_at_prose_once_started() {
    let lines = doc(&[
        "John Smith, Jane Doe",
        "",
        "widgets are plain lowercase prose without signals",
    ]);
    let authors = extract_authors(&lines, 0);
    assert_eq!(authors, "John Smith, Jane Doe");
}

#[test]
fn abstract_keyword_with_colon_is_stripped() {
    let lines = doc(&[
        "A Study Of Widgets",
        "Abstract: This paper studies widgets in depth.",
        "1. Introduction",
    ]);
    assert_eq!(extract_abstract(&lines), "This paper studies widgets in depth.");
}

#[test]
fn abstract_inline_anchor_is_the_whole_abstract() {
    // When the anchor line carries the abstract, the prose after it belongs
    // to the document's body, not to the abstract.
    let lines = doc(&[
        "Abstract: This paper studies widgets in depth.",
        "Widgets appear everywhere in engineering.",
        "1. Introduction",
    ]);
    assert_eq!(extract_abstract(&lines), "This paper studies widgets in depth.");
}

#[test]
fn abstract_alone_takes_following_lines() {
    let lines = doc(&[
        "Abstract",
        "Widgets are studied here at length.",
        "They are found to be useful.",
        "1 Introduction",
    ]);
    assert_eq!(
        extract_abstract(&lines),
        "Widgets are studied here at length. They are found to be useful."
    );
}

#[test]
fn abstract_falls_back_to_long_line() {
    let long = "x".repeat(60) + " widgets considered as a whole form a dense paragraph here";
    assert!(long.len() > 100);
    let lines = doc(&["Short header", &long, "1 Introduction"]);
    assert_eq!(extract_abstract(&lines), long);
}

#[test]
fn abstract_empty_when_nothing_matches() {
    let lines = doc(&["Short header", "another short line"]);
    assert_eq!(extract_abstract(&lines), "");
}

#[test]
fn intro_scanning_starts_after_abstract_line() {
    // The first line mentions "introduction" and would match the loose
    // heading rule, but scanning must begin at the line holding the abstract.
    let lines = doc(&[
        "The introduction of widgets is a hard problem.",
        "This abstract sentence is unique enough to be found again.",
        "1 Introduction",
        "Widgets deserve close study.",
        "2 Related Work",
    ]);
    let (intro, _off) = extract_introduction(
        &lines,
        "This abstract sentence is unique enough to be found again.",
    );
    assert_eq!(intro, "Widgets deserve close study.");
}

#[test]
fn intro_ends_at_shouted_title() {
    let lines = doc(&[
        "Abstract marker line.",
        "Introduction",
        "First intro sentence here",
        "RELATED WORK AND MORE",
        "after",
    ]);
    let (intro, _off) = extract_introduction(&lines, "Abstract marker line.");
    assert_eq!(intro, "First intro sentence here");
}

#[test]
fn body_excludes_terminal_line() {
    let lines = doc(&[
        "first body line",
        "second body line",
        "5 Conclusion",
        "closing words",
    ]);
    let (body, _end) = extract_body(&lines, 0);
    assert_eq!(body, "first body line\nsecond body line");
    assert!(!body.contains("Conclusion"));
}

#[test]
fn body_runs_to_end_without_terminal() {
    let lines = doc(&["alpha", "beta"]);
    let (body, _end) = extract_body(&lines, 0);
    assert_eq!(body, "alpha\nbeta");
}

#[test]
fn conclusion_found_between_heading_and_references() {
    let lines = doc(&[
        "body text",
        "5. Conclusion",
        "We conclude that widgets work.",
        "References",
        "[1] A reference.",
    ]);
    let (text, _end) = extract_conclusion(&lines, 0);
    assert_eq!(text, "5. Conclusion\nWe conclude that widgets work.");
}

#[test]
fn conclusion_empty_without_heading() {
    let lines = doc(&["body text", "more body text"]);
    let (text, end) = extract_conclusion(&lines, 0);
    assert_eq!(text, "");
    assert_eq!(end, 0);
}

#[test]
fn discussion_matches_word_in_raw_line() {
    let lines = doc(&[
        "body text",
        "Results and Discussion",
        "The discussion body sits here.",
        "Conclusion",
        "closing",
    ]);
    let (text, _end) = extract_discussion(&lines, 0);
    assert_eq!(text, "Results and Discussion\nThe discussion body sits here.");
}

#[test]
fn discussion_tolerates_spaced_letterforms() {
    let lines = doc(&["body", "D I S C U S S I O N", "spread out heading follows", "References"]);
    let (text, _end) = extract_discussion(&lines, 0);
    assert_eq!(text, "D I S C U S S I O N\nspread out heading follows");
}

#[test]
fn bibliography_after_references_heading() {
    let lines = doc(&["text", "R E F E R E N C E S", "[1] First.", "[2] Second."]);
    assert_eq!(extract_bibliography(&lines), "[1] First.\n[2] Second.");
}

#[test]
fn bibliography_sentinel_without_heading() {
    let lines = doc(&["text only"]);
    assert_eq!(extract_bibliography(&lines), "no bibliography found");
}

#[test]
fn normalize_collapses_whitespace_between_letters() {
    assert_eq!(normalize_line("  a   b,  c  "), "a b,c");
    assert_eq!(normalize_line("one\t\ttwo"), "one two");
    assert_eq!(normalize_line("\u{c}page\r"), "page");
}

#[test]
fn normalize_is_idempotent_on_samples() {
    for s in ["  a   b,  c  ", "A  B  C", "word", "", " \t ", "x1  y2 -- z"] {
        let once = normalize_line(s);
        let twice = normalize_line(&once);
        assert_eq!(once, twice);
    }
}

#[test]
fn clean_string_blanks_markers() {
    assert_eq!(clean_string("John Smith1, Jane Doe2\u{2020}"), "John Smith , Jane Doe");
    assert_eq!(clean_string("plain"), "plain");
}
