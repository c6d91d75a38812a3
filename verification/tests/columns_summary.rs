use article_segmenter::columns::{detect_column_cutoff, keep_left_column};
use article_segmenter::summary::extract_title_and_abstract;

fn doc(lines: &[&str]) -> Vec<String> {
    lines.iter().map(|s| s.to_string()).collect()
}

fn two_column_line(left: &str, right: &str) -> String {
    // Left text padded to column 45, a five-space gutter, then the right
    // column starting at column 50.
    let mut s = String::new();
    s.push_str(left);
    while s.chars().count() < 45 {
        s.push('x');
    }
    s.push_str("     ");
    s.push_str(right);
    s
}

#[test]
fn cutoff_detected_at_shared_gutter() {
    let lines: Vec<String> = (0..10)
        .map(|i| two_column_line(&format!("left text {} ", i), "right column text"))
        .collect();
    assert_eq!(detect_column_cutoff(&lines), 50);
}

#[test]
fn no_cutoff_in_single_column_text() {
    let lines = doc(&["a plain line", "another plain line", ""]);
    assert_eq!(detect_column_cutoff(&lines), usize::MAX);
}

#[test]
fn rare_gutter_is_ignored() {
    // Only one gutter line among many: below the fifteen percent floor.
    let mut lines: Vec<String> = (0..9)
        .map(|i| format!("an ordinary single column line number {}", i))
        .collect();
    lines.push(two_column_line("left ", "right"));
    assert_eq!(detect_column_cutoff(&lines), usize::MAX);
}

#[test]
fn keep_left_column_truncates_and_trims() {
    let lines = doc(&["abcdef   ", "ab", ""]);
    let kept = keep_left_column(&lines, 4);
    assert_eq!(kept, vec!["abcd".to_string(), "ab".to_string(), "".to_string()]);
}

#[test]
fn keep_left_column_drops_right_column() {
    let lines = vec![two_column_line("left words ", "right words")];
    let kept = keep_left_column(&lines, 50);
    assert!(kept[0].starts_with("left words "));
    assert!(!kept[0].contains("right"));
}

#[test]
fn summarizer_takes_title_and_abstract() {
    let lines = doc(&[
        "A Study Of Widgets",
        "Second Title Line",
        "Abstract",
        "Widgets are studied in depth.",
        "1 Introduction",
        "intro text",
    ]);
    let (name, title, abstract_text, total, abs_count) =
        extract_title_and_abstract("my file.txt", &lines);
    assert_eq!(name, "my_file.txt");
    assert_eq!(title, "A Study Of Widgets Second Title Line");
    assert_eq!(abstract_text, "Widgets are studied in depth.");
    assert_eq!(total, 6);
    assert_eq!(abs_count, 1);
}

#[test]
fn summarizer_strips_inline_abstract_keyword() {
    let lines = doc(&[
        "Widget Title",
        "Abstract: 123 widgets were measured.",
        "1. Methods",
    ]);
    let (_, title, abstract_text, _, _) = extract_title_and_abstract("w.txt", &lines);
    assert_eq!(title, "Widget Title");
    assert_eq!(abstract_text, "123 widgets were measured.");
}

#[test]
fn summarizer_dehyphenates_across_lines() {
    let lines = doc(&[
        "Widget Title",
        "Abstract",
        "Widgets are con- sidered at length.",
        "1 Results",
    ]);
    let (_, _, abstract_text, _, abs_count) = extract_title_and_abstract("w.txt", &lines);
    assert_eq!(abstract_text, "Widgets are considered at length.");
    assert_eq!(abs_count, 1);
}

#[test]
fn summarizer_title_stops_at_contact_line() {
    let lines = doc(&[
        "Widget Title",
        "john@example.org",
        "A Third Line",
        "Abstract",
        "Some abstract words here.",
        "1 Results",
    ]);
    let (_, title, _, _, _) = extract_title_and_abstract("w.txt", &lines);
    assert_eq!(title, "Widget Title");
}
