use article_segmenter::norm::normalize_chars;
use article_segmenter::rules::{
    abstract_start_exec, author_like_exec, authors_stop_exec, biblio_header_exec,
    capitalized_line_exec, conclusion_end_exec, conclusion_start_exec, discussion_start_exec,
    intro_heading_exec, likely_prose_exec, numbered_inline_exec, section_number_only_exec,
    terminal_line_exec, title_noise_exec, upper_title_exec,
};

fn chars(s: &str) -> Vec<char> {
    s.chars().collect()
}

#[test]
fn title_noise_rules() {
    assert!(title_noise_exec(&chars("")));
    assert!(title_noise_exec(&chars("   ")));
    assert!(title_noise_exec(&chars("Journal of Widget Science")));
    assert!(title_noise_exec(&chars("Copyright 2004")));
    assert!(title_noise_exec(&chars("arXiv preprint")));
    assert!(title_noise_exec(&chars("12/09")));
    assert!(title_noise_exec(&chars("mail me at a@b.org")));
    assert!(title_noise_exec(&chars("12; 34 / 5")));
    assert!(!title_noise_exec(&chars("A Study Of Widgets")));
}

#[test]
fn author_like_rules() {
    assert!(author_like_exec(&chars("John Smith, Jane Doe")));
    assert!(author_like_exec(&chars("John Smith and Jane Doe")));
    assert!(author_like_exec(&chars("Widget University Dept")));
    assert!(author_like_exec(&chars("j@d.org")));
    assert!(!author_like_exec(&chars("Widget Durability")));
}

#[test]
fn authors_stop_rules() {
    assert!(authors_stop_exec(&chars("Abstract")));
    assert!(authors_stop_exec(&chars("1 Introduction")));
    assert!(authors_stop_exec(&chars("1 anything")));
    assert!(!authors_stop_exec(&chars("John Smith")));
}

#[test]
fn likely_prose_rules() {
    assert!(likely_prose_exec(&chars("widgets are studied at length")));
    assert!(!likely_prose_exec(&chars("Widgets are studied")));
    assert!(!likely_prose_exec(&chars("write to a@b.org first")));
    assert!(!likely_prose_exec(&chars("we thank John Smith and Jane Doe")));
}

#[test]
fn abstract_start_rules() {
    assert!(abstract_start_exec(&chars("Abstract")));
    assert!(abstract_start_exec(&chars("ABSTRACT: widgets")));
    assert!(abstract_start_exec(&chars("Summary\u{2014}widgets")));
    assert!(abstract_start_exec(&chars("R\u{e9}sum\u{e9}")));
    assert!(!abstract_start_exec(&chars("Abstractions are nice")));
    assert!(!abstract_start_exec(&chars("An abstract thing")));
}

#[test]
fn intro_heading_rules() {
    assert!(intro_heading_exec(&chars("Introduction")));
    assert!(intro_heading_exec(&chars("1. Introduction")));
    assert!(intro_heading_exec(&chars("I. INTRODUCTION")));
    assert!(intro_heading_exec(&chars("ntroduction")));
    assert!(!intro_heading_exec(&chars("Related Work")));
}

#[test]
fn section_number_only_rules() {
    assert!(section_number_only_exec(&chars("2")));
    assert!(section_number_only_exec(&chars(" IV ")));
    assert!(!section_number_only_exec(&chars("2a")));
    assert!(!section_number_only_exec(&chars("")));
}

#[test]
fn capitalized_line_rules() {
    assert!(capitalized_line_exec(&chars("Related Work")));
    assert!(capitalized_line_exec(&chars("Multi-Part Title")));
    assert!(!capitalized_line_exec(&chars("related work")));
    assert!(!capitalized_line_exec(&chars("Related Work 2")));
}

#[test]
fn numbered_inline_rules() {
    assert!(numbered_inline_exec(&chars("2 Related Work")));
    assert!(numbered_inline_exec(&chars("IV. Experiments here")));
    assert!(!numbered_inline_exec(&chars("2")));
    assert!(!numbered_inline_exec(&chars("2. 3 numbers")));
    assert!(!numbered_inline_exec(&chars("Plain sentence")));
}

#[test]
fn upper_title_rules() {
    assert!(upper_title_exec(&chars("RELATED WORK")));
    assert!(!upper_title_exec(&chars("ABS")));
    assert!(!upper_title_exec(&chars("Mostly lowercase words")));
}

#[test]
fn terminal_line_rules() {
    assert!(terminal_line_exec(&chars("5 Conclusion")));
    assert!(terminal_line_exec(&chars("Acknowledgements")));
    assert!(terminal_line_exec(&chars("IV. Experiments")));
    assert!(terminal_line_exec(&chars("Future Work")));
    assert!(!terminal_line_exec(&chars("widgets in general")));
}

#[test]
fn terminal_line_on_normalized_form() {
    let normalized = normalize_chars(&chars("\u{c}  5   Conclusion and outlook"));
    assert!(terminal_line_exec(&normalized));
}

#[test]
fn conclusion_rules() {
    assert!(conclusion_start_exec(&chars("Concluding Remarks")));
    assert!(conclusion_start_exec(&chars("V. Conclusion")));
    assert!(!conclusion_start_exec(&chars("in the end")));
    assert!(conclusion_end_exec(&chars("References")));
    assert!(conclusion_end_exec(&chars("Acknowledgment")));
    assert!(!conclusion_end_exec(&chars("more conclusion text")));
}

#[test]
fn discussion_start_rules() {
    assert!(discussion_start_exec(&chars("Discussion")));
    assert!(discussion_start_exec(&chars("5. Discussion")));
    assert!(discussion_start_exec(&chars("Results and Discussion")));
    assert!(discussion_start_exec(&chars("D I S C U S S I O N")));
    assert!(!discussion_start_exec(&chars("we then discussed widgets")));
    assert!(!discussion_start_exec(&chars("Discussions are ongoing")));
}

#[test]
fn biblio_header_rules() {
    assert!(biblio_header_exec(&chars("References")));
    assert!(biblio_header_exec(&chars("R E F E R E N C E S")));
    assert!(biblio_header_exec(&chars("  Bibliography  ")));
    assert!(biblio_header_exec(&chars("R\u{e9}f\u{e9}rences")));
    assert!(biblio_header_exec(&chars("R\u{c9}F\u{c9}RENCES")));
    assert!(biblio_header_exec(&chars("References\u{2020}")));
    assert!(!biblio_header_exec(&chars("References and Notes")));
}
