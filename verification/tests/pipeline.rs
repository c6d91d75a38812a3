use article_segmenter::pipeline::{extract_article_fields, ArticleRecord, ExtractError};
use article_segmenter::report::{render_combined_xml, render_txt_summaries};

fn doc(lines: &[&str]) -> Vec<String> {
    lines.iter().map(|s| s.to_string()).collect()
}

fn twenty_line_document() -> Vec<String> {
    doc(&[
        "A Study Of Widgets",
        "John Smith, Jane Doe, University X",
        "Abstract: This paper studies widgets in depth and presents results.",
        "Widgets appear in every engineering domain.",
        "Their behaviour under load is poorly understood.",
        "We report on a systematic set of measurements.",
        "1 Introduction",
        "Widgets have long resisted systematic study.",
        "We survey their behaviour in detail.",
        "Our findings are summarized below.",
        "2 Conclusion",
        "Widgets are henceforth considered fully understood.",
        "References",
        "[1] A. Author, Widget Basics.",
        "[2] B. Author, More Widgets.",
        "[3] C. Author, Widget Dynamics.",
        "[4] D. Author, Widget Statics.",
        "[5] E. Author, Applied Widgets.",
        "[6] F. Author, Widget Theory.",
        "[7] G. Author, The Last Widget.",
    ])
}

#[test]
fn end_to_end_twenty_line_document() {
    let lines = twenty_line_document();
    let rec = extract_article_fields("widgets.txt", &lines).expect("record expected");
    assert_eq!(rec.title, "A Study Of Widgets");
    assert!(rec.authors.contains("John Smith"));
    assert!(rec.authors.contains("Jane Doe"));
    assert_eq!(rec.abstract_text, "This paper studies widgets in depth and presents results.");
    assert_ne!(rec.conclusion, "no conclusion found");
    assert!(rec.conclusion.contains("Widgets are henceforth considered fully understood."));
    assert_eq!(
        rec.bibliography,
        "[1] A. Author, Widget Basics.\n[2] B. Author, More Widgets.\n\
         [3] C. Author, Widget Dynamics.\n[4] D. Author, Widget Statics.\n\
         [5] E. Author, Applied Widgets.\n[6] F. Author, Widget Theory.\n\
         [7] G. Author, The Last Widget."
    );
}

#[test]
fn pipeline_is_deterministic_on_identical_input() {
    let lines = twenty_line_document();
    let a = extract_article_fields("a file.txt", &lines).expect("record expected");
    let b = extract_article_fields("a file.txt", &lines).expect("record expected");
    assert_eq!(a.filename, b.filename);
    assert_eq!(a.title, b.title);
    assert_eq!(a.authors, b.authors);
    assert_eq!(a.abstract_text, b.abstract_text);
    assert_eq!(a.introduction, b.introduction);
    assert_eq!(a.body, b.body);
    assert_eq!(a.conclusion, b.conclusion);
    assert_eq!(a.discussion, b.discussion);
    assert_eq!(a.bibliography, b.bibliography);
    let xml_a = render_combined_xml(&vec![a]);
    let xml_b = render_combined_xml(&vec![b]);
    assert_eq!(xml_a, xml_b);
}

#[test]
fn filename_spaces_become_underscores() {
    let lines = twenty_line_document();
    let rec = extract_article_fields("my widget paper.txt", &lines).expect("record expected");
    assert_eq!(rec.filename, "my_widget_paper.txt");
}

#[test]
fn title_not_found_aborts_document() {
    let lines = doc(&["", "someone@example.org", "12/09"]);
    match extract_article_fields("noise.txt", &lines) {
        Err(err) => assert_eq!(err, ExtractError::TitleNotFound),
        Ok(_) => panic!("a record for an all-noise document"),
    }
}

#[test]
fn missing_sections_get_sentinels() {
    let lines = doc(&[
        "A Study Of Widgets",
        "John Smith, University X",
        "Abstract: Widgets are studied here in depth today.",
        "1 Introduction",
        "Widgets deserve close study.",
    ]);
    let rec = extract_article_fields("widgets.txt", &lines).expect("record expected");
    assert_eq!(rec.conclusion, "no conclusion found");
    assert_eq!(rec.discussion, "no discussion found");
    assert_eq!(rec.bibliography, "no bibliography found");
}

fn small_record(name: &str) -> ArticleRecord {
    let lines = doc(&[
        "A Study Of Widgets",
        "John Smith, University X",
        "Abstract: Widgets are studied here in depth today.",
        "1 Introduction",
        "Widgets deserve close study.",
    ]);
    extract_article_fields(name, &lines).expect("record expected")
}

#[test]
fn xml_has_one_article_element_per_record() {
    let records = vec![
        small_record("one.txt"),
        small_record("two.txt"),
        small_record("three.txt"),
        small_record("four.txt"),
        small_record("five.txt"),
    ];
    let xml = render_combined_xml(&records);
    assert!(xml.starts_with("<articles>\n"));
    assert!(xml.ends_with("</articles>\n"));
    assert_eq!(xml.matches("\t<article>\n").count(), 5);
    assert_eq!(xml.matches("\t</article>\n").count(), 5);
    // The records appear in input order.
    let p1 = xml.find("<preamble>one.txt</preamble>").unwrap();
    let p2 = xml.find("<preamble>two.txt</preamble>").unwrap();
    let p3 = xml.find("<preamble>three.txt</preamble>").unwrap();
    let p4 = xml.find("<preamble>four.txt</preamble>").unwrap();
    let p5 = xml.find("<preamble>five.txt</preamble>").unwrap();
    assert!(p1 < p2 && p2 < p3 && p3 < p4 && p4 < p5);
}

#[test]
fn xml_wraps_fields_in_named_elements() {
    let xml = render_combined_xml(&vec![small_record("w.txt")]);
    assert!(xml.contains("<titre>A Study Of Widgets</titre>"));
    assert!(xml.contains("<auteur>John Smith, University X</auteur>"));
    assert!(xml.contains("<abstract>Widgets are studied here in depth today.</abstract>"));
    assert!(xml.contains("<conclusion>no conclusion found</conclusion>"));
    assert!(xml.contains("<biblio>no bibliography found</biblio>"));
}

#[test]
fn txt_summary_reports_lengths_and_time() {
    let rec = small_record("w.txt");
    let expected_len = rec.abstract_text.chars().count()
        + rec.introduction.chars().count()
        + rec.body.chars().count()
        + rec.discussion.chars().count()
        + rec.conclusion.chars().count();
    let txt = render_txt_summaries(&vec![rec], 1234);
    assert!(txt.contains("File         : w.txt"));
    assert!(txt.contains("Title        : A Study Of Widgets"));
    assert!(txt.contains(&format!("Text length  : {} characters", expected_len)));
    assert!(txt.ends_with("Processing finished in 1234 ms\n"));
}

#[test]
fn txt_summary_of_no_records_is_only_the_trailer() {
    let txt = render_txt_summaries(&vec![], 0);
    assert_eq!(txt, "==============================\nProcessing finished in 0 ms\n");
}
