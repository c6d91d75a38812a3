//! The pipeline orchestrator.
//!
//! Threads each stage's end position into the next stage, assembles the final
//! record, and substitutes sentinel placeholders for sections that were not
//! found, so that a missing section is explicit rather than an ambiguous
//! empty string. The only failure is a document without a title: such a
//! document yields no record.

use vstd::prelude::*;

use crate::abstracts::{extract_abstract, spec_extract_abstract};
use crate::authors::{extract_authors, spec_extract_authors};
use crate::body::{extract_body, spec_extract_body};
use crate::intro::{extract_introduction, spec_extract_introduction};
use crate::tail::{
    biblio_sentinel, extract_bibliography, extract_conclusion, extract_discussion,
    spec_extract_bibliography, spec_extract_conclusion, spec_extract_discussion,
};
use crate::title::{extract_title, spec_extract_title};
use crate::text::{chars_to_string, cum_len, str_chars};

verus! {

/// The aggregate output for one document.
pub struct ArticleRecord {
    pub filename: String,
    pub title: String,
    pub authors: String,
    pub abstract_text: String,
    pub introduction: String,
    pub body: String,
    pub conclusion: String,
    pub discussion: String,
    pub bibliography: String,
}

/// The mathematical model of a record: each field as a character sequence.
pub struct ArticleFields {
    pub filename: Seq<char>,
    pub title: Seq<char>,
    pub authors: Seq<char>,
    pub abstract_text: Seq<char>,
    pub introduction: Seq<char>,
    pub body: Seq<char>,
    pub conclusion: Seq<char>,
    pub discussion: Seq<char>,
    pub bibliography: Seq<char>,
}

impl View for ArticleRecord {
    type V = ArticleFields;

    open spec fn view(&self) -> ArticleFields {
        ArticleFields {
            filename: self.filename@,
            title: self.title@,
            authors: self.authors@,
            abstract_text: self.abstract_text@,
            introduction: self.introduction@,
            body: self.body@,
            conclusion: self.conclusion@,
            discussion: self.discussion@,
            bibliography: self.bibliography@,
        }
    }
}

/// The reason a document yields no record.
#[derive(Clone, Copy, Debug, PartialEq, Eq, Structural)]
pub enum ExtractError {
    TitleNotFound,
}

/// The placeholder reported for a document without a conclusion heading.
pub open spec fn conclusion_sentinel() -> Seq<char> {
    "no conclusion found"@
}

/// The placeholder reported for a document without a discussion heading.
pub open spec fn discussion_sentinel() -> Seq<char> {
    "no discussion found"@
}

/// The filename with spaces replaced by underscores.
pub open spec fn underscored(f: Seq<char>) -> Seq<char> {
    f.map_values(|c: char| if c == ' ' { '_' } else { c })
}

/// The record the pipeline assembles for a document, or nothing when the
/// title stage fails.
pub open spec fn spec_extract_article(filename: Seq<char>, d: Seq<Seq<char>>) -> Option<
    ArticleFields,
> {
    match spec_extract_title(d) {
        None => None,
        Some((title, tend)) => {
            let authors = spec_extract_authors(d, tend);
            let abs = spec_extract_abstract(d);
            let intro = spec_extract_introduction(d, abs);
            let intro_off = cum_len(d, intro.1, 1);
            let body = spec_extract_body(d, intro_off);
            let conc = spec_extract_conclusion(d, body.1);
            let disc = spec_extract_discussion(d, body.1);
            let biblio = spec_extract_bibliography(d);
            Some(
                ArticleFields {
                    filename: underscored(filename),
                    title: title,
                    authors: authors,
                    abstract_text: abs,
                    introduction: intro.0,
                    body: body.0,
                    conclusion: if conc.0.len() == 0 {
                        conclusion_sentinel()
                    } else {
                        conc.0
                    },
                    discussion: if disc.0.len() == 0 {
                        discussion_sentinel()
                    } else {
                        disc.0
                    },
                    bibliography: biblio,
                },
            )
        },
    }
}

/// Replaces spaces in a filename by underscores.
pub fn underscore_filename(filename: &str) -> (r: String)
    ensures
        r@ == underscored(filename@),
{
    let v = str_chars(filename);
    let n = v.len();
    let mut out: Vec<char> = Vec::new();
    let mut i: usize = 0;
    while i < n
        invariant
            0 <= i <= n,
            n == v@.len(),
            v@ == filename@,
            out@ == v@.subrange(0, i as int).map_values(
                |c: char|
                    if c == ' ' {
                        '_'
                    } else {
                        c
                    },
            ),
        decreases n - i,
    {
        let c = v[i];
        if c == ' ' {
            out.push('_');
        } else {
            out.push(c);
        }
        proof {
            assert(out@ =~= v@.subrange(0, i + 1 as int).map_values(
                |c: char|
                    if c == ' ' {
                        '_'
                    } else {
                        c
                    },
            ));
        }
        i += 1;
    }
    proof {
        assert(v@.subrange(0, n as int) =~= v@);
    }
    chars_to_string(&out)
}

/// Runs the whole pipeline on one document: title, authors, abstract,
/// introduction, body, conclusion, discussion and bibliography, each stage
/// resuming where the previous one ended. Fails exactly when the title stage
/// finds no candidate line.
pub fn extract_article_fields(filename: &str, lines: &Vec<String>) -> (r: Result<
    ArticleRecord,
    ExtractError,
>)
    ensures
        (r is Ok) == (spec_extract_article(filename@, lines.deep_view()) is Some),
        r matches Ok(rec) ==> spec_extract_article(filename@, lines.deep_view()) matches Some(v)
            && rec@ == v,
        r matches Err(e) ==> e == ExtractError::TitleNotFound && spec_extract_title(
            lines.deep_view(),
        ) is None,
{
    let title_found = extract_title(lines);
    match title_found {
        None => Err(ExtractError::TitleNotFound),
        Some((title, tend)) => {
            let authors = extract_authors(lines, tend);
            let abs = extract_abstract(lines);
            let (introduction, intro_off) = extract_introduction(lines, abs.as_str());
            let (body, body_end) = extract_body(lines, intro_off);
            let (conc, _) = extract_conclusion(lines, body_end);
            let (disc, _) = extract_discussion(lines, body_end);
            let bibliography = extract_bibliography(lines);
            let conclusion = if conc.as_str().unicode_len() == 0 {
                let s = str_chars("no conclusion found");
                chars_to_string(&s)
            } else {
                conc
            };
            let discussion = if disc.as_str().unicode_len() == 0 {
                let s = str_chars("no discussion found");
                chars_to_string(&s)
            } else {
                disc
            };
            let rec = ArticleRecord {
                filename: underscore_filename(filename),
                title,
                authors,
                abstract_text: abs,
                introduction,
                body,
                conclusion,
                discussion,
                bibliography,
            };
            Ok(rec)
        },
    }
}

/// A document with no conclusion heading, no discussion heading and no
/// references heading is reported with placeholders: both tail extractors
/// return empty text and a zero offset, and the assembled record substitutes
/// the conclusion and discussion sentinels, while the bibliography carries
/// its own distinct sentinel.
pub proof fn lemma_missing_sections_get_sentinels(
    filename: Seq<char>,
    d: Seq<Seq<char>>,
    bound: int,
)
    requires
        forall|i: int|
            0 <= i < d.len() ==> !crate::rules::is_conclusion_start(#[trigger] d[i]),
        forall|i: int|
            0 <= i < d.len() ==> !crate::rules::is_discussion_start(#[trigger] d[i]),
        forall|i: int| 0 <= i < d.len() ==> !crate::rules::is_biblio_header(#[trigger] d[i]),
    ensures
        spec_extract_conclusion(d, bound) == (Seq::<char>::empty(), 0int),
        spec_extract_discussion(d, bound) == (Seq::<char>::empty(), 0int),
        spec_extract_bibliography(d) == biblio_sentinel(),
        spec_extract_article(filename, d) matches Some(v) ==> v.conclusion
            == conclusion_sentinel() && v.discussion == discussion_sentinel() && v.bibliography
            == biblio_sentinel(),
{
    lemma_tails_missing(d, bound);
    if spec_extract_title(d) is Some {
        let tend = spec_extract_title(d)->Some_0.1;
        let abs = spec_extract_abstract(d);
        let intro = spec_extract_introduction(d, abs);
        let intro_off = cum_len(d, intro.1, 1);
        let body = spec_extract_body(d, intro_off);
        lemma_tails_missing(d, body.1);
    }
}

/// Both tail extractors on a document without their start headings, and the
/// bibliography without a references heading.
proof fn lemma_tails_missing(d: Seq<Seq<char>>, bound: int)
    requires
        forall|i: int|
            0 <= i < d.len() ==> !crate::rules::is_conclusion_start(#[trigger] d[i]),
        forall|i: int|
            0 <= i < d.len() ==> !crate::rules::is_discussion_start(#[trigger] d[i]),
        forall|i: int| 0 <= i < d.len() ==> !crate::rules::is_biblio_header(#[trigger] d[i]),
    ensures
        spec_extract_conclusion(d, bound) == (Seq::<char>::empty(), 0int),
        spec_extract_discussion(d, bound) == (Seq::<char>::empty(), 0int),
        spec_extract_bibliography(d) == biblio_sentinel(),
{
    let csp = crate::tail::conclusion_start_p();
    assert forall|i: int| 0 <= i < d.len() implies !#[trigger] csp(d[i]) by {
        assert(!crate::rules::is_conclusion_start(d[i]));
    }
    crate::tail::lemma_section_missing(d, bound, csp, crate::tail::conclusion_end_p());
    let dsp = crate::tail::discussion_start_p();
    assert forall|i: int| 0 <= i < d.len() implies !#[trigger] dsp(d[i]) by {
        assert(!crate::rules::is_discussion_start(d[i]));
    }
    crate::tail::lemma_section_missing(d, bound, dsp, crate::tail::discussion_end_p());
    let bp = crate::tail::biblio_p();
    crate::scan::lemma_first_match(d, 0, bp);
    let i = crate::scan::first_match(d, 0, bp);
    if i < d.len() {
        assert(bp(d[i]));
        assert(false);
    }
}

/// The pipeline is deterministic: the record is a function of the filename
/// and the line sequence alone, so two runs on identical input agree. Every
/// run of `extract_article_fields` returns exactly
/// `spec_extract_article(filename, lines)`, of which this is a restatement.
pub proof fn lemma_pipeline_deterministic(
    filename: Seq<char>,
    d: Seq<Seq<char>>,
    r1: Option<ArticleFields>,
    r2: Option<ArticleFields>,
)
    requires
        r1 == spec_extract_article(filename, d),
        r2 == spec_extract_article(filename, d),
    ensures
        r1 == r2,
{
}

} // verus!
