//! Output rendering.
//!
//! Builds the two output documents as strings: one XML document with an
//! `<article>` element per record, and one flat text summary with labeled
//! fields per record and a trailing line giving the total processing time.
//! Reserved markup characters in the extracted text are not escaped;
//! consumers must tolerate or pre-sanitize them.

use vstd::prelude::*;

use crate::pipeline::{ArticleFields, ArticleRecord};
use crate::text::{chars_to_string, dec_chars, push_all, render_dec, str_chars};

verus! {

/// The XML element rendered for one record.
pub open spec fn xml_of_article(a: ArticleFields) -> Seq<char> {
    "\t<article>\n\t\t<preamble>"@ + a.filename + "</preamble>\n\t\t<titre>"@ + a.title
        + "</titre>\n\t\t<auteur>"@ + a.authors + "</auteur>\n\t\t<abstract>"@ + a.abstract_text
        + "</abstract>\n\t\t<introduction>"@ + a.introduction + "</introduction>\n\t\t<corps>"@
        + a.body + "</corps>\n\t\t<conclusion>"@ + a.conclusion
        + "</conclusion>\n\t\t<discussion>"@ + a.discussion + "</discussion>\n\t\t<biblio>"@
        + a.bibliography + "</biblio>\n\t</article>\n"@
}

/// The XML elements of the records, in order.
pub open spec fn xml_items(arts: Seq<ArticleFields>) -> Seq<char>
    decreases arts.len(),
{
    if arts.len() == 0 {
        Seq::empty()
    } else {
        xml_items(arts.drop_last()) + xml_of_article(arts.last())
    }
}

/// The whole XML document.
pub open spec fn spec_render_xml(arts: Seq<ArticleFields>) -> Seq<char> {
    "<articles>\n"@ + xml_items(arts) + "</articles>\n"@
}

/// Appends a string field to the output buffer.
fn push_field(out: &mut Vec<char>, s: &String)
    ensures
        final(out)@ == old(out)@ + s@,
{
    let v = str_chars(s.as_str());
    push_all(out, &v);
}

/// Appends a literal to the output buffer.
fn push_lit(out: &mut Vec<char>, s: &str)
    ensures
        final(out)@ == old(out)@ + s@,
{
    let v = str_chars(s);
    push_all(out, &v);
}

/// Appends one record's XML element to the output buffer.
fn push_xml_article(out: &mut Vec<char>, a: &ArticleRecord)
    ensures
        final(out)@ == old(out)@ + xml_of_article(a@),
{
    push_lit(out, "\t<article>\n\t\t<preamble>");
    push_field(out, &a.filename);
    push_lit(out, "</preamble>\n\t\t<titre>");
    push_field(out, &a.title);
    push_lit(out, "</titre>\n\t\t<auteur>");
    push_field(out, &a.authors);
    push_lit(out, "</auteur>\n\t\t<abstract>");
    push_field(out, &a.abstract_text);
    push_lit(out, "</abstract>\n\t\t<introduction>");
    push_field(out, &a.introduction);
    push_lit(out, "</introduction>\n\t\t<corps>");
    push_field(out, &a.body);
    push_lit(out, "</corps>\n\t\t<conclusion>");
    push_field(out, &a.conclusion);
    push_lit(out, "</conclusion>\n\t\t<discussion>");
    push_field(out, &a.discussion);
    push_lit(out, "</discussion>\n\t\t<biblio>");
    push_field(out, &a.bibliography);
    push_lit(out, "</biblio>\n\t</article>\n");
    proof {
        assert(out@ =~= old(out)@ + xml_of_article(a@));
    }
}

/// Renders the combined XML document for the records, one `<article>` element
/// per record, in order.
pub fn render_combined_xml(articles: &Vec<ArticleRecord>) -> (r: String)
    ensures
        r@ == spec_render_xml(articles@.map_values(|a: ArticleRecord| a@)),
{
    let ghost va = articles@.map_values(|a: ArticleRecord| a@);
    let mut out: Vec<char> = Vec::new();
    push_lit(&mut out, "<articles>\n");
    let n = articles.len();
    let mut i: usize = 0;
    proof {
        assert(va.subrange(0, 0) =~= Seq::<ArticleFields>::empty());
        assert(out@ =~= Seq::empty() + "<articles>\n"@);
        assert(out@ =~= "<articles>\n"@ + xml_items(va.subrange(0, 0)));
    }
    while i < n
        invariant
            0 <= i <= n,
            n == articles@.len(),
            va == articles@.map_values(|a: ArticleRecord| a@),
            va.len() == n,
            out@ == "<articles>\n"@ + xml_items(va.subrange(0, i as int)),
        decreases n - i,
    {
        push_xml_article(&mut out, &articles[i]);
        proof {
            let pre = va.subrange(0, i + 1 as int);
            assert(pre.drop_last() =~= va.subrange(0, i as int));
            assert(pre.last() == va[i as int]);
            assert(va[i as int] == articles@[i as int]@);
            assert(out@ =~= "<articles>\n"@ + xml_items(pre));
        }
        i += 1;
    }
    push_lit(&mut out, "</articles>\n");
    proof {
        assert(va.subrange(0, n as int) =~= va);
    }
    chars_to_string(&out)
}

/// The total number of extracted characters reported for one record: the
/// abstract, introduction, body, discussion and conclusion together.
pub open spec fn extracted_len(a: ArticleFields) -> int {
    a.abstract_text.len() + a.introduction.len() + a.body.len() + a.discussion.len()
        + a.conclusion.len() as int
}

/// The text block rendered for one record.
pub open spec fn txt_of_article(a: ArticleFields) -> Seq<char> {
    "==============================\nFile         : "@ + a.filename + "\nTitle        : "@
        + a.title + "\nAuthors      : "@ + a.authors + "\nAbstract     : "@ + a.abstract_text
        + "\nIntroduction : "@ + a.introduction + "\nBody         : "@ + a.body
        + "\nDiscussion   : "@ + a.discussion + "\nConclusion   : "@ + a.conclusion
        + "\nReferences   : "@ + a.bibliography + "\nText length  : "@ + dec_chars(
        extracted_len(a),
    ) + " characters\n\n"@
}

/// The text blocks of the records, in order.
pub open spec fn txt_items(arts: Seq<ArticleFields>) -> Seq<char>
    decreases arts.len(),
{
    if arts.len() == 0 {
        Seq::empty()
    } else {
        txt_items(arts.drop_last()) + txt_of_article(arts.last())
    }
}

/// The whole text summary, closed by the total processing time.
pub open spec fn spec_render_txt(arts: Seq<ArticleFields>, elapsed_ms: int) -> Seq<char> {
    txt_items(arts) + "==============================\nProcessing finished in "@ + dec_chars(
        elapsed_ms,
    ) + " ms\n"@
}

/// Appends one record's text block to the output buffer.
fn push_txt_article(out: &mut Vec<char>, a: &ArticleRecord)
    ensures
        final(out)@ == old(out)@ + txt_of_article(a@),
{
    push_lit(out, "==============================\nFile         : ");
    push_field(out, &a.filename);
    push_lit(out, "\nTitle        : ");
    push_field(out, &a.title);
    push_lit(out, "\nAuthors      : ");
    push_field(out, &a.authors);
    push_lit(out, "\nAbstract     : ");
    push_field(out, &a.abstract_text);
    push_lit(out, "\nIntroduction : ");
    push_field(out, &a.introduction);
    push_lit(out, "\nBody         : ");
    push_field(out, &a.body);
    push_lit(out, "\nDiscussion   : ");
    push_field(out, &a.discussion);
    push_lit(out, "\nConclusion   : ");
    push_field(out, &a.conclusion);
    push_lit(out, "\nReferences   : ");
    push_field(out, &a.bibliography);
    push_lit(out, "\nText length  : ");
    let la = a.abstract_text.as_str().unicode_len();
    let li = a.introduction.as_str().unicode_len();
    let lb = a.body.as_str().unicode_len();
    let ld = a.discussion.as_str().unicode_len();
    let lc = a.conclusion.as_str().unicode_len();
    let total: u128 = (la as u128) + (li as u128) + (lb as u128) + (ld as u128) + (lc as u128);
    proof {
        assert(total as int == extracted_len(a@));
    }
    let num = render_dec(total);
    push_all(out, &num);
    push_lit(out, " characters\n\n");
    proof {
        assert(out@ =~= old(out)@ + txt_of_article(a@));
    }
}

/// Renders the flat text summary for the records, one labeled block per
/// record, closed by the total processing time in milliseconds.
pub fn render_txt_summaries(articles: &Vec<ArticleRecord>, duration_total_ms: u128) -> (r: String)
    ensures
        r@ == spec_render_txt(
            articles@.map_values(|a: ArticleRecord| a@),
            duration_total_ms as int,
        ),
{
    let ghost va = articles@.map_values(|a: ArticleRecord| a@);
    let mut out: Vec<char> = Vec::new();
    let n = articles.len();
    let mut i: usize = 0;
    proof {
        assert(va.subrange(0, 0) =~= Seq::<ArticleFields>::empty());
        assert(out@ =~= txt_items(va.subrange(0, 0)));
    }
    while i < n
        invariant
            0 <= i <= n,
            n == articles@.len(),
            va == articles@.map_values(|a: ArticleRecord| a@),
            va.len() == n,
            out@ == txt_items(va.subrange(0, i as int)),
        decreases n - i,
    {
        push_txt_article(&mut out, &articles[i]);
        proof {
            let pre = va.subrange(0, i + 1 as int);
            assert(pre.drop_last() =~= va.subrange(0, i as int));
            assert(pre.last() == va[i as int]);
            assert(va[i as int] == articles@[i as int]@);
            assert(out@ =~= txt_items(pre));
        }
        i += 1;
    }
    push_lit(&mut out, "==============================\nProcessing finished in ");
    let num = render_dec(duration_total_ms);
    push_all(&mut out, &num);
    push_lit(&mut out, " ms\n");
    proof {
        assert(va.subrange(0, n as int) =~= va);
        assert(out@ =~= spec_render_txt(va, duration_total_ms as int));
    }
    chars_to_string(&out)
}

} // verus!
