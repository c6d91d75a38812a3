//! Segments plain-text renderings of scientific articles into their logical
//! sections: title, authors, abstract, introduction, body, conclusion,
//! discussion and bibliography.
//!
//! A document is an ordered sequence of text lines. Each extractor scans the
//! line sequence from a lower bound produced by the previous stage and returns
//! the extracted text together with the position at which the next stage
//! should resume. All heuristics are stated as spec-level rules over
//! `Seq<char>`, and every extractor is proved to return exactly what its rule
//! table prescribes.

pub mod abstracts;
pub mod authors;
pub mod body;
pub mod columns;
pub mod intro;
pub mod norm;
pub mod patterns;
pub mod pipeline;
pub mod report;
pub mod rules;
pub mod scan;
pub mod summary;
pub mod tail;
pub mod text;
pub mod title;
