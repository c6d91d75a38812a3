//! Forward scans over a document's line sequence.
//!
//! Every extractor advances through the lines looking for the first line that
//! satisfies some rule, or the first line at which a cumulative character
//! offset is reached. Both scans are stated here once.

use vstd::prelude::*;

use crate::text::cum_len;

verus! {

/// The index of the first line at or after `from` satisfying `p`; the number
/// of lines when none does.
pub open spec fn first_match(d: Seq<Seq<char>>, from: int, p: spec_fn(Seq<char>) -> bool) -> int
    decreases d.len() - from
        when 0 <= from <= d.len()
{
    if from >= d.len() {
        d.len() as int
    } else if p(d[from]) {
        from
    } else {
        first_match(d, from + 1, p)
    }
}

/// What `first_match` returns: the first index at or after `from` whose line
/// satisfies `p`, with no earlier match.
pub proof fn lemma_first_match(d: Seq<Seq<char>>, from: int, p: spec_fn(Seq<char>) -> bool)
    requires
        0 <= from <= d.len(),
    ensures
        from <= first_match(d, from, p) <= d.len(),
        forall|j: int| from <= j < first_match(d, from, p) ==> !p(#[trigger] d[j]),
        first_match(d, from, p) < d.len() ==> p(d[first_match(d, from, p)]),
    decreases d.len() - from,
{
    if from < d.len() && !p(d[from]) {
        lemma_first_match(d, from + 1, p);
    }
}

/// One step of a first-match scan: a non-matching line moves the scan on.
pub proof fn lemma_first_match_step(d: Seq<Seq<char>>, i: int, p: spec_fn(Seq<char>) -> bool)
    requires
        0 <= i < d.len(),
        !p(d[i]),
    ensures
        first_match(d, i, p) == first_match(d, i + 1, p),
{
}

/// The index of the first line at or after `from` at which the cumulative
/// offset (through that line) reaches `bound`; the number of lines when none
/// does.
pub open spec fn first_reach(d: Seq<Seq<char>>, from: int, bound: int, extra: int) -> int
    decreases d.len() - from
        when 0 <= from <= d.len()
{
    if from >= d.len() {
        d.len() as int
    } else if cum_len(d, from + 1, extra) >= bound {
        from
    } else {
        first_reach(d, from + 1, bound, extra)
    }
}

/// What `first_reach` returns: the first index whose cumulative offset meets
/// the bound, with no earlier index doing so.
pub proof fn lemma_first_reach(d: Seq<Seq<char>>, from: int, bound: int, extra: int)
    requires
        0 <= from <= d.len(),
    ensures
        from <= first_reach(d, from, bound, extra) <= d.len(),
        forall|j: int|
            from <= j < first_reach(d, from, bound, extra) ==> #[trigger] cum_len(d, j + 1, extra)
                < bound,
        first_reach(d, from, bound, extra) < d.len() ==> cum_len(
            d,
            first_reach(d, from, bound, extra) + 1,
            extra,
        ) >= bound,
    decreases d.len() - from,
{
    if from < d.len() && cum_len(d, from + 1, extra) < bound {
        lemma_first_reach(d, from + 1, bound, extra);
    }
}

} // verus!
