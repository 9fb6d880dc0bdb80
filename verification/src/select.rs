//! Selection of the source and target columns of one line.

use vstd::prelude::*;

use crate::spans::Span;
use crate::spans::get_line_cols;
use crate::spans::lemma_line_spans_wf;
use crate::spans::line_spans;

verus! {

/// Whether the 1-based column indices `sc` and `tc` both address a column of
/// the line `s`. An index of `0` addresses no column under a 1-based scheme
/// and never applies.
pub open spec fn selection_applies(s: Seq<char>, sc: int, tc: int) -> bool {
    &&& 1 <= sc <= line_spans(s).len()
    &&& 1 <= tc <= line_spans(s).len()
}

/// The parts of one line that the highlighting step works on: the source
/// column's text and the target column's span.
pub struct LineParts<'a> {
    pub source_str: &'a str,
    pub target_col: Span,
}

/// Selects the source column's substring and the target column's span from
/// `line`, or returns `None` when either 1-based index addresses no column.
pub fn get_line_parts<'a>(line: &'a String, source_col: usize, target_col: usize) -> (r: Option<
    LineParts<'a>,
>)
    ensures
        r is Some <==> selection_applies(line@, source_col as int, target_col as int),
        r matches Some(p) ==> {
            let spans = line_spans(line@);
            let ss = spans[source_col - 1];
            &&& p.target_col@ == spans[target_col - 1]
            &&& p.source_str@ == line@.subrange(ss.start, ss.end)
        },
{
    let cols = get_line_cols(line);
    if source_col == 0 || target_col == 0 || source_col > cols.len() || target_col > cols.len() {
        return None;
    }
    proof {
        lemma_line_spans_wf(line@);
        assert(cols@.map_values(|sp: Span| sp@)[source_col - 1] == cols@[source_col - 1]@);
        assert(cols@.map_values(|sp: Span| sp@)[target_col - 1] == cols@[target_col - 1]@);
        assert(0 <= line_spans(line@)[source_col - 1].start < line_spans(line@)[source_col
            - 1].end <= line@.len());
    }
    let ss = cols[source_col - 1];
    let source_str = line.as_str().substring_char(ss.start, ss.end);
    Some(LineParts { source_str, target_col: cols[target_col - 1] })
}

} // verus!
