//! Per-line driver: rewrites one line so that the target column's suffix
//! differing from the source column is marked for highlighted rendering.

use vstd::prelude::*;

use crate::prefix::common_prefix_len;
use crate::prefix::lemma_common_prefix_len_self;
use crate::render::diff_color;
use crate::render::diff_colored_ok;
use crate::render::diff_colored_plain_ok;
use crate::select::get_line_parts;
use crate::select::selection_applies;
use crate::spans::SpanModel;
use crate::spans::lemma_line_spans_wf;
use crate::spans::line_spans;

verus! {

/// The line `line` with the characters of the span `st` replaced by `mid`.
pub open spec fn replaced_at(line: Seq<char>, st: SpanModel, mid: Seq<char>) -> Seq<char> {
    line.subrange(0, st.start) + mid + line.subrange(st.end, line.len() as int)
}

/// Whether `out` is a valid output for the input line `line` under the
/// 1-based column indices `sc` and `tc`: the line unchanged when selection
/// does not apply, and otherwise the line with the target column replaced by
/// a valid rendering of its diff against the source column.
pub open spec fn line_output_ok(line: Seq<char>, sc: int, tc: int, out: Seq<char>) -> bool {
    if !selection_applies(line, sc, tc) {
        out == line
    } else {
        let spans = line_spans(line);
        let ss = spans[sc - 1];
        let st = spans[tc - 1];
        let src = line.subrange(ss.start, ss.end);
        let tgt = line.subrange(st.start, st.end);
        exists|mid: Seq<char>| #[trigger] diff_colored_ok(src, tgt, mid) && out == replaced_at(
            line,
            st,
            mid,
        )
    }
}

/// As `line_output_ok`, for a line without escape characters: the marked
/// part of the target column is then exactly its suffix after the common
/// prefix with the source column.
pub open spec fn line_output_plain_ok(line: Seq<char>, sc: int, tc: int, out: Seq<char>) -> bool {
    if !selection_applies(line, sc, tc) {
        out == line
    } else {
        let spans = line_spans(line);
        let ss = spans[sc - 1];
        let st = spans[tc - 1];
        let src = line.subrange(ss.start, ss.end);
        let tgt = line.subrange(st.start, st.end);
        exists|mid: Seq<char>|
            #[trigger] diff_colored_plain_ok(src, tgt, mid) && out == replaced_at(line, st, mid)
    }
}

/// Processes one line end-to-end: when both column indices address a column,
/// the target column is replaced by the rendering of its diff against the
/// source column; otherwise the line is returned unchanged.
pub fn process_line(line: &String, source_col: usize, target_col: usize) -> (r: String)
    ensures
        line_output_ok(line@, source_col as int, target_col as int, r@),
        !selection_applies(line@, source_col as int, target_col as int) ==> r@ == line@,
        !line@.contains('\u{001B}') ==> line_output_plain_ok(
            line@,
            source_col as int,
            target_col as int,
            r@,
        ),
{
    let parts = get_line_parts(line, source_col, target_col);
    match parts {
        None => line.clone(),
        Some(p) => {
            let ghost spans = line_spans(line@);
            let ghost st = spans[target_col - 1];
            let ghost src = line@.subrange(
                spans[source_col - 1].start,
                spans[source_col - 1].end,
            );
            let ghost tgt = line@.subrange(st.start, st.end);
            proof {
                lemma_line_spans_wf(line@);
                assert(0 <= st.start < st.end <= line@.len());
            }
            let sp = p.target_col;
            let target_str = line.as_str().substring_char(sp.start, sp.end);
            let marked = diff_color(p.source_str, target_str);
            let mut r = line.as_str().substring_char(0, sp.start).to_owned();
            r.append(marked.as_str());
            let tail = line.as_str().substring_char(sp.end, line.as_str().unicode_len());
            r.append(tail);
            proof {
                assert(r@ =~= replaced_at(line@, st, marked@));
                assert(diff_colored_ok(src, tgt, marked@));
                if !line@.contains('\u{001B}') {
                    if tgt.contains('\u{001B}') {
                        let k: int = choose|k: int| 0 <= k < tgt.len() && tgt[k] == '\u{001B}';
                        assert(line@[st.start + k] == '\u{001B}');
                    }
                    assert(diff_colored_plain_ok(src, tgt, marked@));
                }
            }
            r
        },
    }
}

/// Law: a line for which column selection fails is echoed unchanged, and
/// running the driver again on that output changes nothing either.
pub proof fn lemma_echo_idempotent(
    line: Seq<char>,
    sc: int,
    tc: int,
    out: Seq<char>,
    out2: Seq<char>,
)
    requires
        !selection_applies(line, sc, tc),
        line_output_ok(line, sc, tc, out),
        line_output_ok(out, sc, tc, out2),
    ensures
        out == line,
        out2 == line,
{
}

/// Law: when source and target select the same column, the differing suffix
/// is empty, so the whole target column is left unmarked.
pub proof fn lemma_equal_columns_suffix_empty(line: Seq<char>, c: int)
    requires
        selection_applies(line, c, c),
    ensures
        ({
            let st = line_spans(line)[c - 1];
            let tgt = line.subrange(st.start, st.end);
            &&& common_prefix_len(tgt, tgt) == tgt.len()
            &&& tgt.subrange(common_prefix_len(tgt, tgt) as int, tgt.len() as int) == Seq::<
                char,
            >::empty()
            &&& replaced_at(line, st, tgt) == line
        }),
{
    let st = line_spans(line)[c - 1];
    let tgt = line.subrange(st.start, st.end);
    lemma_common_prefix_len_self(tgt);
    lemma_line_spans_wf(line);
    assert(tgt.subrange(tgt.len() as int, tgt.len() as int) =~= Seq::<char>::empty());
    assert(replaced_at(line, st, tgt) =~= line);
}

} // verus!
