//! Tokenization of a line into whitespace-delimited column spans.
//!
//! A column is a maximal run of non-whitespace characters; its span is the
//! half-open range of character positions `[start, end)` that it occupies.

use vstd::prelude::*;

verus! {

/// A half-open range `[start, end)` of character positions within one line,
/// covering one whitespace-delimited column.
#[derive(Clone, Copy, PartialEq, Eq, Structural, Debug)]
pub struct Span {
    pub start: usize,
    pub end: usize,
}

/// The mathematical model of a `Span`: the same range over unbounded integers.
pub struct SpanModel {
    pub start: int,
    pub end: int,
}

impl View for Span {
    type V = SpanModel;

    open spec fn view(&self) -> SpanModel {
        SpanModel { start: self.start as int, end: self.end as int }
    }
}

/// Whitespace for the purpose of column separation: ASCII whitespace only.
pub open spec fn is_ws(c: char) -> bool {
    c == ' ' || c == '\t' || c == '\n' || c == '\r' || c == '\u{000C}'
}

/// Decides `is_ws`: whether `c` is an ASCII whitespace character.
pub fn is_ascii_ws(c: char) -> (r: bool)
    ensures
        r == is_ws(c),
{
    c == ' ' || c == '\t' || c == '\n' || c == '\r' || c == '\u{000C}'
}

/// The position at which the token starting inside position `i` ends: the
/// first position at or after `i` holding whitespace, or the end of the line.
pub open spec fn token_end(s: Seq<char>, i: int) -> int
    decreases s.len() - i when 0 <= i <= s.len()
{
    if i >= s.len() || is_ws(s[i]) {
        i
    } else {
        token_end(s, i + 1)
    }
}

/// The spans of all columns that start at or after position `i`, assuming
/// position `i` does not fall strictly inside a column.
pub open spec fn spans_from(s: Seq<char>, i: int) -> Seq<SpanModel>
    decreases s.len() - i when 0 <= i <= s.len() via spans_from_decreases
{
    if i >= s.len() {
        Seq::empty()
    } else if is_ws(s[i]) {
        spans_from(s, i + 1)
    } else {
        seq![SpanModel { start: i, end: token_end(s, i) }] + spans_from(s, token_end(s, i))
    }
}

#[via_fn]
proof fn spans_from_decreases(s: Seq<char>, i: int) {
    if 0 <= i < s.len() && !is_ws(s[i]) {
        lemma_token_end_bounds(s, i);
    }
}

/// The ordered sequence of column spans of one line.
pub open spec fn line_spans(s: Seq<char>) -> Seq<SpanModel> {
    spans_from(s, 0)
}

/// `token_end` stays within the line, moves strictly forward from a
/// non-whitespace position, and marks the first whitespace at or after `i`.
proof fn lemma_token_end_bounds(s: Seq<char>, i: int)
    requires
        0 <= i <= s.len(),
    ensures
        i <= token_end(s, i) <= s.len(),
        i < s.len() && !is_ws(s[i]) ==> token_end(s, i) > i,
        forall|k: int| i <= k < token_end(s, i) ==> !is_ws(s[k]),
        token_end(s, i) < s.len() ==> is_ws(s[token_end(s, i)]),
    decreases s.len() - i,
{
    if i < s.len() && !is_ws(s[i]) {
        lemma_token_end_bounds(s, i + 1);
    }
}

/// Every span produced for positions at or after `i` is non-empty, lies
/// within the line, and the spans appear in order without overlapping.
proof fn lemma_spans_from_wf(s: Seq<char>, i: int)
    requires
        0 <= i <= s.len(),
    ensures
        forall|k: int|
            0 <= k < spans_from(s, i).len() ==> i <= #[trigger] spans_from(s, i)[k].start
                < spans_from(s, i)[k].end <= s.len(),
        forall|k: int|
            0 <= k < spans_from(s, i).len() - 1 ==> #[trigger] spans_from(s, i)[k].end
                <= spans_from(s, i)[k + 1].start,
    decreases s.len() - i,
{
    if i >= s.len() {
    } else if is_ws(s[i]) {
        lemma_spans_from_wf(s, i + 1);
        assert(spans_from(s, i) == spans_from(s, i + 1));
        assert forall|k: int| 0 <= k < spans_from(s, i).len() implies i <= #[trigger] spans_from(
            s,
            i,
        )[k].start < spans_from(s, i)[k].end <= s.len() by {
            assert(spans_from(s, i)[k] == spans_from(s, i + 1)[k]);
        }
        assert forall|k: int| 0 <= k < spans_from(s, i).len() - 1 implies #[trigger] spans_from(
            s,
            i,
        )[k].end <= spans_from(s, i)[k + 1].start by {
            assert(spans_from(s, i)[k] == spans_from(s, i + 1)[k]);
            assert(spans_from(s, i)[k + 1] == spans_from(s, i + 1)[k + 1]);
        }
    } else {
        lemma_token_end_bounds(s, i);
        let e = token_end(s, i);
        lemma_spans_from_wf(s, e);
        let head = seq![SpanModel { start: i, end: e }];
        let rest = spans_from(s, e);
        assert(spans_from(s, i) == head + rest);
        assert forall|k: int| 0 <= k < spans_from(s, i).len() implies i <= #[trigger] spans_from(
            s,
            i,
        )[k].start < spans_from(s, i)[k].end <= s.len() by {
            if k > 0 {
                assert(spans_from(s, i)[k] == rest[k - 1]);
            }
        }
        assert forall|k: int| 0 <= k < spans_from(s, i).len() - 1 implies #[trigger] spans_from(
            s,
            i,
        )[k].end <= spans_from(s, i)[k + 1].start by {
            if k == 0 {
                assert(spans_from(s, i)[1] == rest[0]);
            } else {
                assert(spans_from(s, i)[k] == rest[k - 1]);
                assert(spans_from(s, i)[k + 1] == rest[k]);
            }
        }
    }
}

/// Every column span of a line is non-empty, lies within the line, and the
/// spans appear in left-to-right order without overlapping.
pub proof fn lemma_line_spans_wf(s: Seq<char>)
    ensures
        forall|k: int|
            0 <= k < line_spans(s).len() ==> 0 <= #[trigger] line_spans(s)[k].start
                < line_spans(s)[k].end <= s.len(),
        forall|k: int|
            0 <= k < line_spans(s).len() - 1 ==> #[trigger] line_spans(s)[k].end <= line_spans(
                s,
            )[k + 1].start,
{
    lemma_spans_from_wf(s, 0);
}

/// Whether position `p` falls inside one of the given spans.
pub open spec fn in_some_span(spans: Seq<SpanModel>, p: int) -> bool {
    exists|k: int| 0 <= k < spans.len() && (#[trigger] spans[k]).start <= p < spans[k].end
}

proof fn lemma_spans_from_exact(s: Seq<char>, i: int)
    requires
        0 <= i <= s.len(),
    ensures
        forall|p: int|
            i <= p < s.len() ==> (#[trigger] in_some_span(spans_from(s, i), p) <==> !is_ws(s[p])),
    decreases s.len() - i,
{
    if i >= s.len() {
    } else if is_ws(s[i]) {
        lemma_spans_from_exact(s, i + 1);
        lemma_spans_from_wf(s, i + 1);
        assert(spans_from(s, i) == spans_from(s, i + 1));
        assert(!in_some_span(spans_from(s, i), i));
    } else {
        lemma_token_end_bounds(s, i);
        let e = token_end(s, i);
        lemma_spans_from_exact(s, e);
        let head = seq![SpanModel { start: i, end: e }];
        let rest = spans_from(s, e);
        let whole = spans_from(s, i);
        assert(whole == head + rest);
        assert forall|p: int| i <= p < s.len() implies (#[trigger] in_some_span(whole, p)
            <==> !is_ws(s[p])) by {
            if p < e {
                assert(whole[0].start <= p < whole[0].end);
                assert(in_some_span(whole, p));
            } else {
                if in_some_span(rest, p) {
                    let k: int = choose|k: int|
                        0 <= k < rest.len() && (#[trigger] rest[k]).start <= p < rest[k].end;
                    assert(whole[k + 1] == rest[k]);
                    assert(in_some_span(whole, p));
                }
                if in_some_span(whole, p) {
                    let k: int = choose|k: int|
                        0 <= k < whole.len() && (#[trigger] whole[k]).start <= p < whole[k].end;
                    assert(k > 0);
                    assert(whole[k] == rest[k - 1]);
                    assert(in_some_span(rest, p));
                }
                assert(in_some_span(whole, p) <==> in_some_span(rest, p));
            }
        }
    }
}

/// Law: the column spans of a line cover exactly its non-whitespace
/// positions — each column is a run of non-whitespace characters, and no
/// non-whitespace character is left outside a column.
pub proof fn lemma_line_spans_exact(s: Seq<char>)
    ensures
        forall|p: int|
            0 <= p < s.len() ==> (#[trigger] in_some_span(line_spans(s), p) <==> !is_ws(s[p])),
{
    lemma_spans_from_exact(s, 0);
}

/// Splits `line` into the spans of its whitespace-delimited columns, in
/// left-to-right order.
pub fn get_line_cols(line: &String) -> (cols: Vec<Span>)
    ensures
        cols@.map_values(|sp: Span| sp@) == line_spans(line@),
{
    let s = line.as_str();
    let len = s.unicode_len();
    let mut cols: Vec<Span> = Vec::new();
    let mut i: usize = 0;
    while i < len
        invariant
            s@ == line@,
            len == s@.len(),
            i <= len,
            line_spans(line@) == cols@.map_values(|sp: Span| sp@) + spans_from(line@, i as int),
        decreases len - i,
    {
        let c = s.get_char(i);
        if is_ascii_ws(c) {
            i = i + 1;
        } else {
            let start = i;
            i = i + 1;
            loop
                invariant
                    s@ == line@,
                    len == s@.len(),
                    start < i <= len,
                    !is_ws(s@[start as int]),
                    token_end(line@, start as int) == token_end(line@, i as int),
                ensures
                    start < i <= len,
                    token_end(line@, start as int) == i as int,
                decreases len - i,
            {
                if i >= len {
                    proof {
                        assert(token_end(line@, i as int) == i as int);
                    }
                    break ;
                }
                let c = s.get_char(i);
                if is_ascii_ws(c) {
                    proof {
                        assert(token_end(line@, i as int) == i as int);
                    }
                    break ;
                }
                i = i + 1;
            }
            let ghost prev = cols@.map_values(|sp: Span| sp@);
            cols.push(Span { start, end: i });
            proof {
                assert(spans_from(line@, start as int) == seq![
                    SpanModel { start: start as int, end: i as int },
                ] + spans_from(line@, i as int));
                assert(cols@.map_values(|sp: Span| sp@) =~= prev + seq![
                    SpanModel { start: start as int, end: i as int },
                ]);
                assert(cols@.map_values(|sp: Span| sp@) + spans_from(line@, i as int) =~= prev
                    + spans_from(line@, start as int));
            }
        }
    }
    proof {
        assert(cols@.map_values(|sp: Span| sp@) + spans_from(line@, len as int) =~= cols@.map_values(
            |sp: Span| sp@,
        ));
    }
    cols
}

} // verus!
