//! Segmentation of a text buffer into plain and styled runs.
use vstd::prelude::*;
use vstd::seq_lib::lemma_flatten_concat;

use crate::directive::{directive_at, find_directive_at, is_directive, lemma_directive_at_grammar};
use crate::text::{chars_of, trim, trim_bounds};

verus! {

/// A run of the input: verbatim text, or the payload of a directive with its
/// style list.
#[derive(Clone, Debug, PartialEq, Eq)]
pub enum TextSegment {
    Plain(String),
    Styled { content: String, classes: String },
}

/// The mathematical value of a `TextSegment`.
pub enum SegmentView {
    Plain(Seq<char>),
    Styled { content: Seq<char>, classes: Seq<char> },
}

impl View for TextSegment {
    type V = SegmentView;

    open spec fn view(&self) -> SegmentView {
        match self {
            TextSegment::Plain(t) => SegmentView::Plain(t@),
            TextSegment::Styled { content, classes } => SegmentView::Styled {
                content: content@,
                classes: classes@,
            },
        }
    }
}

/// The views of a sequence of segments.
pub open spec fn views(v: Seq<TextSegment>) -> Seq<SegmentView> {
    v.map_values(|t: TextSegment| t@)
}

/// A plain run for `t`, or nothing when `t` is empty.
pub open spec fn plain_run(t: Seq<char>) -> Seq<SegmentView> {
    if t.len() == 0 {
        seq![]
    } else {
        seq![SegmentView::Plain(t)]
    }
}

/// The styled run of the directive of `s` that starts at `start`.
pub open spec fn styled_run(s: Seq<char>, start: int, comma: int, close: int) -> SegmentView {
    SegmentView::Styled {
        content: trim(s.subrange(start + 2, comma)),
        classes: trim(s.subrange(comma + 1, close)),
    }
}

/// The segments of `s[cursor..]`, given that no directive starts in
/// `s[cursor..pos]`: the first directive at or after `pos` ends the plain run
/// that begins at `cursor`, and the scan resumes after its `)`.
pub open spec fn segments_from(s: Seq<char>, cursor: int, pos: int) -> Seq<SegmentView>
    decreases s.len() - pos,
    via segments_from_decreases
{
    if pos >= s.len() {
        plain_run(s.subrange(cursor, s.len() as int))
    } else {
        match directive_at(s, pos) {
            Some((comma, close)) => plain_run(s.subrange(cursor, pos)) + seq![
                styled_run(s, pos, comma, close),
            ] + segments_from(s, close + 1, close + 1),
            None => segments_from(s, cursor, pos + 1),
        }
    }
}

#[via_fn]
proof fn segments_from_decreases(s: Seq<char>, cursor: int, pos: int) {
    lemma_directive_at_grammar(s, pos);
}

/// The segments of the whole of `s`.
pub open spec fn segments(s: Seq<char>) -> Seq<SegmentView> {
    segments_from(s, 0, 0)
}

/// The text that a plain run of `t` stands for: `t`, or nothing when it is empty.
pub open spec fn plain_span(t: Seq<char>) -> Seq<Seq<char>> {
    if t.len() == 0 {
        seq![]
    } else {
        seq![t]
    }
}

/// The stretch of `s` that each segment of `segments_from(s, cursor, pos)` was
/// made from, in the same order.
pub open spec fn spans_from(s: Seq<char>, cursor: int, pos: int) -> Seq<Seq<char>>
    decreases s.len() - pos,
    via spans_from_decreases
{
    if pos >= s.len() {
        plain_span(s.subrange(cursor, s.len() as int))
    } else {
        match directive_at(s, pos) {
            Some((comma, close)) => plain_span(s.subrange(cursor, pos)) + seq![
                s.subrange(pos, close + 1),
            ] + spans_from(s, close + 1, close + 1),
            None => spans_from(s, cursor, pos + 1),
        }
    }
}

#[via_fn]
proof fn spans_from_decreases(s: Seq<char>, cursor: int, pos: int) {
    lemma_directive_at_grammar(s, pos);
}

/// The stretch of `s` that each of its segments was made from.
pub open spec fn source_spans(s: Seq<char>) -> Seq<Seq<char>> {
    spans_from(s, 0, 0)
}

/// Whether segment `v` was made from the text `span`: a plain segment is its own
/// non-empty text; a styled one comes from a span that is exactly one directive,
/// and holds its trimmed content and style list.
pub open spec fn made_from(v: SegmentView, span: Seq<char>) -> bool {
    match v {
        SegmentView::Plain(t) => t == span && t.len() > 0,
        SegmentView::Styled { .. } => exists|comma: int, close: int|
            {
                &&& is_directive(span, 0, comma, close)
                &&& close == span.len() - 1
                &&& v == styled_run(span, 0, comma, close)
            },
    }
}

proof fn lemma_cover_from(s: Seq<char>, cursor: int, pos: int)
    requires
        0 <= cursor <= pos <= s.len(),
    ensures
        spans_from(s, cursor, pos).len() == segments_from(s, cursor, pos).len(),
        spans_from(s, cursor, pos).flatten() == s.subrange(cursor, s.len() as int),
        forall|i: int|
            0 <= i < segments_from(s, cursor, pos).len() ==> made_from(
                #[trigger] segments_from(s, cursor, pos)[i],
                spans_from(s, cursor, pos)[i],
            ),
    decreases s.len() - pos,
{
    let sp = spans_from(s, cursor, pos);
    let sg = segments_from(s, cursor, pos);
    if pos >= s.len() {
        let t = s.subrange(cursor, s.len() as int);
        if t.len() > 0 {
            sp.lemma_flatten_one_element();
        }
    } else {
        lemma_directive_at_grammar(s, pos);
        match directive_at(s, pos) {
            Some((comma, close)) => {
                lemma_cover_from(s, close + 1, close + 1);
                let head = s.subrange(cursor, pos);
                let span = s.subrange(pos, close + 1);
                let rest = spans_from(s, close + 1, close + 1);
                let pre = plain_span(head) + seq![span];
                assert(sp == pre + rest);
                lemma_flatten_concat(pre, rest);
                lemma_flatten_concat(plain_span(head), seq![span]);
                seq![span].lemma_flatten_one_element();
                if head.len() > 0 {
                    plain_span(head).lemma_flatten_one_element();
                }
                assert(sp.flatten() =~= s.subrange(cursor, s.len() as int));
                let c = comma - pos;
                let d = close - pos;
                assert(span.subrange(2, c) =~= s.subrange(pos + 2, comma));
                assert(span.subrange(c + 1, d) =~= s.subrange(comma + 1, close));
                assert(is_directive(span, 0, c, d));
                let k = plain_span(head).len() as int;
                assert(made_from(sg[k], sp[k]));
                assert forall|i: int| 0 <= i < sg.len() implies made_from(
                    #[trigger] sg[i],
                    sp[i],
                ) by {
                    if i > k {
                        assert(sg[i] == segments_from(s, close + 1, close + 1)[i - k - 1]);
                        assert(sp[i] == rest[i - k - 1]);
                    }
                }
            },
            None => {
                lemma_cover_from(s, cursor, pos + 1);
            },
        }
    }
}

/// Coverage: the stretches of `s` that its segments were made from, joined in
/// order, give back `s` exactly, and each segment was made from its stretch.
pub proof fn lemma_segments_cover(s: Seq<char>)
    ensures
        source_spans(s).len() == segments(s).len(),
        source_spans(s).flatten() == s,
        forall|i: int|
            0 <= i < segments(s).len() ==> made_from(
                #[trigger] segments(s)[i],
                source_spans(s)[i],
            ),
{
    lemma_cover_from(s, 0, 0);
    assert(s.subrange(0, s.len() as int) =~= s);
}

proof fn lemma_plain_from(s: Seq<char>, pos: int)
    requires
        0 <= pos <= s.len(),
        forall|p: int, comma: int, close: int| !is_directive(s, p, comma, close),
    ensures
        segments_from(s, 0, pos) == plain_run(s),
    decreases s.len() - pos,
{
    assert(s.subrange(0, s.len() as int) =~= s);
    if pos < s.len() {
        lemma_directive_at_grammar(s, pos);
        lemma_plain_from(s, pos + 1);
    }
}

/// Text without a directive is one plain segment, or none when it is empty.
pub proof fn lemma_no_directive(s: Seq<char>)
    requires
        forall|p: int, comma: int, close: int| !is_directive(s, p, comma, close),
    ensures
        segments(s) == plain_run(s),
{
    lemma_plain_from(s, 0);
}

/// A `String` holding `s[from..to]`.
fn slice_to_string(s: &str, from: usize, to: usize) -> (r: String)
    requires
        from <= to <= s@.len(),
    ensures
        r@ == s@.subrange(from as int, to as int),
{
    String::from_str(s.substring_char(from, to))
}

/// Splits `input` into plain runs and the styled runs of its directives, scanning
/// left to right for the first well-formed directive and resuming after it.
pub fn parse_custom_syntax(input: &str) -> (r: Vec<TextSegment>)
    ensures
        views(r@) == segments(input@),
{
    let chars = chars_of(input);
    let n = chars.len();
    let mut segs: Vec<TextSegment> = Vec::new();
    let mut cursor: usize = 0;
    let mut pos: usize = 0;
    while pos < n
        invariant
            chars@ == input@,
            n == chars@.len(),
            cursor <= pos <= n,
            views(segs@) + segments_from(input@, cursor as int, pos as int) == segments(input@),
        decreases n - pos,
    {
        match find_directive_at(&chars, pos) {
            Some((comma, close)) => {
                let ghost before = views(segs@);
                if cursor < pos {
                    segs.push(TextSegment::Plain(slice_to_string(input, cursor, pos)));
                }
                let (c0, c1) = trim_bounds(&chars, pos + 2, comma);
                let (k0, k1) = trim_bounds(&chars, comma + 1, close);
                segs.push(
                    TextSegment::Styled {
                        content: slice_to_string(input, c0, c1),
                        classes: slice_to_string(input, k0, k1),
                    },
                );
                assert(views(segs@) =~= before + plain_run(input@.subrange(cursor as int, pos as int))
                    + seq![styled_run(input@, pos as int, comma as int, close as int)]);
                cursor = close + 1;
                pos = close + 1;
            },
            None => {
                pos = pos + 1;
            },
        }
    }
    let ghost before = views(segs@);
    if cursor < n {
        segs.push(TextSegment::Plain(slice_to_string(input, cursor, n)));
    }
    assert(views(segs@) =~= before + plain_run(input@.subrange(cursor as int, n as int)));
    segs
}

} // verus!
