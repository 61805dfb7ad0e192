//! Projection of segments into an HTML string: plain runs as they are, styled
//! runs as a `span` whose class attribute is the style list. Nothing is escaped.
use vstd::prelude::*;

use crate::parser::{segments, views, SegmentView, TextSegment};

verus! {

/// The markup of one segment.
pub open spec fn html_run(v: SegmentView) -> Seq<char> {
    match v {
        SegmentView::Plain(t) => t,
        SegmentView::Styled { content, classes } => "<span class=\""@ + classes + "\">"@ + content
            + "</span>"@,
    }
}

/// The markup of a sequence of segments, in order.
pub open spec fn html_of(v: Seq<SegmentView>) -> Seq<char>
    decreases v.len(),
{
    if v.len() == 0 {
        seq![]
    } else {
        html_of(v.drop_last()) + html_run(v.last())
    }
}

/// Appends the markup of one segment to `out`.
fn push_run(out: &mut String, seg: &TextSegment)
    ensures
        final(out)@ == old(out)@ + html_run(seg@),
{
    match seg {
        TextSegment::Plain(t) => {
            out.append(t.as_str());
        },
        TextSegment::Styled { content, classes } => {
            out.append("<span class=\"");
            out.append(classes.as_str());
            out.append("\">");
            out.append(content.as_str());
            out.append("</span>");
        },
    }
}

/// The markup of `segs`, in order.
pub fn render_html(segs: &Vec<TextSegment>) -> (r: String)
    ensures
        r@ == html_of(views(segs@)),
{
    let mut out = String::new();
    let n = segs.len();
    let mut i: usize = 0;
    while i < n
        invariant
            n == segs@.len(),
            i <= n,
            out@ == html_of(views(segs@.take(i as int))),
        decreases n - i,
    {
        push_run(&mut out, &segs[i]);
        assert(views(segs@.take(i + 1)).drop_last() =~= views(segs@.take(i as int)));
        i = i + 1;
    }
    assert(segs@.take(n as int) =~= segs@);
    out
}

/// Rewrites each directive of `input` as a `span` carrying its style list, and
/// keeps the rest of the text as it is.
pub fn parse_custom_syntax(input: &str) -> (r: String)
    ensures
        r@ == html_of(segments(input@)),
{
    let segs = crate::parser::parse_custom_syntax(input);
    render_html(&segs)
}

} // verus!
