use note_markup::html::{parse_custom_syntax as to_html, render_html};
use note_markup::parser::{parse_custom_syntax, TextSegment};

fn plain(t: &str) -> TextSegment {
    TextSegment::Plain(t.to_string())
}

fn styled(content: &str, classes: &str) -> TextSegment {
    TextSegment::Styled { content: content.to_string(), classes: classes.to_string() }
}

/// The text a segment sequence was made from, given the directive text of each
/// styled run.
fn rejoin(segs: &[TextSegment], directives: &[&str]) -> String {
    let mut out = String::new();
    let mut next = 0;
    for s in segs {
        match s {
            TextSegment::Plain(t) => out.push_str(t),
            TextSegment::Styled { .. } => {
                out.push_str(directives[next]);
                next += 1;
            }
        }
    }
    assert_eq!(next, directives.len());
    out
}

#[test]
fn test_parsing() {
    let raw = "Hello $(world, text-red-500 font-bold)";
    let parsed = to_html(raw);
    assert_eq!(parsed, r#"Hello <span class="text-red-500 font-bold">world</span>"#);
}

#[test]
fn single_directive() {
    assert_eq!(
        parse_custom_syntax("Hello $(world, text-red-500 font-bold)"),
        vec![plain("Hello "), styled("world", "text-red-500 font-bold")]
    );
}

#[test]
fn adjacent_directives_leave_no_gap() {
    assert_eq!(parse_custom_syntax("$(a, x)$(b, y)"), vec![styled("a", "x"), styled("b", "y")]);
}

#[test]
fn captured_parts_are_trimmed() {
    assert_eq!(
        parse_custom_syntax("$( spaced , classes-here )"),
        vec![styled("spaced", "classes-here")]
    );
}

#[test]
fn malformed_directive_is_plain() {
    let s = "cost is $5 (not a tag)";
    assert_eq!(parse_custom_syntax(s), vec![plain(s)]);
}

#[test]
fn trailing_text_is_kept() {
    assert_eq!(
        parse_custom_syntax("$(a, b) and more"),
        vec![styled("a", "b"), plain(" and more")]
    );
}

#[test]
fn empty_input_gives_no_segment() {
    assert_eq!(parse_custom_syntax(""), vec![]);
    assert_eq!(to_html(""), "");
}

#[test]
fn text_without_directive_is_one_plain_segment() {
    for s in ["just words", "$(", "$(a b c)", "$(, x)", "$(a,)", "a, b) c", "$ (a, b)", "\n\t "] {
        assert_eq!(parse_custom_syntax(s), vec![plain(s)], "input {:?}", s);
        assert_eq!(to_html(s), s);
    }
}

#[test]
fn segments_rejoin_to_the_input() {
    let s = "x $(one, a b) y $(two,c)$(three ,  d )z";
    let segs = parse_custom_syntax(s);
    assert_eq!(
        segs,
        vec![
            plain("x "),
            styled("one", "a b"),
            plain(" y "),
            styled("two", "c"),
            styled("three", "d"),
            plain("z"),
        ]
    );
    assert_eq!(rejoin(&segs, &["$(one, a b)", "$(two,c)", "$(three ,  d )"]), s);
}

#[test]
fn style_list_of_only_whitespace_becomes_empty() {
    assert_eq!(parse_custom_syntax("$(a,  )"), vec![styled("a", "")]);
}

#[test]
fn comma_in_style_list_is_kept() {
    assert_eq!(parse_custom_syntax("$(a, b, c)"), vec![styled("a", "b, c")]);
}

#[test]
fn closing_paren_in_content_is_kept() {
    assert_eq!(parse_custom_syntax("$(a) b, c)"), vec![styled("a) b", "c")]);
}

#[test]
fn earlier_unfinished_opener_joins_the_directive() {
    assert_eq!(parse_custom_syntax("$($(a, b)"), vec![styled("$(a", "b")]);
}

#[test]
fn opener_without_content_is_skipped() {
    assert_eq!(
        parse_custom_syntax("$(, x) $(a, b)"),
        vec![plain("$(, x) "), styled("a", "b")]
    );
}

#[test]
fn non_ascii_text_is_sliced_on_characters() {
    assert_eq!(
        parse_custom_syntax("héllo $(wörld, ünï) ✓"),
        vec![plain("héllo "), styled("wörld", "ünï"), plain(" ✓")]
    );
}

#[test]
fn unicode_whitespace_is_trimmed() {
    assert_eq!(
        parse_custom_syntax("$(\u{3000}a\u{a0},\u{2003}b c\n)"),
        vec![styled("a", "b c")]
    );
}

#[test]
fn newlines_stay_in_plain_text() {
    assert_eq!(
        parse_custom_syntax("line one\n$(two\nlines, cls)\n"),
        vec![plain("line one\n"), styled("two\nlines", "cls"), plain("\n")]
    );
}

#[test]
fn html_wraps_each_directive() {
    assert_eq!(
        to_html("$(a, x)$(b, y) and $(c , z w )."),
        r#"<span class="x">a</span><span class="y">b</span> and <span class="z w">c</span>."#
    );
}

#[test]
fn html_does_not_escape() {
    assert_eq!(to_html("<b>$(&, \"q\")</b>"), "<b><span class=\"\"q\"\">&</span></b>");
}

#[test]
fn rendering_twice_gives_the_same_output() {
    let segs = parse_custom_syntax("Hello $(world, text-red-500 font-bold) again");
    let first = render_html(&segs);
    let second = render_html(&segs);
    assert_eq!(first, second);
    assert_eq!(first, r#"Hello <span class="text-red-500 font-bold">world</span> again"#);
}

#[test]
fn render_html_of_given_segments() {
    let segs = vec![plain("a "), styled("b", "c d"), plain(" e")];
    assert_eq!(render_html(&segs), r#"a <span class="c d">b</span> e"#);
    assert_eq!(render_html(&vec![]), "");
}
