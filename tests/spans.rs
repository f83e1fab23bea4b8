use rich_text::format::{Color, TextAlign, TextFormat};
use rich_text::span::TextSpan;
use rich_text::spans::FormatSpans;

fn bold() -> TextFormat {
    let mut f = TextFormat::default();
    f.bold = Some(true);
    f
}

fn italic() -> TextFormat {
    let mut f = TextFormat::default();
    f.italic = Some(true);
    f
}

fn lengths(fs: &FormatSpans) -> Vec<usize> {
    fs.spans().iter().map(|s| s.length()).collect()
}

fn check_invariants(fs: &FormatSpans) {
    let spans = fs.spans();
    assert!(!spans.is_empty());
    let total: usize = spans.iter().map(|s| s.length()).sum();
    assert_eq!(total, fs.text().chars().count());
    if fs.text().is_empty() {
        assert_eq!(spans.len(), 1);
    } else {
        assert!(spans.iter().all(|s| s.length() > 0));
    }
    for pair in spans.windows(2) {
        assert!(!pair[0].can_merge(&pair[1]));
    }
}

#[test]
fn apply_bold_to_prefix() {
    let mut fs = FormatSpans::from_str_and_format("Hello World", TextFormat::default());
    assert_eq!(lengths(&fs), vec![11]);
    fs.set_text_format(0, 5, &bold());
    assert_eq!(lengths(&fs), vec![5, 6]);
    assert_eq!(fs.spans()[0].get_text_format().bold, Some(true));
    assert_eq!(fs.spans()[1].get_text_format().bold, Some(false));
    assert_eq!(fs.get_text_format(0, 11).bold, None);
    assert_eq!(fs.get_text_format(0, 5).bold, Some(true));
    check_invariants(&fs);
}

#[test]
fn apply_italic_to_suffix() {
    let mut fs = FormatSpans::from_str_and_format("Hello World", TextFormat::default());
    fs.set_text_format(6, 11, &italic());
    assert_eq!(fs.get_text_format(6, 11).italic, Some(true));
    assert_eq!(fs.get_text_format(0, 6).italic, Some(false));
    assert_eq!(lengths(&fs), vec![6, 5]);
    check_invariants(&fs);
}

#[test]
fn splice_replaces_one_character() {
    let mut fs = FormatSpans::from_str_and_format("Hello,World", TextFormat::default());
    fs.set_text_format(6, 11, &italic());
    fs.replace_text(5, 6, " ");
    assert_eq!(fs.text(), "Hello World");
    assert_eq!(fs.get_text_format(5, 6).italic, Some(true));
    assert_eq!(fs.get_text_format(0, 5).italic, Some(false));
    assert_eq!(lengths(&fs), vec![5, 6]);
    check_invariants(&fs);
}

#[test]
fn splice_inherits_following_style() {
    let mut fs = FormatSpans::from_str_and_format("Hello,World", TextFormat::default());
    fs.replace_text(5, 6, " ");
    assert_eq!(fs.text(), "Hello World");
    assert_eq!(lengths(&fs), vec![11]);
    check_invariants(&fs);
}

#[test]
fn splice_with_reversed_range_changes_nothing() {
    let mut fs = FormatSpans::from_str_and_format("Hello World", TextFormat::default());
    fs.set_text_format(0, 5, &bold());
    let before = lengths(&fs);
    fs.replace_text(8, 5, "xyz");
    assert_eq!(fs.text(), "Hello World");
    assert_eq!(lengths(&fs), before);
    assert_eq!(fs.spans()[0].get_text_format().bold, Some(true));
}

#[test]
fn splice_past_the_end_appends_default_text() {
    let mut def = TextFormat::default();
    def.underline = Some(true);
    let mut fs = FormatSpans::from_str_and_format("abc", TextFormat::default());
    fs.set_default_format(def);
    fs.replace_text(3, 3, "de");
    assert_eq!(fs.text(), "abcde");
    assert_eq!(lengths(&fs), vec![3, 2]);
    assert_eq!(fs.get_text_format(3, 5).underline, Some(true));
    assert_eq!(fs.get_text_format(0, 3).underline, Some(false));
    check_invariants(&fs);
}

#[test]
fn splice_to_past_end_uses_default_format() {
    let mut fs = FormatSpans::from_str_and_format("abcdef", TextFormat::default());
    fs.set_text_format(0, 6, &bold());
    fs.replace_text(4, 10, "XY");
    assert_eq!(fs.text(), "abcdXY");
    assert_eq!(fs.get_text_format(4, 6).bold, Some(false));
    assert_eq!(lengths(&fs), vec![4, 2]);
    check_invariants(&fs);
}

#[test]
fn splice_deleting_everything_leaves_one_empty_span() {
    let mut fs = FormatSpans::from_str_and_format("abc", TextFormat::default());
    fs.replace_text(0, 3, "");
    assert_eq!(fs.text(), "");
    assert_eq!(lengths(&fs), vec![0]);
    check_invariants(&fs);
}

#[test]
fn normalize_twice_is_stable() {
    let spans = vec![
        TextSpan::with_length_and_format(2, bold()),
        TextSpan::with_length_and_format(0, italic()),
        TextSpan::with_length_and_format(3, bold()),
        TextSpan::with_length(4),
    ];
    let mut fs = FormatSpans::from_str_and_spans("abcdefgh", &spans);
    assert_eq!(lengths(&fs), vec![5, 3]);
    check_invariants(&fs);
    fs.normalize();
    let once = lengths(&fs);
    fs.normalize();
    assert_eq!(lengths(&fs), once);
    assert_eq!(fs.spans()[0].get_text_format().bold, Some(true));
}

#[test]
fn normalize_fills_a_shortfall_with_the_default_format() {
    let spans = vec![TextSpan::with_length_and_format(2, bold())];
    let fs = FormatSpans::from_str_and_spans("abcde", &spans);
    assert_eq!(lengths(&fs), vec![2, 3]);
    assert_eq!(fs.get_text_format(2, 5).bold, Some(false));
    check_invariants(&fs);
}

#[test]
fn normalize_cuts_an_excess() {
    let spans = vec![
        TextSpan::with_length_and_format(2, bold()),
        TextSpan::with_length(5),
        TextSpan::with_length_and_format(4, italic()),
    ];
    let fs = FormatSpans::from_str_and_spans("abcd", &spans);
    assert_eq!(lengths(&fs), vec![2, 2]);
    check_invariants(&fs);
}

#[test]
fn normalize_of_no_spans_and_empty_text() {
    let fs = FormatSpans::from_str_and_spans("", &[]);
    assert_eq!(lengths(&fs), vec![0]);
    check_invariants(&fs);
}

#[test]
fn split_then_merge_restores_span() {
    let mut span = TextSpan::with_length_and_format(7, bold());
    let rest = span.split_at(3).expect("inner point splits");
    assert_eq!(span.length(), 3);
    assert_eq!(rest.length(), 4);
    assert!(span.can_merge(&rest));
    assert!(span.merge(rest).is_none());
    assert_eq!(span.length(), 7);
    assert_eq!(span.get_text_format().bold, Some(true));
}

#[test]
fn split_at_edges_does_nothing() {
    let mut span = TextSpan::with_length(5);
    assert!(span.split_at(0).is_none());
    assert!(span.split_at(5).is_none());
    assert!(span.split_at(9).is_none());
    assert_eq!(span.length(), 5);
}

#[test]
fn merge_refuses_different_styles() {
    let mut a = TextSpan::with_length_and_format(2, bold());
    let b = TextSpan::with_length(3);
    let back = a.merge(b).expect("styles differ");
    assert_eq!(back.length(), 3);
    assert_eq!(a.length(), 2);
}

#[test]
fn break_twice_returns_same_index() {
    let mut fs = FormatSpans::from_str_and_format("Hello World", TextFormat::default());
    let first = fs.ensure_span_break_at(4);
    assert_eq!(first, Some(1));
    let after_first = lengths(&fs);
    assert_eq!(after_first, vec![4, 7]);
    let second = fs.ensure_span_break_at(4);
    assert_eq!(second, first);
    assert_eq!(lengths(&fs), after_first);
    assert_eq!(fs.ensure_span_break_at(0), Some(0));
    assert_eq!(fs.ensure_span_break_at(11), None);
}

#[test]
fn resolve_position_finds_span_and_offset() {
    let mut fs = FormatSpans::from_str_and_format("Hello World", TextFormat::default());
    fs.set_text_format(0, 5, &bold());
    assert_eq!(fs.resolve_position_as_span(0), Some((0, 0)));
    assert_eq!(fs.resolve_position_as_span(4), Some((0, 4)));
    assert_eq!(fs.resolve_position_as_span(5), Some((1, 0)));
    assert_eq!(fs.resolve_position_as_span(10), Some((1, 5)));
    assert_eq!(fs.resolve_position_as_span(11), None);
}

#[test]
fn span_boundaries_cover_the_range() {
    let mut fs = FormatSpans::from_str_and_format("Hello World", TextFormat::default());
    fs.set_text_format(0, 5, &bold());
    assert_eq!(fs.get_span_boundaries(0, 5), (0, 1));
    assert_eq!(fs.get_span_boundaries(2, 7), (0, 2));
    assert_eq!(fs.get_span_boundaries(20, 30), (0, 2));
    assert_eq!(fs.get_span_boundaries(6, 0), (1, 1));
}

#[test]
fn apply_past_the_end_reaches_the_whole_text() {
    let mut fs = FormatSpans::from_str_and_format("Hello", TextFormat::default());
    fs.set_text_format(20, 30, &bold());
    assert_eq!(fs.get_text_format(0, 5).bold, Some(true));
    assert_eq!(lengths(&fs), vec![5]);
}

#[test]
fn apply_keeps_other_attributes() {
    let mut fs = FormatSpans::from_str_and_format("Hello World", TextFormat::default());
    fs.set_text_format(0, 11, &italic());
    fs.set_text_format(3, 8, &bold());
    assert_eq!(lengths(&fs), vec![3, 5, 3]);
    let mid = fs.get_text_format(3, 8);
    assert_eq!(mid.bold, Some(true));
    assert_eq!(mid.italic, Some(true));
    assert_eq!(fs.get_text_format(0, 3).bold, Some(false));
    check_invariants(&fs);
}

#[test]
fn apply_same_format_merges_back() {
    let mut fs = FormatSpans::from_str_and_format("Hello World", TextFormat::default());
    fs.set_text_format(2, 4, &bold());
    let mut plain = TextFormat::default();
    plain.bold = Some(false);
    fs.set_text_format(2, 4, &plain);
    assert_eq!(lengths(&fs), vec![11]);
}

#[test]
fn default_span_is_neutral() {
    let fs = FormatSpans::from_str_and_format("ab", TextFormat::default());
    let f = fs.get_text_format(0, 2);
    assert_eq!(f.font, Some(String::new()));
    assert_eq!(f.size, Some(12));
    assert_eq!(f.color, Some(Color { r: 0, g: 0, b: 0, a: 255 }));
    assert_eq!(f.align, Some(TextAlign::Left));
    assert_eq!(f.kerning, Some(false));
    assert_eq!(f.tab_stops, Some(vec![]));
    assert_eq!(f.bullet, Some(false));
    assert_eq!(f.url, Some(String::new()));
}

#[test]
fn query_of_empty_text() {
    let fs = FormatSpans::from_str_and_format("", TextFormat::default());
    assert_eq!(lengths(&fs), vec![0]);
    assert_eq!(fs.get_text_format(0, 0).size, Some(12));
}

#[test]
fn merge_matching_properties_keeps_agreements() {
    let mut a = TextFormat::default();
    a.font = Some("Arial".to_string());
    a.size = Some(10);
    a.tab_stops = Some(vec![1, 2]);
    let mut b = TextFormat::default();
    b.font = Some("Arial".to_string());
    b.size = Some(11);
    b.tab_stops = Some(vec![1, 2]);
    let m = a.merge_matching_properties(b);
    assert_eq!(m.font, Some("Arial".to_string()));
    assert_eq!(m.size, None);
    assert_eq!(m.tab_stops, Some(vec![1, 2]));
}

#[test]
fn layered_prefers_inner() {
    let mut outer = TextFormat::default();
    outer.bold = Some(true);
    outer.size = Some(10);
    let mut inner = TextFormat::default();
    inner.size = Some(14);
    let l = outer.layered(&inner);
    assert_eq!(l.bold, Some(true));
    assert_eq!(l.size, Some(14));
    assert_eq!(l.italic, None);
}

#[test]
fn deleting_everything_leaves_the_default_format() {
    let mut fs = FormatSpans::from_str_and_format("abc", TextFormat::default());
    fs.set_default_format(bold());
    fs.replace_text(0, 3, "");
    assert_eq!(lengths(&fs), vec![0]);
    assert_eq!(fs.get_text_format(0, 0).bold, Some(true));
}

#[test]
fn apply_on_empty_text_restyles_the_empty_span() {
    let mut fs = FormatSpans::from_str_and_format("", TextFormat::default());
    fs.set_text_format(0, 0, &italic());
    assert_eq!(lengths(&fs), vec![0]);
    assert_eq!(fs.get_text_format(0, 0).italic, Some(true));
}
