use rich_text::format::{Color, TextAlign, TextFormat};
use rich_text::markup::{MarkupElement, Step};
use rich_text::parse::{parse_color, parse_int, parse_tab_stops, trim_chars};
use rich_text::spans::FormatSpans;

fn element(tag: &str, attrs: &[(&str, &str)]) -> MarkupElement {
    MarkupElement {
        tag_name: tag.to_string(),
        attributes: attrs.iter().map(|(k, v)| (k.to_string(), v.to_string())).collect(),
    }
}

fn chars(s: &str) -> Vec<char> {
    s.chars().collect()
}

fn all_unset_but_bold(f: &TextFormat) -> bool {
    f.font.is_none()
        && f.size.is_none()
        && f.color.is_none()
        && f.align.is_none()
        && f.italic.is_none()
        && f.underline.is_none()
        && f.left_margin.is_none()
        && f.right_margin.is_none()
        && f.indent.is_none()
        && f.block_indent.is_none()
        && f.kerning.is_none()
        && f.leading.is_none()
        && f.letter_spacing.is_none()
        && f.tab_stops.is_none()
        && f.bullet.is_none()
        && f.url.is_none()
        && f.target.is_none()
}

#[test]
fn bold_element_sets_only_bold() {
    let f = TextFormat::from_presentational_markup(&element("b", &[]));
    assert_eq!(f.bold, Some(true));
    assert!(all_unset_but_bold(&f));
}

#[test]
fn font_element_with_bad_size() {
    let f = TextFormat::from_presentational_markup(&element(
        "font",
        &[("face", "Arial"), ("size", "notanumber")],
    ));
    assert_eq!(f.font, Some("Arial".to_string()));
    assert_eq!(f.size, None);
    assert_eq!(f.color, None);
}

#[test]
fn font_element_with_size_and_color() {
    let f = TextFormat::from_presentational_markup(&element(
        "font",
        &[("size", "14"), ("color", "#FF8000")],
    ));
    assert_eq!(f.size, Some(14));
    assert_eq!(f.color, Some(Color { r: 255, g: 128, b: 0, a: 255 }));
}

#[test]
fn font_element_with_bad_color() {
    let f = TextFormat::from_presentational_markup(&element("font", &[("color", "#FF80G0")]));
    assert_eq!(f.color, None);
    let g = TextFormat::from_presentational_markup(&element("font", &[("color", "FF8000")]));
    assert_eq!(g.color, None);
}

#[test]
fn paragraph_alignment() {
    let p = TextFormat::from_presentational_markup(&element("p", &[("align", "center")]));
    assert_eq!(p.align, Some(TextAlign::Center));
    let j = TextFormat::from_presentational_markup(&element("p", &[("align", "justify")]));
    assert_eq!(j.align, Some(TextAlign::Justify));
    let bad = TextFormat::from_presentational_markup(&element("p", &[("align", "middle")]));
    assert_eq!(bad.align, None);
    let none = TextFormat::from_presentational_markup(&element("p", &[]));
    assert_eq!(none.align, None);
}

#[test]
fn anchor_link_and_target() {
    let a = TextFormat::from_presentational_markup(&element(
        "a",
        &[("href", "http://example.com"), ("target", "_blank")],
    ));
    assert_eq!(a.url, Some("http://example.com".to_string()));
    assert_eq!(a.target, Some("_blank".to_string()));
}

#[test]
fn flag_elements() {
    assert_eq!(TextFormat::from_presentational_markup(&element("i", &[])).italic, Some(true));
    assert_eq!(TextFormat::from_presentational_markup(&element("u", &[])).underline, Some(true));
    assert_eq!(TextFormat::from_presentational_markup(&element("li", &[])).bullet, Some(true));
}

#[test]
fn textformat_element() {
    let f = TextFormat::from_presentational_markup(&element(
        "textformat",
        &[
            ("leftmargin", "5"),
            ("rightmargin", "x"),
            ("indent", "-3"),
            ("blockindent", "+2"),
            ("leading", "7"),
            ("tabstops", "10, 20,abc, 30 ,"),
        ],
    ));
    assert_eq!(f.left_margin, Some(5));
    assert_eq!(f.right_margin, None);
    assert_eq!(f.indent, Some(-3));
    assert_eq!(f.block_indent, Some(2));
    assert_eq!(f.leading, Some(7));
    assert_eq!(f.tab_stops, Some(vec![10, 20, 30]));
}

#[test]
fn unknown_element_is_unset() {
    let f = TextFormat::from_presentational_markup(&element("span", &[("align", "left")]));
    assert!(f.bold.is_none());
    assert!(all_unset_but_bold(&f));
}

#[test]
fn first_attribute_wins() {
    let e = element("a", &[("href", "one"), ("href", "two")]);
    assert_eq!(e.attribute_value("href"), Some("one".to_string()));
    assert_eq!(e.attribute_value("target"), None);
}

#[test]
fn integers_parse() {
    assert_eq!(parse_int(&chars("42")), Some(42));
    assert_eq!(parse_int(&chars("-42")), Some(-42));
    assert_eq!(parse_int(&chars("+7")), Some(7));
    assert_eq!(parse_int(&chars("")), None);
    assert_eq!(parse_int(&chars("-")), None);
    assert_eq!(parse_int(&chars("1.5")), None);
    assert_eq!(parse_int(&chars("9223372036854775807")), Some(i64::MAX));
    assert_eq!(parse_int(&chars("9223372036854775808")), None);
}

#[test]
fn colors_parse() {
    assert_eq!(parse_color(&chars("#00ff7F")), Some(Color { r: 0, g: 255, b: 127, a: 255 }));
    assert_eq!(parse_color(&chars("#00ff7")), None);
    assert_eq!(parse_color(&chars("#123456zz")), Some(Color { r: 0x12, g: 0x34, b: 0x56, a: 255 }));
}

#[test]
fn trimming_and_tab_stops() {
    assert_eq!(trim_chars(&chars("  a b \t")), chars("a b"));
    assert_eq!(trim_chars(&chars("   ")), chars(""));
    assert_eq!(parse_tab_stops(&chars("")), Vec::<i64>::new());
    assert_eq!(parse_tab_stops(&chars(" 5 ")), vec![5]);
    assert_eq!(parse_tab_stops(&chars("1,,2")), vec![1, 2]);
}

#[test]
fn lowering_appends_styled_runs() {
    let mut fs = FormatSpans::from_str_and_format("", TextFormat::default());
    let steps = vec![
        Step::In(element("p", &[("align", "right")])),
        Step::Text("ab".to_string()),
        Step::In(element("b", &[])),
        Step::Text("cd".to_string()),
        Step::In(element("font", &[("size", "20")])),
        Step::Text("e".to_string()),
        Step::Out,
        Step::Out,
        Step::Text("f".to_string()),
        Step::Out,
        Step::Text("g".to_string()),
    ];
    fs.lower_from_html(&steps);
    assert_eq!(fs.text(), "abcdefg");
    let lengths: Vec<usize> = fs.spans().iter().map(|s| s.length()).collect();
    assert_eq!(lengths, vec![2, 2, 1, 1, 1]);
    assert_eq!(fs.get_text_format(0, 2).align, Some(TextAlign::Right));
    assert_eq!(fs.get_text_format(0, 2).bold, Some(false));
    assert_eq!(fs.get_text_format(2, 4).bold, Some(true));
    assert_eq!(fs.get_text_format(4, 5).size, Some(20));
    assert_eq!(fs.get_text_format(4, 5).bold, Some(true));
    assert_eq!(fs.get_text_format(5, 6).bold, Some(false));
    assert_eq!(fs.get_text_format(5, 6).align, Some(TextAlign::Right));
    assert_eq!(fs.get_text_format(6, 7).align, Some(TextAlign::Left));
}

#[test]
fn lowering_onto_existing_text() {
    let mut fs = FormatSpans::from_str_and_format("x", TextFormat::default());
    let steps = vec![Step::In(element("i", &[])), Step::Text("yz".to_string()), Step::Out];
    fs.lower_from_html(&steps);
    assert_eq!(fs.text(), "xyz");
    assert_eq!(fs.get_text_format(0, 1).italic, Some(false));
    assert_eq!(fs.get_text_format(1, 3).italic, Some(true));
}
