//! Lowering of presentational markup into formatted spans.
use vstd::prelude::*;

use crate::format::{FormatView, Style, TextAlign, TextFormat};
use crate::model::{lemma_flatten_len, repeat, restyled};
use crate::parse::{
    chars_of, color_value, int_value, parse_color, parse_int, parse_tab_stops, same_chars,
    tab_stops_value,
};
use crate::spans::FormatSpans;

verus! {

/// A markup element: its tag name and its attributes, in document order.
#[derive(Clone, Debug)]
pub struct MarkupElement {
    pub tag_name: String,
    pub attributes: Vec<(String, String)>,
}

/// The mathematical content of a `MarkupElement`.
pub struct ElementView {
    pub tag: Seq<char>,
    pub attrs: Seq<(Seq<char>, Seq<char>)>,
}

impl View for MarkupElement {
    type V = ElementView;

    open spec fn view(&self) -> ElementView {
        ElementView {
            tag: self.tag_name@,
            attrs: self.attributes@.map_values(|p: (String, String)| (p.0@, p.1@)),
        }
    }
}

/// One event of a walk over a markup tree in document order.
#[derive(Clone, Debug)]
pub enum Step {
    /// An element is entered.
    In(MarkupElement),
    /// A text node.
    Text(String),
    /// The innermost open element is left.
    Out,
}

/// The mathematical content of a `Step`.
pub enum StepView {
    In(ElementView),
    Text(Seq<char>),
    Out,
}

impl View for Step {
    type V = StepView;

    open spec fn view(&self) -> StepView {
        match self {
            Step::In(e) => StepView::In(e@),
            Step::Text(t) => StepView::Text(t@),
            Step::Out => StepView::Out,
        }
    }
}

/// The value of the first attribute named `name`.
pub open spec fn attr_lookup(a: Seq<(Seq<char>, Seq<char>)>, name: Seq<char>) -> Option<Seq<char>>
    decreases a.len(),
{
    if a.len() == 0 {
        None
    } else if a[0].0 == name {
        Some(a[0].1)
    } else {
        attr_lookup(a.skip(1), name)
    }
}

/// The number that the attribute named `name` holds, if any.
pub open spec fn number_attr(e: ElementView, name: Seq<char>) -> Option<i64> {
    match attr_lookup(e.attrs, name) {
        Some(v) => int_value(v),
        None => None,
    }
}

/// The paragraph alignment that a value names.
pub open spec fn align_value(v: Option<Seq<char>>) -> Option<TextAlign> {
    match v {
        Some(s) => if s == "left"@ {
            Some(TextAlign::Left)
        } else if s == "center"@ {
            Some(TextAlign::Center)
        } else if s == "right"@ {
            Some(TextAlign::Right)
        } else if s == "justify"@ {
            Some(TextAlign::Justify)
        } else {
            None
        },
        None => None,
    }
}

/// The format that one element of presentational markup stands for.
pub open spec fn markup_format(e: ElementView) -> FormatView {
    let u = FormatView::unset();
    if e.tag == "p"@ {
        FormatView { align: align_value(attr_lookup(e.attrs, "align"@)), ..u }
    } else if e.tag == "a"@ {
        FormatView {
            url: attr_lookup(e.attrs, "href"@),
            target: attr_lookup(e.attrs, "target"@),
            ..u
        }
    } else if e.tag == "font"@ {
        FormatView {
            font: attr_lookup(e.attrs, "face"@),
            size: number_attr(e, "size"@),
            color: match attr_lookup(e.attrs, "color"@) {
                Some(v) => color_value(v),
                None => None,
            },
            ..u
        }
    } else if e.tag == "b"@ {
        FormatView { bold: Some(true), ..u }
    } else if e.tag == "i"@ {
        FormatView { italic: Some(true), ..u }
    } else if e.tag == "u"@ {
        FormatView { underline: Some(true), ..u }
    } else if e.tag == "li"@ {
        FormatView { bullet: Some(true), ..u }
    } else if e.tag == "textformat"@ {
        FormatView {
            left_margin: number_attr(e, "leftmargin"@),
            right_margin: number_attr(e, "rightmargin"@),
            indent: number_attr(e, "indent"@),
            block_indent: number_attr(e, "blockindent"@),
            leading: number_attr(e, "leading"@),
            tab_stops: match attr_lookup(e.attrs, "tabstops"@) {
                Some(v) => Some(tab_stops_value(v)),
                None => None,
            },
            ..u
        }
    } else {
        u
    }
}

/// Whether two strings are equal.
fn str_eq(a: &str, b: &str) -> (r: bool)
    ensures
        r == (a@ == b@),
{
    let x = chars_of(a);
    let y = chars_of(b);
    same_chars(x.as_slice(), y.as_slice())
}

impl MarkupElement {
    /// The value of the first attribute named `name`.
    pub fn attribute_value(&self, name: &str) -> (r: Option<String>)
        ensures
            match r {
                Some(v) => attr_lookup(self@.attrs, name@) == Some(v@),
                None => attr_lookup(self@.attrs, name@) is None,
            },
    {
        let ghost a = self@.attrs;
        let mut i: usize = 0;
        assert(a.skip(0) =~= a);
        while i < self.attributes.len()
            invariant
                a == self@.attrs,
                i <= a.len(),
                attr_lookup(a, name@) == attr_lookup(a.skip(i as int), name@),
            decreases a.len() - i,
        {
            let pair = &self.attributes[i];
            assert(a.skip(i as int)[0] == (pair.0@, pair.1@));
            if str_eq(pair.0.as_str(), name) {
                return Some(pair.1.clone());
            }
            assert(a.skip(i as int).skip(1) =~= a.skip(i + 1));
            i = i + 1;
        }
        None
    }

    fn number_attribute(&self, name: &str) -> (r: Option<i64>)
        ensures
            r == number_attr(self@, name@),
    {
        match self.attribute_value(name) {
            Some(v) => {
                let c = chars_of(v.as_str());
                parse_int(c.as_slice())
            },
            None => None,
        }
    }
}

impl TextFormat {
    /// Extracts the text format that one element of presentational markup
    /// stands for: paragraphs set the alignment, anchors the link, `font`
    /// the face, size and colour, `b`, `i`, `u` and `li` their flag, and
    /// `textformat` the margins, indents, leading and tab stops. Values
    /// that do not parse, and all other elements, leave attributes
    /// undefined.
    pub fn from_presentational_markup(node: &MarkupElement) -> (r: TextFormat)
        ensures
            r@ == markup_format(node@),
    {
        let mut tf = TextFormat::unset();
        let tag = node.tag_name.as_str();
        if str_eq(tag, "p") {
            tf.align = match node.attribute_value("align") {
                Some(v) => {
                    let s = v.as_str();
                    if str_eq(s, "left") {
                        Some(TextAlign::Left)
                    } else if str_eq(s, "center") {
                        Some(TextAlign::Center)
                    } else if str_eq(s, "right") {
                        Some(TextAlign::Right)
                    } else if str_eq(s, "justify") {
                        Some(TextAlign::Justify)
                    } else {
                        None
                    }
                },
                None => None,
            };
        } else if str_eq(tag, "a") {
            tf.url = node.attribute_value("href");
            tf.target = node.attribute_value("target");
        } else if str_eq(tag, "font") {
            tf.font = node.attribute_value("face");
            tf.size = node.number_attribute("size");
            tf.color = match node.attribute_value("color") {
                Some(v) => {
                    let c = chars_of(v.as_str());
                    parse_color(c.as_slice())
                },
                None => None,
            };
        } else if str_eq(tag, "b") {
            tf.bold = Some(true);
        } else if str_eq(tag, "i") {
            tf.italic = Some(true);
        } else if str_eq(tag, "u") {
            tf.underline = Some(true);
        } else if str_eq(tag, "li") {
            tf.bullet = Some(true);
        } else if str_eq(tag, "textformat") {
            tf.left_margin = node.number_attribute("leftmargin");
            tf.right_margin = node.number_attribute("rightmargin");
            tf.indent = node.number_attribute("indent");
            tf.block_indent = node.number_attribute("blockindent");
            tf.leading = node.number_attribute("leading");
            tf.tab_stops = match node.attribute_value("tabstops") {
                Some(v) => {
                    let c = chars_of(v.as_str());
                    Some(parse_tab_stops(c.as_slice()))
                },
                None => None,
            };
        }
        tf
    }
}

/// The formats of the elements open after `steps`, outermost first.
pub open spec fn open_formats(steps: Seq<StepView>) -> Seq<FormatView>
    decreases steps.len(),
{
    if steps.len() == 0 {
        Seq::empty()
    } else {
        let before = open_formats(steps.drop_last());
        match steps.last() {
            StepView::In(e) => before.push(markup_format(e)),
            StepView::Out => if before.len() > 0 {
                before.drop_last()
            } else {
                before
            },
            StepView::Text(_) => before,
        }
    }
}

/// The formats layered from the outermost to the innermost.
pub open spec fn folded(stack: Seq<FormatView>) -> FormatView
    decreases stack.len(),
{
    if stack.len() == 0 {
        FormatView::unset()
    } else {
        folded(stack.drop_last()).layered(stack.last())
    }
}

/// The text of the text nodes among `steps`, in order.
pub open spec fn lowered_text(steps: Seq<StepView>) -> Seq<char>
    decreases steps.len(),
{
    if steps.len() == 0 {
        Seq::empty()
    } else {
        match steps.last() {
            StepView::Text(t) => lowered_text(steps.drop_last()) + t,
            _ => lowered_text(steps.drop_last()),
        }
    }
}

/// The style of each character of `lowered_text(steps)`: style `d` with
/// the formats of the elements open around its text node layered over it.
pub open spec fn lowered_styles(steps: Seq<StepView>, d: Style) -> Seq<Style>
    decreases steps.len(),
{
    if steps.len() == 0 {
        Seq::empty()
    } else {
        match steps.last() {
            StepView::Text(t) => lowered_styles(steps.drop_last(), d) + repeat(
                d.with(folded(open_formats(steps.drop_last()))),
                t.len(),
            ),
            _ => lowered_styles(steps.drop_last(), d),
        }
    }
}

proof fn lemma_lowered_len(steps: Seq<StepView>, d: Style)
    ensures
        lowered_styles(steps, d).len() == lowered_text(steps).len(),
    decreases steps.len(),
{
    if steps.len() > 0 {
        lemma_lowered_len(steps.drop_last(), d);
    }
}

/// The formats of `stack` layered from the first to the last.
fn fold_formats(stack: &Vec<TextFormat>) -> (r: TextFormat)
    ensures
        r@ == folded(stack@.map_values(|f: TextFormat| f@)),
{
    let ghost v = stack@.map_values(|f: TextFormat| f@);
    let mut acc = TextFormat::unset();
    let mut i: usize = 0;
    assert(v.take(0) =~= Seq::<FormatView>::empty());
    while i < stack.len()
        invariant
            i <= stack@.len(),
            v == stack@.map_values(|f: TextFormat| f@),
            acc@ == folded(v.take(i as int)),
        decreases stack@.len() - i,
    {
        acc = acc.layered(&stack[i]);
        assert(v.take(i + 1).drop_last() =~= v.take(i as int));
        i = i + 1;
    }
    assert(v.take(i as int) =~= v);
    acc
}

impl FormatSpans {
    /// Lowers a walk over a markup tree into formatted text: the text of
    /// each text node is appended in the default format with the formats of
    /// the elements open around it layered over it, innermost last.
    pub fn lower_from_html(&mut self, steps: &Vec<Step>)
        requires
            old(self).wf(),
            old(self)@.text.len() + lowered_text(steps@.map_values(|s: Step| s@)).len()
                <= usize::MAX,
        ensures
            final(self).wf(),
            final(self)@.default_format == old(self)@.default_format,
            final(self)@.text == old(self)@.text + lowered_text(steps@.map_values(|s: Step| s@)),
            final(self)@.styles() == old(self)@.styles() + lowered_styles(
                steps@.map_values(|s: Step| s@),
                old(self)@.default_style(),
            ),
    {
        let ghost sv = steps@.map_values(|s: Step| s@);
        let ghost d = self@.default_style();
        let ghost t0 = self@.text;
        let ghost y0 = self@.styles();
        let mut format_stack: Vec<TextFormat> = Vec::new();
        let mut i: usize = 0;
        proof {
            lemma_flatten_len(self@.spans);
            assert(sv.take(0) =~= Seq::<StepView>::empty());
            assert(t0 + Seq::<char>::empty() =~= t0);
            assert(y0 + Seq::<Style>::empty() =~= y0);
        }
        while i < steps.len()
            invariant
                i <= steps@.len(),
                sv == steps@.map_values(|s: Step| s@),
                self.wf(),
                self@.default_format == old(self)@.default_format,
                d == self@.default_style(),
                self@.text == t0 + lowered_text(sv.take(i as int)),
                self@.styles() == y0 + lowered_styles(sv.take(i as int), d),
                format_stack@.map_values(|f: TextFormat| f@) == open_formats(sv.take(i as int)),
                t0.len() + lowered_text(sv).len() <= usize::MAX,
                y0.len() == t0.len(),
            decreases steps@.len() - i,
        {
            let ghost pre = sv.take(i as int);
            proof {
                assert(sv.take(i + 1).drop_last() =~= pre);
                assert(sv.take(i + 1).last() == steps@[i as int]@);
                lemma_lowered_prefix(sv, i + 1);
            }
            match &steps[i] {
                Step::In(node) => {
                    format_stack.push(TextFormat::from_presentational_markup(node));
                    assert(format_stack@.map_values(|f: TextFormat| f@) =~= open_formats(
                        sv.take(i + 1),
                    ));
                },
                Step::Text(text) => {
                    let fold = fold_formats(&format_stack);
                    let start = self.text().unicode_len();
                    self.replace_text(start, start, text.as_str());
                    let width = text.as_str().unicode_len();
                    proof {
                        assert(t0 + lowered_text(pre) + text@ =~= t0 + lowered_text(sv.take(i + 1)));
                        assert(self@.text.len() == start + width);
                    }
                    if width > 0 {
                        self.set_text_format(start, start + width, &fold);
                    }
                    proof {
                        let x = y0 + lowered_styles(pre, d);
                        let st = d.with(fold@);
                        lemma_lowered_len(pre, d);
                        assert(x.len() == start);
                        assert(x + repeat(d, width as nat) + Seq::<Style>::empty() =~= x + repeat(
                            d,
                            width as nat,
                        ));
                        if width > 0 {
                            assert(restyled(x + repeat(d, width as nat), start as int, start + width, fold@)
                                =~= x + repeat(st, width as nat));
                        } else {
                            assert(repeat(st, 0) =~= Seq::<Style>::empty());
                        }
                        assert(x + repeat(st, width as nat) =~= y0 + lowered_styles(
                            sv.take(i + 1),
                            d,
                        ));
                    }
                },
                Step::Out => {
                    format_stack.pop();
                    assert(format_stack@.map_values(|f: TextFormat| f@) =~= open_formats(
                        sv.take(i + 1),
                    ));
                },
            }
            i = i + 1;
        }
        proof {
            assert(sv.take(i as int) =~= sv);
        }
    }
}

proof fn lemma_lowered_prefix(sv: Seq<StepView>, k: int)
    requires
        0 <= k <= sv.len(),
    ensures
        lowered_text(sv.take(k)).len() <= lowered_text(sv).len(),
    decreases sv.len() - k,
{
    if k < sv.len() {
        lemma_lowered_prefix(sv, k + 1);
        assert(sv.take(k + 1).drop_last() =~= sv.take(k));
    } else {
        assert(sv.take(k) =~= sv);
    }
}

} // verus!
