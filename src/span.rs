//! A single run of uniformly styled text.
use vstd::prelude::*;

use crate::format::{
    copy_stops, copy_string, stops_eq, stops_opt, str_opt, Color, set_or, Style, TextAlign, TextFormat,
};

verus! {

fn pick<T: Copy>(o: Option<T>, v: T) -> (r: T)
    ensures
        r == set_or(o, v),
{
    match o {
        Some(x) => x,
        None => v,
    }
}

fn pick_string(o: &Option<String>, v: &String) -> (r: String)
    ensures
        r@ == set_or(str_opt(*o), v@),
{
    match o {
        Some(x) => copy_string(x),
        None => copy_string(v),
    }
}

fn pick_stops(o: &Option<Vec<i64>>, v: &Vec<i64>) -> (r: Vec<i64>)
    ensures
        r@ == set_or(stops_opt(*o), v@),
{
    match o {
        Some(x) => copy_stops(x),
        None => copy_stops(v),
    }
}

/// Represents the application of a `TextFormat` to a particular text span.
///
/// The string data is not stored here: the start of a span within its text is
/// the sum of the lengths of the spans before it (see `FormatSpans`). Every
/// attribute of the format is resolved to a value.
#[derive(Clone, Debug)]
pub struct TextSpan {
    /// How many characters are subsumed by this text span.
    span_length: usize,
    font: String,
    size: i64,
    color: Color,
    align: TextAlign,
    bold: bool,
    italic: bool,
    underline: bool,
    left_margin: i64,
    right_margin: i64,
    indent: i64,
    block_indent: i64,
    kerning: bool,
    leading: i64,
    letter_spacing: i64,
    tab_stops: Vec<i64>,
    bullet: bool,
    url: String,
    target: String,
}

/// The mathematical content of a `TextSpan`: its length and its style.
pub struct SpanView {
    pub len: nat,
    pub style: Style,
}

impl SpanView {
    /// The first `point` characters of this span, in its style.
    pub open spec fn head(self, point: nat) -> SpanView {
        SpanView { len: point, style: self.style }
    }

    /// This span without its first `point` characters, in its style.
    pub open spec fn tail(self, point: nat) -> SpanView {
        SpanView { len: (self.len - point) as nat, style: self.style }
    }

    /// This span extended by the length of `other`.
    pub open spec fn joined(self, other: SpanView) -> SpanView {
        SpanView { len: self.len + other.len, style: self.style }
    }
}

/// Splitting a span at a point strictly inside it and merging the two parts
/// back gives the original span: same style, same length.
pub proof fn lemma_split_then_merge(s: SpanView, point: nat)
    requires
        0 < point < s.len,
    ensures
        s.head(point).style == s.tail(point).style,
        s.head(point).joined(s.tail(point)) == s,
{
}

impl View for TextSpan {
    type V = SpanView;

    closed spec fn view(&self) -> SpanView {
        SpanView {
            len: self.span_length as nat,
            style: Style {
                font: self.font@,
                size: self.size,
                color: self.color,
                align: self.align,
                bold: self.bold,
                italic: self.italic,
                underline: self.underline,
                left_margin: self.left_margin,
                right_margin: self.right_margin,
                indent: self.indent,
                block_indent: self.block_indent,
                kerning: self.kerning,
                leading: self.leading,
                letter_spacing: self.letter_spacing,
                tab_stops: self.tab_stops@,
                bullet: self.bullet,
                url: self.url@,
                target: self.target@,
            },
        }
    }
}

impl Default for TextSpan {
    fn default() -> (r: TextSpan)
        ensures
            r@ == (SpanView { len: 0, style: Style::neutral() }),
    {
        TextSpan::with_length(0)
    }
}

impl TextSpan {
    /// A span of `length` characters in the neutral style.
    pub fn with_length(length: usize) -> (r: TextSpan)
        ensures
            r@ == (SpanView { len: length as nat, style: Style::neutral() }),
    {
        let r = TextSpan {
            span_length: length,
            font: String::new(),
            size: 12,
            color: Color { r: 0, g: 0, b: 0, a: 255 },
            align: TextAlign::Left,
            bold: false,
            italic: false,
            underline: false,
            left_margin: 0,
            right_margin: 0,
            indent: 0,
            block_indent: 0,
            kerning: false,
            leading: 0,
            letter_spacing: 0,
            tab_stops: Vec::new(),
            bullet: false,
            url: String::new(),
            target: String::new(),
        };
        assert(r@.style.font =~= Style::neutral().font);
        assert(r@.style.tab_stops =~= Style::neutral().tab_stops);
        r
    }

    /// A span of `length` characters in the neutral style overlaid with `tf`.
    pub fn with_length_and_format(length: usize, tf: TextFormat) -> (r: TextSpan)
        ensures
            r@ == (SpanView { len: length as nat, style: Style::neutral().with(tf@) }),
    {
        let mut data = TextSpan::with_length(length);
        data.set_text_format(&tf);
        data
    }

    /// How many characters this span covers.
    pub fn length(&self) -> (r: usize)
        ensures
            r as nat == self@.len,
    {
        self.span_length
    }

    /// A copy of this span.
    pub fn duplicate(&self) -> (r: TextSpan)
        ensures
            r@ == self@,
    {
        TextSpan {
            span_length: self.span_length,
            font: copy_string(&self.font),
            size: self.size,
            color: self.color,
            align: self.align,
            bold: self.bold,
            italic: self.italic,
            underline: self.underline,
            left_margin: self.left_margin,
            right_margin: self.right_margin,
            indent: self.indent,
            block_indent: self.block_indent,
            kerning: self.kerning,
            leading: self.leading,
            letter_spacing: self.letter_spacing,
            tab_stops: copy_stops(&self.tab_stops),
            bullet: self.bullet,
            url: copy_string(&self.url),
            target: copy_string(&self.target),
        }
    }

    pub(crate) fn set_length(&mut self, length: usize)
        ensures
            final(self)@ == (SpanView { len: length as nat, style: old(self)@.style }),
    {
        self.span_length = length;
    }

    /// Split the text span in two at a point relative to its start.
    ///
    /// When `0 < split_point < length`, this span keeps the first
    /// `split_point` characters and the remainder is returned as a new span
    /// with the same style. Otherwise nothing changes and `None` is returned.
    pub fn split_at(&mut self, split_point: usize) -> (r: Option<TextSpan>)
        ensures
            0 < split_point < old(self)@.len ==> {
                &&& r is Some
                &&& final(self)@ == old(self)@.head(split_point as nat)
                &&& r->0@ == old(self)@.tail(split_point as nat)
            },
            !(0 < split_point < old(self)@.len) ==> r is None && final(self)@ == old(self)@,
    {
        if self.span_length <= split_point || split_point == 0 {
            return None;
        }
        let mut new_span = self.duplicate();
        new_span.span_length = self.span_length - split_point;
        self.span_length = split_point;
        Some(new_span)
    }

    /// Determine if this and another span have identical text formats.
    ///
    /// Lengths are not compared. It is assumed that the two spans are
    /// adjacent; this function cannot check that.
    pub fn can_merge(&self, rhs: &TextSpan) -> (r: bool)
        ensures
            r == (self@.style == rhs@.style),
    {
        self.font == rhs.font && self.size == rhs.size && self.color == rhs.color && self.align
            == rhs.align && self.bold == rhs.bold && self.italic == rhs.italic && self.underline
            == rhs.underline && self.left_margin == rhs.left_margin && self.right_margin
            == rhs.right_margin && self.indent == rhs.indent && self.block_indent
            == rhs.block_indent && self.kerning == rhs.kerning && self.leading == rhs.leading
            && self.letter_spacing == rhs.letter_spacing && stops_eq(&self.tab_stops, &rhs.tab_stops)
            && self.bullet == rhs.bullet && self.url == rhs.url && self.target == rhs.target
    }

    /// Merge an adjacent span into this one.
    ///
    /// If the two spans have identical styles, `rhs` is absorbed into this
    /// span and `None` is returned. Otherwise nothing changes and `rhs` is
    /// handed back.
    pub fn merge(&mut self, rhs: TextSpan) -> (r: Option<TextSpan>)
        requires
            old(self)@.len + rhs@.len <= usize::MAX,
        ensures
            old(self)@.style == rhs@.style ==> r is None && final(self)@ == old(self)@.joined(rhs@),
            old(self)@.style != rhs@.style ==> r == Some(rhs) && final(self)@ == old(self)@,
    {
        if !self.can_merge(&rhs) {
            return Some(rhs);
        }
        self.span_length = self.span_length + rhs.span_length;
        None
    }

    /// Apply a text format to this text span.
    ///
    /// Attributes that are `None` in `tf` remain unchanged.
    pub fn set_text_format(&mut self, tf: &TextFormat)
        ensures
            final(self)@ == (SpanView { len: old(self)@.len, style: old(self)@.style.with(tf@) }),
    {
        let span = TextSpan {
            span_length: self.span_length,
            font: pick_string(&tf.font, &self.font),
            size: pick(tf.size, self.size),
            color: pick(tf.color, self.color),
            align: pick(tf.align, self.align),
            bold: pick(tf.bold, self.bold),
            italic: pick(tf.italic, self.italic),
            underline: pick(tf.underline, self.underline),
            left_margin: pick(tf.left_margin, self.left_margin),
            right_margin: pick(tf.right_margin, self.right_margin),
            indent: pick(tf.indent, self.indent),
            block_indent: pick(tf.block_indent, self.block_indent),
            kerning: pick(tf.kerning, self.kerning),
            leading: pick(tf.leading, self.leading),
            letter_spacing: pick(tf.letter_spacing, self.letter_spacing),
            tab_stops: pick_stops(&tf.tab_stops, &self.tab_stops),
            bullet: pick(tf.bullet, self.bullet),
            url: pick_string(&tf.url, &self.url),
            target: pick_string(&tf.target, &self.target),
        };
        *self = span;
    }

    /// The style of this span as a format with every attribute defined.
    pub fn get_text_format(&self) -> (r: TextFormat)
        ensures
            r@ == self@.style.resolved(),
    {
        TextFormat {
            font: Some(copy_string(&self.font)),
            size: Some(self.size),
            color: Some(self.color),
            align: Some(self.align),
            bold: Some(self.bold),
            italic: Some(self.italic),
            underline: Some(self.underline),
            left_margin: Some(self.left_margin),
            right_margin: Some(self.right_margin),
            indent: Some(self.indent),
            block_indent: Some(self.block_indent),
            kerning: Some(self.kerning),
            leading: Some(self.leading),
            letter_spacing: Some(self.letter_spacing),
            tab_stops: Some(copy_stops(&self.tab_stops)),
            bullet: Some(self.bullet),
            url: Some(copy_string(&self.url)),
            target: Some(copy_string(&self.target)),
        }
    }
}

} // verus!
