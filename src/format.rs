//! Sparse text formatting attributes.
use vstd::prelude::*;

verus! {

/// A colour with red, green, blue and alpha channels.
#[derive(Clone, Copy, Debug, PartialEq, Eq, Structural)]
pub struct Color {
    pub r: u8,
    pub g: u8,
    pub b: u8,
    pub a: u8,
}

/// Horizontal alignment of a paragraph.
#[derive(Clone, Copy, Debug, PartialEq, Eq, Structural)]
pub enum TextAlign {
    Left,
    Center,
    Right,
    Justify,
}

/// A set of text formatting options to be applied to some part, or the
/// whole of, a given text field.
///
/// Any property set to `None` is undefined: when reading the format of a
/// range it means that the range mixes several values, and when applying a
/// format it means that the existing value is retained.
///
/// Sizes, margins, indents, leading, letter spacing and tab stops are whole
/// pixels.
#[derive(Clone, Debug)]
pub struct TextFormat {
    pub font: Option<String>,
    pub size: Option<i64>,
    pub color: Option<Color>,
    pub align: Option<TextAlign>,
    pub bold: Option<bool>,
    pub italic: Option<bool>,
    pub underline: Option<bool>,
    pub left_margin: Option<i64>,
    pub right_margin: Option<i64>,
    pub indent: Option<i64>,
    pub block_indent: Option<i64>,
    pub kerning: Option<bool>,
    pub leading: Option<i64>,
    pub letter_spacing: Option<i64>,
    pub tab_stops: Option<Vec<i64>>,
    pub bullet: Option<bool>,
    pub url: Option<String>,
    pub target: Option<String>,
}

/// The mathematical content of a `TextFormat`.
pub struct FormatView {
    pub font: Option<Seq<char>>,
    pub size: Option<i64>,
    pub color: Option<Color>,
    pub align: Option<TextAlign>,
    pub bold: Option<bool>,
    pub italic: Option<bool>,
    pub underline: Option<bool>,
    pub left_margin: Option<i64>,
    pub right_margin: Option<i64>,
    pub indent: Option<i64>,
    pub block_indent: Option<i64>,
    pub kerning: Option<bool>,
    pub leading: Option<i64>,
    pub letter_spacing: Option<i64>,
    pub tab_stops: Option<Seq<i64>>,
    pub bullet: Option<bool>,
    pub url: Option<Seq<char>>,
    pub target: Option<Seq<char>>,
}

/// A fully resolved style: every attribute has a value.
pub struct Style {
    pub font: Seq<char>,
    pub size: i64,
    pub color: Color,
    pub align: TextAlign,
    pub bold: bool,
    pub italic: bool,
    pub underline: bool,
    pub left_margin: i64,
    pub right_margin: i64,
    pub indent: i64,
    pub block_indent: i64,
    pub kerning: bool,
    pub leading: i64,
    pub letter_spacing: i64,
    pub tab_stops: Seq<i64>,
    pub bullet: bool,
    pub url: Seq<char>,
    pub target: Seq<char>,
}

pub open spec fn str_opt(o: Option<String>) -> Option<Seq<char>> {
    match o {
        Some(s) => Some(s@),
        None => None,
    }
}

pub open spec fn stops_opt(o: Option<Vec<i64>>) -> Option<Seq<i64>> {
    match o {
        Some(v) => Some(v@),
        None => None,
    }
}

/// The value both sides agree on, or undefined.
pub open spec fn agree<T>(a: Option<T>, b: Option<T>) -> Option<T> {
    if a == b {
        a
    } else {
        None
    }
}

/// A value taken from `over` where it is defined, else from `under`.
pub open spec fn prefer<T>(over: Option<T>, under: Option<T>) -> Option<T> {
    match over {
        Some(v) => Some(v),
        None => under,
    }
}

/// A value taken from `o` where it is defined, else `v`.
pub open spec fn set_or<T>(o: Option<T>, v: T) -> T {
    match o {
        Some(x) => x,
        None => v,
    }
}

impl View for TextFormat {
    type V = FormatView;

    open spec fn view(&self) -> FormatView {
        FormatView {
            font: str_opt(self.font),
            size: self.size,
            color: self.color,
            align: self.align,
            bold: self.bold,
            italic: self.italic,
            underline: self.underline,
            left_margin: self.left_margin,
            right_margin: self.right_margin,
            indent: self.indent,
            block_indent: self.block_indent,
            kerning: self.kerning,
            leading: self.leading,
            letter_spacing: self.letter_spacing,
            tab_stops: stops_opt(self.tab_stops),
            bullet: self.bullet,
            url: str_opt(self.url),
            target: str_opt(self.target),
        }
    }
}

impl FormatView {
    /// The format with every attribute undefined.
    pub open spec fn unset() -> FormatView {
        FormatView {
            font: None,
            size: None,
            color: None,
            align: None,
            bold: None,
            italic: None,
            underline: None,
            left_margin: None,
            right_margin: None,
            indent: None,
            block_indent: None,
            kerning: None,
            leading: None,
            letter_spacing: None,
            tab_stops: None,
            bullet: None,
            url: None,
            target: None,
        }
    }

    /// Keeps each attribute on which both formats agree; the others become
    /// undefined.
    pub open spec fn common(self, o: FormatView) -> FormatView {
        FormatView {
            font: agree(self.font, o.font),
            size: agree(self.size, o.size),
            color: agree(self.color, o.color),
            align: agree(self.align, o.align),
            bold: agree(self.bold, o.bold),
            italic: agree(self.italic, o.italic),
            underline: agree(self.underline, o.underline),
            left_margin: agree(self.left_margin, o.left_margin),
            right_margin: agree(self.right_margin, o.right_margin),
            indent: agree(self.indent, o.indent),
            block_indent: agree(self.block_indent, o.block_indent),
            kerning: agree(self.kerning, o.kerning),
            leading: agree(self.leading, o.leading),
            letter_spacing: agree(self.letter_spacing, o.letter_spacing),
            tab_stops: agree(self.tab_stops, o.tab_stops),
            bullet: agree(self.bullet, o.bullet),
            url: agree(self.url, o.url),
            target: agree(self.target, o.target),
        }
    }

    /// Layers `inner` over `self`: each attribute that `inner` defines wins,
    /// the others fall through to `self`.
    pub open spec fn layered(self, inner: FormatView) -> FormatView {
        FormatView {
            font: prefer(inner.font, self.font),
            size: prefer(inner.size, self.size),
            color: prefer(inner.color, self.color),
            align: prefer(inner.align, self.align),
            bold: prefer(inner.bold, self.bold),
            italic: prefer(inner.italic, self.italic),
            underline: prefer(inner.underline, self.underline),
            left_margin: prefer(inner.left_margin, self.left_margin),
            right_margin: prefer(inner.right_margin, self.right_margin),
            indent: prefer(inner.indent, self.indent),
            block_indent: prefer(inner.block_indent, self.block_indent),
            kerning: prefer(inner.kerning, self.kerning),
            leading: prefer(inner.leading, self.leading),
            letter_spacing: prefer(inner.letter_spacing, self.letter_spacing),
            tab_stops: prefer(inner.tab_stops, self.tab_stops),
            bullet: prefer(inner.bullet, self.bullet),
            url: prefer(inner.url, self.url),
            target: prefer(inner.target, self.target),
        }
    }
}

impl Style {
    /// The neutral style of new text: no font, size 12, opaque black, left
    /// aligned, no emphasis, zero margins and spacing, no tab stops, no
    /// bullet and no link.
    pub open spec fn neutral() -> Style {
        Style {
            font: Seq::empty(),
            size: 12,
            color: Color { r: 0, g: 0, b: 0, a: 255 },
            align: TextAlign::Left,
            bold: false,
            italic: false,
            underline: false,
            left_margin: 0,
            right_margin: 0,
            indent: 0,
            block_indent: 0,
            kerning: false,
            leading: 0,
            letter_spacing: 0,
            tab_stops: Seq::empty(),
            bullet: false,
            url: Seq::empty(),
            target: Seq::empty(),
        }
    }

    /// Overwrites each attribute that `f` defines.
    pub open spec fn with(self, f: FormatView) -> Style {
        Style {
            font: set_or(f.font, self.font),
            size: set_or(f.size, self.size),
            color: set_or(f.color, self.color),
            align: set_or(f.align, self.align),
            bold: set_or(f.bold, self.bold),
            italic: set_or(f.italic, self.italic),
            underline: set_or(f.underline, self.underline),
            left_margin: set_or(f.left_margin, self.left_margin),
            right_margin: set_or(f.right_margin, self.right_margin),
            indent: set_or(f.indent, self.indent),
            block_indent: set_or(f.block_indent, self.block_indent),
            kerning: set_or(f.kerning, self.kerning),
            leading: set_or(f.leading, self.leading),
            letter_spacing: set_or(f.letter_spacing, self.letter_spacing),
            tab_stops: set_or(f.tab_stops, self.tab_stops),
            bullet: set_or(f.bullet, self.bullet),
            url: set_or(f.url, self.url),
            target: set_or(f.target, self.target),
        }
    }

    /// The style as a format in which every attribute is defined.
    pub open spec fn resolved(self) -> FormatView {
        FormatView {
            font: Some(self.font),
            size: Some(self.size),
            color: Some(self.color),
            align: Some(self.align),
            bold: Some(self.bold),
            italic: Some(self.italic),
            underline: Some(self.underline),
            left_margin: Some(self.left_margin),
            right_margin: Some(self.right_margin),
            indent: Some(self.indent),
            block_indent: Some(self.block_indent),
            kerning: Some(self.kerning),
            leading: Some(self.leading),
            letter_spacing: Some(self.letter_spacing),
            tab_stops: Some(self.tab_stops),
            bullet: Some(self.bullet),
            url: Some(self.url),
            target: Some(self.target),
        }
    }
}

pub(crate) fn copy_string(s: &String) -> (r: String)
    ensures
        r@ == s@,
{
    s.clone()
}

pub(crate) fn copy_stops(v: &Vec<i64>) -> (r: Vec<i64>)
    ensures
        r@ == v@,
{
    let mut r: Vec<i64> = Vec::new();
    let mut i: usize = 0;
    while i < v.len()
        invariant
            i <= v@.len(),
            r@ == v@.subrange(0, i as int),
        decreases v@.len() - i,
    {
        r.push(v[i]);
        i = i + 1;
    }
    assert(r@ =~= v@);
    r
}

pub(crate) fn stops_eq(a: &Vec<i64>, b: &Vec<i64>) -> (r: bool)
    ensures
        r == (a@ == b@),
{
    if a.len() != b.len() {
        return false;
    }
    let mut i: usize = 0;
    while i < a.len()
        invariant
            a@.len() == b@.len(),
            i <= a@.len(),
            forall|j: int| 0 <= j < i ==> a@[j] == b@[j],
        decreases a@.len() - i,
    {
        if a[i] != b[i] {
            return false;
        }
        i = i + 1;
    }
    assert(a@ =~= b@);
    true
}

pub(crate) fn copy_opt_string(o: &Option<String>) -> (r: Option<String>)
    ensures
        str_opt(r) == str_opt(*o),
{
    match o {
        Some(s) => Some(copy_string(s)),
        None => None,
    }
}

pub(crate) fn copy_opt_stops(o: &Option<Vec<i64>>) -> (r: Option<Vec<i64>>)
    ensures
        stops_opt(r) == stops_opt(*o),
{
    match o {
        Some(v) => Some(copy_stops(v)),
        None => None,
    }
}

fn agree_string(a: Option<String>, b: &Option<String>) -> (r: Option<String>)
    ensures
        str_opt(r) == agree(str_opt(a), str_opt(*b)),
{
    match (&a, b) {
        (Some(x), Some(y)) => {
            if *x == *y {
                a
            } else {
                None
            }
        },
        (None, None) => None,
        _ => None,
    }
}

fn agree_stops(a: Option<Vec<i64>>, b: &Option<Vec<i64>>) -> (r: Option<Vec<i64>>)
    ensures
        stops_opt(r) == agree(stops_opt(a), stops_opt(*b)),
{
    match (&a, b) {
        (Some(x), Some(y)) => {
            if stops_eq(x, y) {
                a
            } else {
                None
            }
        },
        (None, None) => None,
        _ => None,
    }
}

fn agree_int(a: Option<i64>, b: Option<i64>) -> (r: Option<i64>)
    ensures
        r == agree(a, b),
{
    match (a, b) {
        (Some(x), Some(y)) => {
            if x == y {
                a
            } else {
                None
            }
        },
        (None, None) => None,
        _ => None,
    }
}

fn agree_bool(a: Option<bool>, b: Option<bool>) -> (r: Option<bool>)
    ensures
        r == agree(a, b),
{
    match (a, b) {
        (Some(x), Some(y)) => {
            if x == y {
                a
            } else {
                None
            }
        },
        (None, None) => None,
        _ => None,
    }
}

fn agree_color(a: Option<Color>, b: Option<Color>) -> (r: Option<Color>)
    ensures
        r == agree(a, b),
{
    match (a, b) {
        (Some(x), Some(y)) => {
            if x == y {
                a
            } else {
                None
            }
        },
        (None, None) => None,
        _ => None,
    }
}

fn agree_align(a: Option<TextAlign>, b: Option<TextAlign>) -> (r: Option<TextAlign>)
    ensures
        r == agree(a, b),
{
    match (a, b) {
        (Some(x), Some(y)) => {
            if x == y {
                a
            } else {
                None
            }
        },
        (None, None) => None,
        _ => None,
    }
}

fn prefer_copy<T: Copy>(over: Option<T>, under: Option<T>) -> (r: Option<T>)
    ensures
        r == prefer(over, under),
{
    match over {
        Some(v) => Some(v),
        None => under,
    }
}

fn prefer_string(over: &Option<String>, under: &Option<String>) -> (r: Option<String>)
    ensures
        str_opt(r) == prefer(str_opt(*over), str_opt(*under)),
{
    match over {
        Some(v) => Some(copy_string(v)),
        None => copy_opt_string(under),
    }
}

fn prefer_stops(over: &Option<Vec<i64>>, under: &Option<Vec<i64>>) -> (r: Option<Vec<i64>>)
    ensures
        stops_opt(r) == prefer(stops_opt(*over), stops_opt(*under)),
{
    match over {
        Some(v) => Some(copy_stops(v)),
        None => copy_opt_stops(under),
    }
}

impl TextFormat {
    /// Layers `inner` over this format: each attribute that `inner` defines
    /// wins, the others fall through to this format.
    pub fn layered(&self, inner: &TextFormat) -> (r: TextFormat)
        ensures
            r@ == self@.layered(inner@),
    {
        TextFormat {
            font: prefer_string(&inner.font, &self.font),
            size: prefer_copy(inner.size, self.size),
            color: prefer_copy(inner.color, self.color),
            align: prefer_copy(inner.align, self.align),
            bold: prefer_copy(inner.bold, self.bold),
            italic: prefer_copy(inner.italic, self.italic),
            underline: prefer_copy(inner.underline, self.underline),
            left_margin: prefer_copy(inner.left_margin, self.left_margin),
            right_margin: prefer_copy(inner.right_margin, self.right_margin),
            indent: prefer_copy(inner.indent, self.indent),
            block_indent: prefer_copy(inner.block_indent, self.block_indent),
            kerning: prefer_copy(inner.kerning, self.kerning),
            leading: prefer_copy(inner.leading, self.leading),
            letter_spacing: prefer_copy(inner.letter_spacing, self.letter_spacing),
            tab_stops: prefer_stops(&inner.tab_stops, &self.tab_stops),
            bullet: prefer_copy(inner.bullet, self.bullet),
            url: prefer_string(&inner.url, &self.url),
            target: prefer_string(&inner.target, &self.target),
        }
    }

    /// The format with every attribute undefined.
    pub fn unset() -> (r: TextFormat)
        ensures
            r@ == FormatView::unset(),
    {
        TextFormat {
            font: None,
            size: None,
            color: None,
            align: None,
            bold: None,
            italic: None,
            underline: None,
            left_margin: None,
            right_margin: None,
            indent: None,
            block_indent: None,
            kerning: None,
            leading: None,
            letter_spacing: None,
            tab_stops: None,
            bullet: None,
            url: None,
            target: None,
        }
    }

    /// A copy of this format.
    pub fn duplicate(&self) -> (r: TextFormat)
        ensures
            r@ == self@,
    {
        TextFormat {
            font: copy_opt_string(&self.font),
            size: self.size,
            color: self.color,
            align: self.align,
            bold: self.bold,
            italic: self.italic,
            underline: self.underline,
            left_margin: self.left_margin,
            right_margin: self.right_margin,
            indent: self.indent,
            block_indent: self.block_indent,
            kerning: self.kerning,
            leading: self.leading,
            letter_spacing: self.letter_spacing,
            tab_stops: copy_opt_stops(&self.tab_stops),
            bullet: self.bullet,
            url: copy_opt_string(&self.url),
            target: copy_opt_string(&self.target),
        }
    }

    /// Given two text formats, construct a new `TextFormat` where only
    /// matching properties between the two formats are defined.
    pub fn merge_matching_properties(self, rhs: TextFormat) -> (r: TextFormat)
        ensures
            r@ == self@.common(rhs@),
    {
        TextFormat {
            font: agree_string(self.font, &rhs.font),
            size: agree_int(self.size, rhs.size),
            color: agree_color(self.color, rhs.color),
            align: agree_align(self.align, rhs.align),
            bold: agree_bool(self.bold, rhs.bold),
            italic: agree_bool(self.italic, rhs.italic),
            underline: agree_bool(self.underline, rhs.underline),
            left_margin: agree_int(self.left_margin, rhs.left_margin),
            right_margin: agree_int(self.right_margin, rhs.right_margin),
            indent: agree_int(self.indent, rhs.indent),
            block_indent: agree_int(self.block_indent, rhs.block_indent),
            kerning: agree_bool(self.kerning, rhs.kerning),
            leading: agree_int(self.leading, rhs.leading),
            letter_spacing: agree_int(self.letter_spacing, rhs.letter_spacing),
            tab_stops: agree_stops(self.tab_stops, &rhs.tab_stops),
            bullet: agree_bool(self.bullet, rhs.bullet),
            url: agree_string(self.url, &rhs.url),
            target: agree_string(self.target, &rhs.target),
        }
    }
}

impl Default for TextFormat {
    fn default() -> (r: TextFormat)
        ensures
            r@ == FormatView::unset(),
    {
        TextFormat::unset()
    }
}

} // verus!
