//! Text formats from decoded edit-text definitions.
use vstd::prelude::*;

use crate::format::{copy_opt_string, str_opt, Color, FormatView, TextAlign, TextFormat};

verus! {

/// The paragraph layout of an edit-text definition; lengths are in twips
/// (twentieths of a pixel).
#[derive(Clone, Copy, Debug, PartialEq, Eq, Structural)]
pub struct EditTextLayout {
    pub align: TextAlign,
    pub left_margin: i32,
    pub right_margin: i32,
    pub indent: i32,
    pub leading: i32,
}

/// The parts of a decoded edit-text definition that give its initial
/// format; the height is in twips.
#[derive(Clone, Debug)]
pub struct EditTextTag {
    pub font_class_name: Option<String>,
    pub height: Option<i32>,
    pub color: Option<Color>,
    pub layout: Option<EditTextLayout>,
}

/// A length in twips as whole pixels, rounded toward zero.
pub open spec fn twips_to_pixels(t: i32) -> i64 {
    if t >= 0 {
        (t / 20) as i64
    } else {
        (-((-t) / 20)) as i64
    }
}

pub open spec fn layout_length(l: Option<EditTextLayout>, f: spec_fn(EditTextLayout) -> i32) -> Option<i64> {
    match l {
        Some(x) => Some(twips_to_pixels(f(x))),
        None => None,
    }
}

/// The format that an edit-text definition gives its text. Bold, italic
/// and underline stay undefined; block indent, kerning, letter spacing, tab
/// stops, bullet, link and target get fixed initial values.
pub open spec fn tag_format(et: EditTextTag) -> FormatView {
    FormatView {
        font: str_opt(et.font_class_name),
        size: match et.height {
            Some(h) => Some(twips_to_pixels(h)),
            None => None,
        },
        color: et.color,
        align: match et.layout {
            Some(l) => Some(l.align),
            None => None,
        },
        bold: None,
        italic: None,
        underline: None,
        left_margin: layout_length(et.layout, |l: EditTextLayout| l.left_margin),
        right_margin: layout_length(et.layout, |l: EditTextLayout| l.right_margin),
        indent: layout_length(et.layout, |l: EditTextLayout| l.indent),
        block_indent: Some(0),
        kerning: Some(true),
        leading: layout_length(et.layout, |l: EditTextLayout| l.leading),
        letter_spacing: Some(0),
        tab_stops: Some(Seq::empty()),
        bullet: Some(false),
        url: Some(Seq::empty()),
        target: Some(Seq::empty()),
    }
}

fn to_pixels(t: i32) -> (r: i64)
    ensures
        r == twips_to_pixels(t),
{
    if t >= 0 {
        (t / 20) as i64
    } else {
        let m: i64 = -(t as i64);
        -(m / 20)
    }
}

impl TextFormat {
    /// The format that an edit-text definition gives its text (see
    /// `tag_format`).
    pub fn from_swf_tag(et: &EditTextTag) -> (r: TextFormat)
        ensures
            r@ == tag_format(*et),
    {
        let (align, left_margin, right_margin, indent, leading) = match et.layout {
            Some(l) => (
                Some(l.align),
                Some(to_pixels(l.left_margin)),
                Some(to_pixels(l.right_margin)),
                Some(to_pixels(l.indent)),
                Some(to_pixels(l.leading)),
            ),
            None => (None, None, None, None, None),
        };
        let r = TextFormat {
            font: copy_opt_string(&et.font_class_name),
            size: match et.height {
                Some(h) => Some(to_pixels(h)),
                None => None,
            },
            color: et.color,
            align,
            bold: None,
            italic: None,
            underline: None,
            left_margin,
            right_margin,
            indent,
            block_indent: Some(0),
            kerning: Some(true),
            leading,
            letter_spacing: Some(0),
            tab_stops: Some(Vec::new()),
            bullet: Some(false),
            url: Some(String::new()),
            target: Some(String::new()),
        };
        assert(r@ =~= tag_format(*et));
        r
    }
}

} // verus!
