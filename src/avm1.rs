//! Script values and objects, and the bridge between them and text formats.
use vstd::prelude::*;

use crate::format::{Color, FormatView, TextAlign, TextFormat};
use crate::parse::{chars_of, int_value, parse_int, same_chars};

verus! {

/// A value of the scripting runtime.
#[derive(Clone, Debug)]
pub enum Value {
    Undefined,
    Null,
    Bool(bool),
    Number(i64),
    Str(String),
}

/// The mathematical content of a `Value`.
pub enum ValueView {
    Undefined,
    Null,
    Bool(bool),
    Number(i64),
    Str(Seq<char>),
}

impl View for Value {
    type V = ValueView;

    open spec fn view(&self) -> ValueView {
        match self {
            Value::Undefined => ValueView::Undefined,
            Value::Null => ValueView::Null,
            Value::Bool(b) => ValueView::Bool(*b),
            Value::Number(n) => ValueView::Number(*n),
            Value::Str(s) => ValueView::Str(s@),
        }
    }
}

/// A script object: a set of named properties.
#[derive(Clone, Debug)]
pub struct Object {
    entries: Vec<(String, Value)>,
}

/// The properties that a list of assignments leaves, later ones winning.
pub open spec fn entries_map(s: Seq<(Seq<char>, ValueView)>) -> Map<Seq<char>, ValueView>
    decreases s.len(),
{
    if s.len() == 0 {
        Map::empty()
    } else {
        entries_map(s.drop_last()).insert(s.last().0, s.last().1)
    }
}

pub open spec fn entry_views(s: Seq<(String, Value)>) -> Seq<(Seq<char>, ValueView)> {
    s.map_values(|e: (String, Value)| (e.0@, e.1@))
}

impl View for Object {
    type V = Map<Seq<char>, ValueView>;

    closed spec fn view(&self) -> Map<Seq<char>, ValueView> {
        entries_map(entry_views(self.entries@))
    }
}

/// The value of property `name`, `Undefined` where there is none.
pub open spec fn property(m: Map<Seq<char>, ValueView>, name: Seq<char>) -> ValueView {
    if m.contains_key(name) {
        m[name]
    } else {
        ValueView::Undefined
    }
}

pub open spec fn digit_char(d: nat) -> char {
    if d == 0 {
        '0'
    } else if d == 1 {
        '1'
    } else if d == 2 {
        '2'
    } else if d == 3 {
        '3'
    } else if d == 4 {
        '4'
    } else if d == 5 {
        '5'
    } else if d == 6 {
        '6'
    } else if d == 7 {
        '7'
    } else if d == 8 {
        '8'
    } else {
        '9'
    }
}

/// The decimal digits of `n`.
pub open spec fn decimal_chars(n: nat) -> Seq<char>
    decreases n,
{
    if n < 10 {
        seq![digit_char(n)]
    } else {
        decimal_chars(n / 10).push(digit_char(n % 10))
    }
}

/// `n` written in decimal, with a leading `-` when negative.
pub open spec fn number_chars(n: i64) -> Seq<char> {
    if n < 0 {
        seq!['-'] + decimal_chars((-n) as nat)
    } else {
        decimal_chars(n as nat)
    }
}

/// A value converted to a string.
pub open spec fn coerce_str(v: ValueView) -> Seq<char> {
    match v {
        ValueView::Undefined => "undefined"@,
        ValueView::Null => "null"@,
        ValueView::Bool(b) => if b {
            "true"@
        } else {
            "false"@
        },
        ValueView::Number(n) => number_chars(n),
        ValueView::Str(s) => s,
    }
}

/// A value converted to a number; strings that spell no integer convert to
/// nothing.
pub open spec fn coerce_number(v: ValueView) -> Option<i64> {
    match v {
        ValueView::Bool(b) => Some(if b {
            1i64
        } else {
            0i64
        }),
        ValueView::Number(n) => Some(n),
        ValueView::Str(s) => int_value(s),
        _ => None,
    }
}

/// A value converted to a boolean: numbers are true unless zero, strings
/// unless empty.
pub open spec fn coerce_bool(v: ValueView) -> bool {
    match v {
        ValueView::Bool(b) => b,
        ValueView::Number(n) => n != 0,
        ValueView::Str(s) => s.len() > 0,
        _ => false,
    }
}

/// Whether a value stands for an unset attribute.
pub open spec fn is_unset(v: ValueView) -> bool {
    v is Undefined || v is Null
}

/// The string attribute `name`.
pub open spec fn str_attr(m: Map<Seq<char>, ValueView>, name: Seq<char>) -> Option<Seq<char>> {
    if is_unset(property(m, name)) {
        None
    } else {
        Some(coerce_str(property(m, name)))
    }
}

/// The numeric attribute `name`.
pub open spec fn number_attr_of(m: Map<Seq<char>, ValueView>, name: Seq<char>) -> Option<i64> {
    if is_unset(property(m, name)) {
        None
    } else {
        coerce_number(property(m, name))
    }
}

/// The boolean attribute `name`.
pub open spec fn bool_attr(m: Map<Seq<char>, ValueView>, name: Seq<char>) -> Option<bool> {
    if is_unset(property(m, name)) {
        None
    } else {
        Some(coerce_bool(property(m, name)))
    }
}

/// Relies on `String`'s `FromIterator<char>`: the string holds the
/// characters in order.
#[verifier::external_body]
fn string_from_chars(v: &Vec<char>) -> (r: String)
    ensures
        r@ == v@,
{
    v.iter().collect()
}

fn digit_to_char(d: u64) -> (r: char)
    requires
        d < 10,
    ensures
        r == digit_char(d as nat),
{
    if d == 0 {
        '0'
    } else if d == 1 {
        '1'
    } else if d == 2 {
        '2'
    } else if d == 3 {
        '3'
    } else if d == 4 {
        '4'
    } else if d == 5 {
        '5'
    } else if d == 6 {
        '6'
    } else if d == 7 {
        '7'
    } else if d == 8 {
        '8'
    } else {
        '9'
    }
}

fn push_decimal(n: u64, out: &mut Vec<char>)
    ensures
        final(out)@ == old(out)@ + decimal_chars(n as nat),
    decreases n,
{
    if n < 10 {
        out.push(digit_to_char(n));
        assert(final(out)@ =~= old(out)@ + decimal_chars(n as nat));
    } else {
        push_decimal(n / 10, out);
        out.push(digit_to_char(n % 10));
        assert(final(out)@ =~= old(out)@ + decimal_chars(n as nat));
    }
}

/// `n` written in decimal.
pub fn number_to_string(n: i64) -> (r: String)
    ensures
        r@ == number_chars(n),
{
    let mut out: Vec<char> = Vec::new();
    if n < 0 {
        out.push('-');
        let magnitude: u64 = if n == i64::MIN {
            9223372036854775808u64
        } else {
            (-n) as u64
        };
        push_decimal(magnitude, &mut out);
        assert(out@ =~= seq!['-'] + decimal_chars((-n) as nat));
    } else {
        push_decimal(n as u64, &mut out);
        assert(out@ =~= decimal_chars(n as nat));
    }
    string_from_chars(&out)
}

impl Value {
    /// A copy of this value.
    pub fn duplicate(&self) -> (r: Value)
        ensures
            r@ == self@,
    {
        match self {
            Value::Undefined => Value::Undefined,
            Value::Null => Value::Null,
            Value::Bool(b) => Value::Bool(*b),
            Value::Number(n) => Value::Number(*n),
            Value::Str(s) => Value::Str(s.clone()),
        }
    }

    /// This value converted to a string.
    pub fn coerce_to_string(&self) -> (r: String)
        ensures
            r@ == coerce_str(self@),
    {
        match self {
            Value::Undefined => "undefined".to_owned(),
            Value::Null => "null".to_owned(),
            Value::Bool(b) => if *b {
                "true".to_owned()
            } else {
                "false".to_owned()
            },
            Value::Number(n) => number_to_string(*n),
            Value::Str(s) => s.clone(),
        }
    }

    /// This value converted to a number.
    pub fn coerce_to_number(&self) -> (r: Option<i64>)
        ensures
            r == coerce_number(self@),
    {
        match self {
            Value::Bool(b) => Some(if *b {
                1i64
            } else {
                0i64
            }),
            Value::Number(n) => Some(*n),
            Value::Str(s) => {
                let c = chars_of(s.as_str());
                parse_int(c.as_slice())
            },
            _ => None,
        }
    }

    /// This value converted to a boolean.
    pub fn as_bool(&self) -> (r: bool)
        ensures
            r == coerce_bool(self@),
    {
        match self {
            Value::Bool(b) => *b,
            Value::Number(n) => *n != 0,
            Value::Str(s) => s.as_str().unicode_len() > 0,
            _ => false,
        }
    }
}

/// Whether two strings are equal.
fn same_str(a: &str, b: &str) -> (r: bool)
    ensures
        r == (a@ == b@),
{
    let x = chars_of(a);
    let y = chars_of(b);
    same_chars(x.as_slice(), y.as_slice())
}

impl Object {
    /// An object without properties.
    pub fn new() -> (r: Object)
        ensures
            r@ == Map::<Seq<char>, ValueView>::empty(),
    {
        let r = Object { entries: Vec::new() };
        assert(entry_views(r.entries@) =~= Seq::<(Seq<char>, ValueView)>::empty());
        r
    }

    /// The value of property `name`, `Undefined` where there is none.
    pub fn get(&self, name: &str) -> (r: Value)
        ensures
            r@ == property(self@, name@),
    {
        let ghost s = entry_views(self.entries@);
        let mut i: usize = self.entries.len();
        assert(s.take(i as int) =~= s);
        while i > 0
            invariant
                i <= s.len(),
                s == entry_views(self.entries@),
                property(entries_map(s), name@) == property(entries_map(s.take(i as int)), name@),
            decreases i,
        {
            let entry = &self.entries[i - 1];
            assert(s.take(i as int).drop_last() =~= s.take(i - 1));
            assert(s.take(i as int).last() == (entry.0@, entry.1@));
            if same_str(entry.0.as_str(), name) {
                return entry.1.duplicate();
            }
            i = i - 1;
        }
        assert(s.take(0) =~= Seq::<(Seq<char>, ValueView)>::empty());
        Value::Undefined
    }

    /// Sets property `name` to `value`.
    pub fn set(&mut self, name: &str, value: Value)
        ensures
            final(self)@ == old(self)@.insert(name@, value@),
    {
        let ghost s = entry_views(self.entries@);
        let ghost v = value@;
        self.entries.push((name.to_owned(), value));
        assert(entry_views(self.entries@) =~= s.push((name@, v)));
        assert(entry_views(self.entries@).drop_last() =~= s);
    }
}

/// Reads the string attribute `name`: a missing, undefined or null property
/// gives `None`, any other value is converted to a string.
pub fn getstr_from_avm1_object(object: &Object, name: &str) -> (r: Option<String>)
    ensures
        match r {
            Some(s) => str_attr(object@, name@) == Some(s@),
            None => str_attr(object@, name@) is None,
        },
{
    match object.get(name) {
        Value::Undefined => None,
        Value::Null => None,
        v => Some(v.coerce_to_string()),
    }
}

/// Reads the numeric attribute `name`: a missing, undefined or null
/// property, or one that converts to no number, gives `None`.
pub fn getnum_from_avm1_object(object: &Object, name: &str) -> (r: Option<i64>)
    ensures
        r == number_attr_of(object@, name@),
{
    match object.get(name) {
        Value::Undefined => None,
        Value::Null => None,
        v => v.coerce_to_number(),
    }
}

/// Reads the boolean attribute `name`: a missing, undefined or null
/// property gives `None`, any other value is converted to a boolean.
pub fn getbool_from_avm1_object(object: &Object, name: &str) -> (r: Option<bool>)
    ensures
        r == bool_attr(object@, name@),
{
    match object.get(name) {
        Value::Undefined => None,
        Value::Null => None,
        v => Some(v.as_bool()),
    }
}

/// `a` equals the lower-case word `w` when ASCII case is ignored.
pub open spec fn same_word(a: Seq<char>, w: Seq<char>) -> bool {
    &&& a.len() == w.len()
    &&& forall|i: int|
        0 <= i < a.len() ==> #[trigger] a[i] == w[i] || ('a' <= w[i] && w[i] <= 'z' && a[i] as u32
            + 32 == w[i] as u32)
}

/// The alignment that a name spells, ignoring ASCII case.
pub open spec fn align_named(s: Seq<char>) -> Option<TextAlign> {
    if same_word(s, "left"@) {
        Some(TextAlign::Left)
    } else if same_word(s, "center"@) {
        Some(TextAlign::Center)
    } else if same_word(s, "right"@) {
        Some(TextAlign::Right)
    } else if same_word(s, "justify"@) {
        Some(TextAlign::Justify)
    } else {
        None
    }
}

/// The opaque colour that a packed `0xRRGGBB` number holds; numbers outside
/// the range of `u32` are clamped to it first.
pub open spec fn rgb_color(v: i64) -> Color {
    let c: int = if v < 0 {
        0
    } else if v > 0xFFFF_FFFF {
        0xFFFF_FFFF
    } else {
        v as int
    };
    Color { r: ((c / 65536) % 256) as u8, g: ((c / 256) % 256) as u8, b: (c % 256) as u8, a: 255 }
}

/// The format that the attributes of a script object describe.
pub open spec fn format_of_object(m: Map<Seq<char>, ValueView>) -> FormatView {
    FormatView {
        font: str_attr(m, "font"@),
        size: number_attr_of(m, "size"@),
        color: match number_attr_of(m, "color"@) {
            Some(v) => Some(rgb_color(v)),
            None => None,
        },
        align: match str_attr(m, "align"@) {
            Some(a) => align_named(a),
            None => None,
        },
        bold: bool_attr(m, "bold"@),
        italic: bool_attr(m, "italic"@),
        underline: bool_attr(m, "underline"@),
        left_margin: number_attr_of(m, "leftMargin"@),
        right_margin: number_attr_of(m, "rightMargin"@),
        indent: number_attr_of(m, "indent"@),
        block_indent: number_attr_of(m, "blockIndent"@),
        kerning: bool_attr(m, "kerning"@),
        leading: number_attr_of(m, "leading"@),
        letter_spacing: number_attr_of(m, "letterSpacing"@),
        tab_stops: None,
        bullet: bool_attr(m, "bullet"@),
        url: str_attr(m, "url"@),
        target: str_attr(m, "target"@),
    }
}

pub open spec fn str_or_null(o: Option<Seq<char>>) -> ValueView {
    match o {
        Some(s) => ValueView::Str(s),
        None => ValueView::Null,
    }
}

pub open spec fn number_or_null(o: Option<i64>) -> ValueView {
    match o {
        Some(n) => ValueView::Number(n),
        None => ValueView::Null,
    }
}

pub open spec fn bool_or_null(o: Option<bool>) -> ValueView {
    match o {
        Some(b) => ValueView::Bool(b),
        None => ValueView::Null,
    }
}

/// The name of an alignment.
pub open spec fn align_name(a: TextAlign) -> Seq<char> {
    match a {
        TextAlign::Left => "left"@,
        TextAlign::Center => "center"@,
        TextAlign::Right => "right"@,
        TextAlign::Justify => "justify"@,
    }
}

/// The properties of a script object that describes format `f`: one per
/// attribute but the tab stops, `Null` where the attribute is undefined;
/// the colour is packed as `0xRRGGBB`.
pub open spec fn object_of_format(f: FormatView) -> Map<Seq<char>, ValueView> {
    Map::empty().insert("font"@, str_or_null(f.font)).insert("size"@, number_or_null(f.size)).insert(
        "color"@,
        match f.color {
            Some(c) => ValueView::Number((c.r * 65536 + c.g * 256 + c.b) as i64),
            None => ValueView::Null,
        },
    ).insert(
        "align"@,
        match f.align {
            Some(a) => ValueView::Str(align_name(a)),
            None => ValueView::Null,
        },
    ).insert("bold"@, bool_or_null(f.bold)).insert("italic"@, bool_or_null(f.italic)).insert(
        "underline"@,
        bool_or_null(f.underline),
    ).insert("leftMargin"@, number_or_null(f.left_margin)).insert(
        "rightMargin"@,
        number_or_null(f.right_margin),
    ).insert("indent"@, number_or_null(f.indent)).insert(
        "blockIndent"@,
        number_or_null(f.block_indent),
    ).insert("kerning"@, bool_or_null(f.kerning)).insert("leading"@, number_or_null(f.leading)).insert(
        "letterSpacing"@,
        number_or_null(f.letter_spacing),
    ).insert("bullet"@, bool_or_null(f.bullet)).insert("url"@, str_or_null(f.url)).insert(
        "target"@,
        str_or_null(f.target),
    )
}

fn word_matches(a: &str, w: &str) -> (r: bool)
    ensures
        r == same_word(a@, w@),
{
    let x = chars_of(a);
    let y = chars_of(w);
    if x.len() != y.len() {
        return false;
    }
    let mut i: usize = 0;
    while i < x.len()
        invariant
            x@ == a@,
            y@ == w@,
            x@.len() == y@.len(),
            i <= x@.len(),
            forall|j: int|
                0 <= j < i ==> #[trigger] x@[j] == y@[j] || ('a' <= y@[j] && y@[j] <= 'z' && x@[j]
                    as u32 + 32 == y@[j] as u32),
        decreases x@.len() - i,
    {
        let c = x[i];
        let d = y[i];
        if !(c == d || ('a' <= d && d <= 'z' && (d as u32) - 32 == c as u32)) {
            return false;
        }
        i = i + 1;
    }
    true
}

fn align_from_name(s: &str) -> (r: Option<TextAlign>)
    ensures
        r == align_named(s@),
{
    if word_matches(s, "left") {
        Some(TextAlign::Left)
    } else if word_matches(s, "center") {
        Some(TextAlign::Center)
    } else if word_matches(s, "right") {
        Some(TextAlign::Right)
    } else if word_matches(s, "justify") {
        Some(TextAlign::Justify)
    } else {
        None
    }
}

fn color_from_number(v: i64) -> (r: Color)
    ensures
        r == rgb_color(v),
{
    let c: u64 = if v < 0 {
        0
    } else if v > 0xFFFF_FFFF {
        0xFFFF_FFFF
    } else {
        v as u64
    };
    Color { r: ((c / 65536) % 256) as u8, g: ((c / 256) % 256) as u8, b: (c % 256) as u8, a: 255 }
}

fn str_value(o: &Option<String>) -> (r: Value)
    ensures
        r@ == str_or_null(crate::format::str_opt(*o)),
{
    match o {
        Some(s) => Value::Str(s.clone()),
        None => Value::Null,
    }
}

fn number_value(o: Option<i64>) -> (r: Value)
    ensures
        r@ == number_or_null(o),
{
    match o {
        Some(n) => Value::Number(n),
        None => Value::Null,
    }
}

fn bool_value(o: Option<bool>) -> (r: Value)
    ensures
        r@ == bool_or_null(o),
{
    match o {
        Some(b) => Value::Bool(b),
        None => Value::Null,
    }
}

impl TextFormat {
    /// Reads a format from the attributes of a script object: a missing,
    /// undefined or null property leaves its attribute undefined, any other
    /// value is converted to the attribute's type; the colour is a packed
    /// `0xRRGGBB` number and the alignment a name, compared ignoring ASCII
    /// case. Tab stops are not read.
    pub fn from_avm1_object(object: &Object) -> (r: TextFormat)
        ensures
            r@ == format_of_object(object@),
    {
        let font = getstr_from_avm1_object(object, "font");
        let align = match getstr_from_avm1_object(object, "align") {
            Some(a) => align_from_name(a.as_str()),
            None => None,
        };
        let color = match getnum_from_avm1_object(object, "color") {
            Some(v) => Some(color_from_number(v)),
            None => None,
        };
        let url = getstr_from_avm1_object(object, "url");
        let target = getstr_from_avm1_object(object, "target");
        TextFormat {
            font,
            size: getnum_from_avm1_object(object, "size"),
            color,
            align,
            bold: getbool_from_avm1_object(object, "bold"),
            italic: getbool_from_avm1_object(object, "italic"),
            underline: getbool_from_avm1_object(object, "underline"),
            left_margin: getnum_from_avm1_object(object, "leftMargin"),
            right_margin: getnum_from_avm1_object(object, "rightMargin"),
            indent: getnum_from_avm1_object(object, "indent"),
            block_indent: getnum_from_avm1_object(object, "blockIndent"),
            kerning: getbool_from_avm1_object(object, "kerning"),
            leading: getnum_from_avm1_object(object, "leading"),
            letter_spacing: getnum_from_avm1_object(object, "letterSpacing"),
            tab_stops: None,
            bullet: getbool_from_avm1_object(object, "bullet"),
            url,
            target,
        }
    }

    /// Writes this format as the attributes of a new script object (see
    /// `object_of_format`).
    pub fn as_avm1_object(&self) -> (r: Object)
        ensures
            r@ == object_of_format(self@),
    {
        let mut object = Object::new();
        object.set("font", str_value(&self.font));
        object.set("size", number_value(self.size));
        let color = match self.color {
            Some(c) => Value::Number((c.r as i64) * 65536 + (c.g as i64) * 256 + c.b as i64),
            None => Value::Null,
        };
        object.set("color", color);
        let align = match self.align {
            Some(TextAlign::Left) => Value::Str("left".to_owned()),
            Some(TextAlign::Center) => Value::Str("center".to_owned()),
            Some(TextAlign::Right) => Value::Str("right".to_owned()),
            Some(TextAlign::Justify) => Value::Str("justify".to_owned()),
            None => Value::Null,
        };
        object.set("align", align);
        object.set("bold", bool_value(self.bold));
        object.set("italic", bool_value(self.italic));
        object.set("underline", bool_value(self.underline));
        object.set("leftMargin", number_value(self.left_margin));
        object.set("rightMargin", number_value(self.right_margin));
        object.set("indent", number_value(self.indent));
        object.set("blockIndent", number_value(self.block_indent));
        object.set("kerning", bool_value(self.kerning));
        object.set("leading", number_value(self.leading));
        object.set("letterSpacing", number_value(self.letter_spacing));
        object.set("bullet", bool_value(self.bullet));
        object.set("url", str_value(&self.url));
        object.set("target", str_value(&self.target));
        object
    }
}

} // verus!
