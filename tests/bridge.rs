use rich_text::avm1::{getbool_from_avm1_object, getstr_from_avm1_object, number_to_string, Object, Value};
use rich_text::format::{Color, TextAlign, TextFormat};
use rich_text::property::{overwrite_global, overwrite_root, Attribute, Attributes, Lookup, Property};
use rich_text::tag::{EditTextLayout, EditTextTag};

#[test]
fn string_attributes_convert() {
    let mut o = Object::new();
    o.set("a", Value::Number(-42));
    o.set("b", Value::Bool(true));
    o.set("c", Value::Str("hi".to_string()));
    o.set("d", Value::Null);
    o.set("e", Value::Undefined);
    assert_eq!(getstr_from_avm1_object(&o, "a"), Some("-42".to_string()));
    assert_eq!(getstr_from_avm1_object(&o, "b"), Some("true".to_string()));
    assert_eq!(getstr_from_avm1_object(&o, "c"), Some("hi".to_string()));
    assert_eq!(getstr_from_avm1_object(&o, "d"), None);
    assert_eq!(getstr_from_avm1_object(&o, "e"), None);
    assert_eq!(getstr_from_avm1_object(&o, "missing"), None);
}

#[test]
fn boolean_attributes_convert() {
    let mut o = Object::new();
    o.set("zero", Value::Number(0));
    o.set("two", Value::Number(2));
    o.set("empty", Value::Str(String::new()));
    o.set("text", Value::Str("x".to_string()));
    o.set("no", Value::Bool(false));
    assert_eq!(getbool_from_avm1_object(&o, "zero"), Some(false));
    assert_eq!(getbool_from_avm1_object(&o, "two"), Some(true));
    assert_eq!(getbool_from_avm1_object(&o, "empty"), Some(false));
    assert_eq!(getbool_from_avm1_object(&o, "text"), Some(true));
    assert_eq!(getbool_from_avm1_object(&o, "no"), Some(false));
    assert_eq!(getbool_from_avm1_object(&o, "missing"), None);
}

#[test]
fn later_set_wins() {
    let mut o = Object::new();
    o.set("k", Value::Number(1));
    o.set("k", Value::Number(2));
    assert!(matches!(o.get("k"), Value::Number(2)));
    assert!(matches!(o.get("other"), Value::Undefined));
}

#[test]
fn numbers_print_in_decimal() {
    assert_eq!(number_to_string(0), "0");
    assert_eq!(number_to_string(1234567), "1234567");
    assert_eq!(number_to_string(-5), "-5");
    assert_eq!(number_to_string(i64::MIN), "-9223372036854775808");
}

#[test]
fn format_from_object() {
    let mut o = Object::new();
    o.set("font", Value::Str("Courier".to_string()));
    o.set("size", Value::Str("18".to_string()));
    o.set("color", Value::Number(0x12_34_56));
    o.set("align", Value::Str("CENTER".to_string()));
    o.set("bold", Value::Bool(true));
    o.set("leftMargin", Value::Number(4));
    o.set("url", Value::Null);
    let f = TextFormat::from_avm1_object(&o);
    assert_eq!(f.font, Some("Courier".to_string()));
    assert_eq!(f.size, Some(18));
    assert_eq!(f.color, Some(Color { r: 0x12, g: 0x34, b: 0x56, a: 255 }));
    assert_eq!(f.align, Some(TextAlign::Center));
    assert_eq!(f.bold, Some(true));
    assert_eq!(f.italic, None);
    assert_eq!(f.left_margin, Some(4));
    assert_eq!(f.url, None);
    assert_eq!(f.tab_stops, None);
}

#[test]
fn color_out_of_range_is_clamped() {
    let mut o = Object::new();
    o.set("color", Value::Number(-1));
    assert_eq!(TextFormat::from_avm1_object(&o).color, Some(Color { r: 0, g: 0, b: 0, a: 255 }));
    o.set("color", Value::Number(1 << 40));
    assert_eq!(
        TextFormat::from_avm1_object(&o).color,
        Some(Color { r: 255, g: 255, b: 255, a: 255 })
    );
}

#[test]
fn format_to_object_and_back() {
    let mut f = TextFormat::default();
    f.font = Some("Arial".to_string());
    f.color = Some(Color { r: 1, g: 2, b: 3, a: 255 });
    f.align = Some(TextAlign::Right);
    f.italic = Some(false);
    f.indent = Some(-2);
    let o = f.as_avm1_object();
    assert!(matches!(o.get("color"), Value::Number(66051)));
    assert!(matches!(o.get("size"), Value::Null));
    assert!(matches!(o.get("tabStops"), Value::Undefined));
    let back = TextFormat::from_avm1_object(&o);
    assert_eq!(back.font, f.font);
    assert_eq!(back.color, f.color);
    assert_eq!(back.align, f.align);
    assert_eq!(back.italic, f.italic);
    assert_eq!(back.indent, f.indent);
    assert_eq!(back.size, None);
}

#[test]
fn tag_format_converts_twips() {
    let tag = EditTextTag {
        font_class_name: Some("Serif".to_string()),
        height: Some(240),
        color: Some(Color { r: 9, g: 8, b: 7, a: 255 }),
        layout: Some(EditTextLayout {
            align: TextAlign::Justify,
            left_margin: 40,
            right_margin: 59,
            indent: -30,
            leading: 0,
        }),
    };
    let f = TextFormat::from_swf_tag(&tag);
    assert_eq!(f.font, Some("Serif".to_string()));
    assert_eq!(f.size, Some(12));
    assert_eq!(f.align, Some(TextAlign::Justify));
    assert_eq!(f.left_margin, Some(2));
    assert_eq!(f.right_margin, Some(2));
    assert_eq!(f.indent, Some(-1));
    assert_eq!(f.bold, None);
    assert_eq!(f.kerning, Some(true));
    assert_eq!(f.block_indent, Some(0));
    assert_eq!(f.tab_stops, Some(vec![]));
    assert_eq!(f.url, Some(String::new()));
}

#[test]
fn tag_without_layout() {
    let tag = EditTextTag { font_class_name: None, height: None, color: None, layout: None };
    let f = TextFormat::from_swf_tag(&tag);
    assert_eq!(f.size, None);
    assert_eq!(f.align, None);
    assert_eq!(f.leading, None);
    assert_eq!(f.bullet, Some(false));
}

#[test]
fn stored_property_respects_read_only() {
    let mut p: Property<u32> = Property::Stored {
        value: Value::Number(1),
        attributes: Attributes::empty().with(Attribute::ReadOnly),
    };
    assert_eq!(p.set(Value::Number(2)), None);
    assert!(matches!(p.get(), Lookup::Stored(Value::Number(1))));
    assert!(!p.is_overwritable());
    p.set_attributes(Attributes::empty());
    p.set(Value::Number(3));
    assert!(matches!(p.get(), Lookup::Stored(Value::Number(3))));
    assert!(p.is_overwritable());
    assert!(p.can_delete());
    assert!(p.is_enumerable());
    assert!(!p.is_virtual());
}

#[test]
fn virtual_property_hands_out_functions() {
    let mut p: Property<u32> = Property::Virtual {
        get: 7,
        set: Some(8),
        attributes: Attributes::empty().with(Attribute::DontEnum).with(Attribute::DontDelete),
    };
    assert!(matches!(p.get(), Lookup::Getter(7)));
    assert_eq!(p.set(Value::Null), Some(8));
    assert!(p.is_virtual());
    assert!(!p.is_enumerable());
    assert!(!p.can_delete());
    assert!(p.is_overwritable());
    assert!(p.attributes().contains(Attribute::DontEnum));
    assert!(!p.attributes().contains(Attribute::ReadOnly));
}

#[test]
fn root_and_global_overwrite() {
    let mut o = Object::new();
    let r = overwrite_root(&mut o, &[Value::Number(5), Value::Null]);
    assert!(matches!(r, Some(Value::Undefined)));
    assert!(matches!(o.get("_root"), Value::Number(5)));
    overwrite_global(&mut o, &[]);
    assert!(matches!(o.get("_global"), Value::Undefined));
}
