//! Properties of script objects and their attributes.
use vstd::prelude::*;

use crate::avm1::{Object, Value, ValueView};

verus! {

/// Attributes of properties in the script runtime.
#[derive(Clone, Copy, Debug, PartialEq, Eq, Structural)]
pub enum Attribute {
    DontEnum,
    DontDelete,
    ReadOnly,
}

/// A set of `Attribute`s.
#[derive(Clone, Copy, Debug, PartialEq, Eq, Structural)]
pub struct Attributes {
    pub dont_enum: bool,
    pub dont_delete: bool,
    pub read_only: bool,
}

impl Attributes {
    /// Whether the set holds `a`.
    pub open spec fn has(self, a: Attribute) -> bool {
        match a {
            Attribute::DontEnum => self.dont_enum,
            Attribute::DontDelete => self.dont_delete,
            Attribute::ReadOnly => self.read_only,
        }
    }

    /// The empty set.
    pub fn empty() -> (r: Attributes)
        ensures
            forall|a: Attribute| !r.has(a),
    {
        Attributes { dont_enum: false, dont_delete: false, read_only: false }
    }

    /// The set with `a` added.
    pub fn with(self, a: Attribute) -> (r: Attributes)
        ensures
            forall|b: Attribute| r.has(b) == (self.has(b) || b == a),
    {
        match a {
            Attribute::DontEnum => Attributes { dont_enum: true, ..self },
            Attribute::DontDelete => Attributes { dont_delete: true, ..self },
            Attribute::ReadOnly => Attributes { read_only: true, ..self },
        }
    }

    /// Whether the set holds `a`.
    pub fn contains(&self, a: Attribute) -> (r: bool)
        ensures
            r == self.has(a),
    {
        match a {
            Attribute::DontEnum => self.dont_enum,
            Attribute::DontDelete => self.dont_delete,
            Attribute::ReadOnly => self.read_only,
        }
    }
}

/// What reading a property yields: a stored value, or the getter that
/// computes it.
#[derive(Clone, Debug)]
pub enum Lookup<F> {
    Stored(Value),
    Getter(F),
}

/// A property slot: a virtual property with a getter and an optional
/// setter (functions of type `F`), or a stored value.
#[derive(Clone, Debug)]
pub enum Property<F> {
    Virtual { get: F, set: Option<F>, attributes: Attributes },
    Stored { value: Value, attributes: Attributes },
}

impl<F: Copy> Property<F> {
    /// The attributes of a property.
    pub open spec fn attrs(&self) -> Attributes {
        match self {
            Property::Virtual { attributes, .. } => *attributes,
            Property::Stored { attributes, .. } => *attributes,
        }
    }

    /// Reads the property: a stored value, or the getter to run.
    pub fn get(&self) -> (r: Lookup<F>)
        ensures
            match self {
                Property::Virtual { get, .. } => r == Lookup::Getter(*get),
                Property::Stored { value, .. } => r matches Lookup::Stored(v) && v@ == value@,
            },
    {
        match self {
            Property::Virtual { get, .. } => Lookup::Getter(*get),
            Property::Stored { value, .. } => Lookup::Stored(value.duplicate()),
        }
    }

    /// Sets the property. A stored property that is not read-only takes
    /// the value; a virtual property hands back its setter, if any, for the
    /// caller to run.
    pub fn set(&mut self, new_value: Value) -> (r: Option<F>)
        ensures
            match *old(self) {
                Property::Virtual { set, .. } => r == set && *final(self) == *old(self),
                Property::Stored { value, attributes } => r is None && (if attributes.read_only {
                    *final(self) == *old(self)
                } else {
                    (*final(self) matches Property::Stored { value: v, .. } && v@ == new_value@)
                        && final(self).attrs() == attributes
                }),
            },
    {
        match self {
            Property::Virtual { set, .. } => *set,
            Property::Stored { value, attributes } => {
                if !attributes.read_only {
                    *value = new_value;
                }
                None
            },
        }
    }

    /// The property's attributes.
    pub fn attributes(&self) -> (r: Attributes)
        ensures
            r == self.attrs(),
    {
        match self {
            Property::Virtual { attributes, .. } => *attributes,
            Property::Stored { attributes, .. } => *attributes,
        }
    }

    /// Replaces the property's attributes.
    pub fn set_attributes(&mut self, new_attributes: Attributes)
        ensures
            final(self).attrs() == new_attributes,
            match (*old(self), *final(self)) {
                (Property::Virtual { get: g0, set: s0, .. }, Property::Virtual { get: g1, set: s1, .. }) => g0
                    == g1 && s0 == s1,
                (Property::Stored { value: v0, .. }, Property::Stored { value: v1, .. }) => v0 == v1,
                _ => false,
            },
    {
        match self {
            Property::Virtual { attributes, .. } => *attributes = new_attributes,
            Property::Stored { attributes, .. } => *attributes = new_attributes,
        }
    }

    /// Whether the property may be deleted.
    pub fn can_delete(&self) -> (r: bool)
        ensures
            r == !self.attrs().dont_delete,
    {
        !self.attributes().contains(Attribute::DontDelete)
    }

    /// Whether the property is listed when the object is enumerated.
    pub fn is_enumerable(&self) -> (r: bool)
        ensures
            r == !self.attrs().dont_enum,
    {
        !self.attributes().contains(Attribute::DontEnum)
    }

    /// Whether setting the property has an effect: it is not read-only and,
    /// when virtual, has a setter.
    pub fn is_overwritable(&self) -> (r: bool)
        ensures
            r == (!self.attrs().read_only && match self {
                Property::Virtual { set, .. } => set is Some,
                Property::Stored { .. } => true,
            }),
    {
        match self {
            Property::Virtual { attributes, set, .. } => !attributes.contains(Attribute::ReadOnly)
                && set.is_some(),
            Property::Stored { attributes, .. } => !attributes.contains(Attribute::ReadOnly),
        }
    }

    /// Whether the property is virtual.
    pub fn is_virtual(&self) -> (r: bool)
        ensures
            r == (self is Virtual),
    {
        match self {
            Property::Virtual { .. } => true,
            Property::Stored { .. } => false,
        }
    }
}

/// The first argument, or `Undefined` when there is none.
pub open spec fn first_arg(args: Seq<Value>) -> ValueView {
    if args.len() > 0 {
        args[0]@
    } else {
        ValueView::Undefined
    }
}

fn first_argument(args: &[Value]) -> (r: Value)
    ensures
        r@ == first_arg(args@),
{
    if args.len() > 0 {
        args[0].duplicate()
    } else {
        Value::Undefined
    }
}

/// Replaces `_root` on `this` with the first argument (`Undefined` when
/// there is none); returns `Undefined`.
pub fn overwrite_root(this: &mut Object, args: &[Value]) -> (r: Option<Value>)
    ensures
        final(this)@ == old(this)@.insert("_root"@, first_arg(args@)),
        r matches Some(v) && v@ == ValueView::Undefined,
{
    this.set("_root", first_argument(args));
    Some(Value::Undefined)
}

/// Replaces `_global` on `this` with the first argument (`Undefined` when
/// there is none); returns `Undefined`.
pub fn overwrite_global(this: &mut Object, args: &[Value]) -> (r: Option<Value>)
    ensures
        final(this)@ == old(this)@.insert("_global"@, first_arg(args@)),
        r matches Some(v) && v@ == ValueView::Undefined,
{
    this.set("_global", first_argument(args));
    Some(Value::Undefined)
}

} // verus!
