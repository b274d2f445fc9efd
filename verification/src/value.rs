//! Scalar kinds and the values a setting can hold.

use vstd::prelude::*;
use crate::chars::{from_chars, to_chars};
use crate::number::{is_float_literal, scan_float};

verus! {

/// The kind of value a scalar setting holds.
#[derive(Debug, PartialEq, Eq, Clone, Copy, Structural)]
pub enum OptionType {
    IntegerType,
    Int64Type,
    FloatType,
    StringType,
    BooleanType,
}

/// What a setting is: a group, an array, a list, or a scalar of some kind.
#[derive(Debug, PartialEq, Eq, Clone, Copy, Structural)]
pub enum SettingKind {
    Group,
    Array,
    List,
    Scalar(OptionType),
}

/// How an integer is written out: in decimal or in hexadecimal.
#[derive(Debug, PartialEq, Eq, Clone, Copy, Structural)]
pub enum Format {
    Decimal,
    Hex,
}

/// A floating-point number, held as the decimal literal that writes it, so
/// that reading a document and writing it out again changes no digit.
#[derive(Debug)]
pub struct Float {
    text: String,
}

impl View for Float {
    type V = Seq<char>;

    closed spec fn view(&self) -> Seq<char> {
        self.text@
    }
}

impl Float {
    #[verifier::type_invariant]
    spec fn well_formed(self) -> bool {
        is_float_literal(self.text@)
    }

    /// The number that `text` writes, where `text` is a floating-point
    /// literal: an optional sign, digits with a point among or after them
    /// and an optional exponent, or digits and an exponent.
    pub fn parse(text: &str) -> (r: Option<Float>)
        ensures
            r is Some <==> is_float_literal(text@),
            r matches Some(f) ==> f@ == text@,
    {
        Float::from_string(text.to_owned())
    }

    /// The number that the characters `v[from..to]` write.
    pub fn from_slice(v: &Vec<char>, from: usize, to: usize) -> (r: Option<Float>)
        requires
            from <= to <= v.len(),
        ensures
            r is Some <==> is_float_literal(v@.subrange(from as int, to as int)),
            r matches Some(f) ==> f@ == v@.subrange(from as int, to as int),
    {
        Float::from_string(from_chars(v, from, to))
    }

    fn from_string(text: String) -> (r: Option<Float>)
        ensures
            r is Some <==> is_float_literal(text@),
            r matches Some(f) ==> f@ == text@,
    {
        let w = to_chars(text.as_str());
        match scan_float(&w, 0) {
            Some(j) => {
                if j == w.len() {
                    Some(Float { text })
                } else {
                    None
                }
            },
            None => None,
        }
    }

    /// The literal, as it was given.
    pub fn text(&self) -> (r: String)
        ensures
            r@ == self@,
            is_float_literal(self@),
    {
        proof {
            use_type_invariant(self);
        }
        self.text.clone()
    }

    /// A copy of the number.
    pub fn duplicate(&self) -> (r: Float)
        ensures
            r@ == self@,
            is_float_literal(self@),
    {
        proof {
            use_type_invariant(self);
        }
        Float { text: self.text.clone() }
    }
}

/// The payload of a scalar setting.
#[derive(Debug)]
pub enum Value {
    Int32(i32),
    Int64(i64),
    Float64(Float),
    Bool(bool),
    Str(String),
}

/// What a `Value` stands for.
pub enum ValueView {
    Int32(i32),
    Int64(i64),
    Float64(Seq<char>),
    Bool(bool),
    Str(Seq<char>),
}

impl ValueView {
    /// The kind of the value.
    pub open spec fn kind(self) -> OptionType {
        match self {
            ValueView::Int32(_) => OptionType::IntegerType,
            ValueView::Int64(_) => OptionType::Int64Type,
            ValueView::Float64(_) => OptionType::FloatType,
            ValueView::Bool(_) => OptionType::BooleanType,
            ValueView::Str(_) => OptionType::StringType,
        }
    }

    /// A floating-point payload is a floating-point literal.
    pub open spec fn wf(self) -> bool {
        self matches ValueView::Float64(t) ==> is_float_literal(t)
    }

    /// Whether the value is an integer, of either width.
    pub open spec fn is_integer(self) -> bool {
        self is Int32 || self is Int64
    }
}

impl View for Value {
    type V = ValueView;

    open spec fn view(&self) -> ValueView {
        match self {
            Value::Int32(v) => ValueView::Int32(*v),
            Value::Int64(v) => ValueView::Int64(*v),
            Value::Float64(f) => ValueView::Float64(f@),
            Value::Bool(b) => ValueView::Bool(*b),
            Value::Str(s) => ValueView::Str(s@),
        }
    }
}

impl Value {
    /// The kind of the value.
    pub fn kind(&self) -> (k: OptionType)
        ensures
            k == self@.kind(),
    {
        match self {
            Value::Int32(_) => OptionType::IntegerType,
            Value::Int64(_) => OptionType::Int64Type,
            Value::Float64(_) => OptionType::FloatType,
            Value::Bool(_) => OptionType::BooleanType,
            Value::Str(_) => OptionType::StringType,
        }
    }

    /// Every value is well formed; calling this lets a proof know it.
    pub fn witness(&self)
        ensures
            self@.wf(),
    {
        match self {
            Value::Float64(f) => {
                let _ = f.text();
            },
            _ => {},
        }
    }

    /// A copy of the value.
    pub fn duplicate(&self) -> (r: Value)
        ensures
            r@ == self@,
            self@.wf(),
    {
        match self {
            Value::Int32(v) => Value::Int32(*v),
            Value::Int64(v) => Value::Int64(*v),
            Value::Float64(f) => Value::Float64(f.duplicate()),
            Value::Bool(b) => Value::Bool(*b),
            Value::Str(s) => Value::Str(s.clone()),
        }
    }
}

} // verus!
