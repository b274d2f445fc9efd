//! Changing a document through a handle: new groups, arrays and lists, new
//! scalars, and deletion.

use vstd::prelude::*;
use crate::chars::{check_name, to_chars};
use crate::config::{Config, Payload};
use crate::errors::Errors;
use crate::model::Content;
use crate::reader::OptionReader;
use crate::value::{Float, Format, OptionType, Value, ValueView};

verus! {

/// Writer for configuration option.
///
/// Like a reader, a writer is a handle that names a setting; the document
/// to change is handed to each call.
#[derive(Clone, Copy, Debug, PartialEq, Eq)]
pub struct OptionWriter {
    pub element: Option<usize>,
}

/// Writer for collection (array, list) option.
#[derive(Clone, Copy, Debug, PartialEq, Eq)]
pub struct CollectionWriter {
    pub element: Option<usize>,
}

impl Config {
    /// Adds an empty group, array or list called `name` to the group that
    /// `h` refers to, and returns the position of the new setting.
    pub(crate) fn add_aggregate(&mut self, h: Option<usize>, name: &str, payload: Payload) -> (r:
        Result<usize, Errors>)
        requires
            old(self).wf(),
            payload@.is_aggregate(),
        ensures
            final(self).wf(),
            match r {
                Ok(c) => {
                    &&& old(self)@.create_error(h, name@) is None
                    &&& c == old(self)@.nodes.len()
                    &&& final(self)@ == old(self)@.attach(
                        h.unwrap() as int,
                        Some(name@),
                        payload@,
                        Format::Decimal,
                    )
                },
                Err(e) => old(self)@.create_error(h, name@) == Some(e) && final(self)@ == old(self)@,
            },
    {
        let p = match self.validate(h) {
            Ok(p) => p,
            Err(e) => {
                return Err(e);
            },
        };
        match self.payload_at(p) {
            Payload::Group => {},
            _ => {
                return Err(Errors::NotAGroup);
            },
        }
        let chars = to_chars(name);
        if !check_name(&chars) {
            return Err(Errors::InvalidName);
        }
        let owned = name.to_owned();
        if self.find_member(p, &owned).is_some() {
            return Err(Errors::DuplicateName);
        }
        Ok(self.attach(p, Some(owned), payload, Format::Decimal))
    }

    /// Adds the scalar `value` to the group, array or list that `h` refers
    /// to: under `name` in a group, at the end of an array or a list. It
    /// returns the position of the new setting.
    pub(crate) fn add_scalar(&mut self, h: Option<usize>, name: &str, value: Value) -> (r: Result<
        usize,
        Errors,
    >)
        requires
            old(self).wf(),
            value@.wf(),
        ensures
            final(self).wf(),
            match r {
                Ok(c) => {
                    &&& old(self)@.write_error(h, name@, value@.kind()) is None
                    &&& c == old(self)@.nodes.len()
                    &&& final(self)@ == old(self)@.attach(
                        h.unwrap() as int,
                        old(self)@.member_name(h.unwrap() as int, name@),
                        Content::Scalar(value@),
                        Format::Decimal,
                    )
                },
                Err(e) => old(self)@.write_error(h, name@, value@.kind()) == Some(e) && final(self)@ == old(self)@,
            },
    {
        let p = match self.validate(h) {
            Ok(p) => p,
            Err(e) => {
                return Err(e);
            },
        };
        assert(self@.node_wf(p as int));
        match self.payload_at(p) {
            Payload::Group => {
                let chars = to_chars(name);
                if !check_name(&chars) {
                    return Err(Errors::InvalidName);
                }
                let owned = name.to_owned();
                if self.find_member(p, &owned).is_some() {
                    return Err(Errors::DuplicateName);
                }
                Ok(self.attach(p, Some(owned), Payload::Scalar(value), Format::Decimal))
            },
            Payload::Array => {
                let kids = self.children_at(p);
                if kids.len() > 0 {
                    let first = kids[0];
                    assert(self@.child_ok(p as int, kids@[0]));
                    let same = match self.payload_at(first) {
                        Payload::Scalar(v) => v.kind() == value.kind(),
                        _ => false,
                    };
                    if !same {
                        return Err(Errors::TypeMismatch);
                    }
                }
                Ok(self.attach(p, None, Payload::Scalar(value), Format::Decimal))
            },
            Payload::List => Ok(self.attach(p, None, Payload::Scalar(value), Format::Decimal)),
            Payload::Scalar(_) => Err(Errors::NotAnAggregate),
        }
    }

    /// Deletes the setting that `h` refers to, with all below it.
    pub(crate) fn remove(&mut self, h: Option<usize>) -> (r: Result<(), Errors>)
        requires
            old(self).wf(),
        ensures
            final(self).wf(),
            match r {
                Ok(_) => old(self)@.delete_error(h) is None && final(self)@ == old(self)@.detach(
                    h.unwrap() as int,
                ),
                Err(e) => old(self)@.delete_error(h) == Some(e) && final(self)@ == old(self)@,
            },
    {
        let i = match self.validate(h) {
            Ok(i) => i,
            Err(e) => {
                return Err(e);
            },
        };
        if self.parent_at(i).is_none() {
            return Err(Errors::ElementNotExists);
        }
        self.detach(i);
        Ok(())
    }
}

impl OptionWriter {
    /// A writer for the setting at `elem`, or for nothing.
    pub fn new(elem: Option<usize>) -> (w: OptionWriter)
        ensures
            w.element == elem,
    {
        OptionWriter { element: elem }
    }

    /// A reader for the same setting.
    pub fn reader(&self) -> (r: OptionReader)
        ensures
            r.element == self.element,
    {
        OptionReader { element: self.element }
    }

    /// Delete current config element.
    ///
    /// The element leaves its parent, and it and everything below it are
    /// gone for good: handles to them turn stale. The root cannot be
    /// deleted.
    pub fn delete(&self, cfg: &mut Config) -> (r: Result<(), Errors>)
        requires
            old(cfg).wf(),
        ensures
            final(cfg).wf(),
            match r {
                Ok(_) => old(cfg)@.delete_error(self.element) is None && final(cfg)@ == old(cfg)@.detach(self.element.unwrap() as int),
                Err(e) => old(cfg)@.delete_error(self.element) == Some(e) && final(cfg)@ == old(cfg)@,
            },
    {
        cfg.remove(self.element)
    }

    /// Gives the scalar element another value. The value is replaced as a
    /// whole, and is of the kind of the one before it.
    pub fn set_value(&self, cfg: &mut Config, value: Value) -> (r: Result<(), Errors>)
        requires
            old(cfg).wf(),
        ensures
            final(cfg).wf(),
            match r {
                Ok(_) => old(cfg)@.set_error(self.element, value@.kind()) is None && final(cfg)@
                    == old(cfg)@.with_value(self.element.unwrap() as int, value@),
                Err(e) => old(cfg)@.set_error(self.element, value@.kind()) == Some(e) && final(cfg)@ == old(cfg)@,
            },
    {
        let i = match cfg.validate(self.element) {
            Ok(i) => i,
            Err(e) => {
                return Err(e);
            },
        };
        let same = match cfg.payload_at(i) {
            Payload::Scalar(v) => v.kind() == value.kind(),
            _ => false,
        };
        if !same {
            return Err(Errors::TypeMismatch);
        }
        value.witness();
        cfg.set_value_at(i, value);
        Ok(())
    }

    /// Sets the format in which the element is written out. Only an
    /// integer can be written in hexadecimal.
    pub fn set_format(&self, cfg: &mut Config, format: Format) -> (r: Result<(), Errors>)
        requires
            old(cfg).wf(),
        ensures
            final(cfg).wf(),
            match r {
                Ok(_) => old(cfg)@.format_error(self.element, format) is None && final(cfg)@
                    == old(cfg)@.with_format(self.element.unwrap() as int, format),
                Err(e) => old(cfg)@.format_error(self.element, format) == Some(e) && final(cfg)@
                    == old(cfg)@,
            },
    {
        let i = match cfg.validate(self.element) {
            Ok(i) => i,
            Err(e) => {
                return Err(e);
            },
        };
        assert(cfg@.node_wf(i as int));
        let integer = match cfg.payload_at(i) {
            Payload::Scalar(Value::Int32(_)) => true,
            Payload::Scalar(Value::Int64(_)) => true,
            _ => false,
        };
        if format == Format::Hex && !integer {
            return Err(Errors::TypeMismatch);
        }
        cfg.set_format_at(i, format);
        Ok(())
    }

    /// Create new group section.
    pub fn create_section(&self, cfg: &mut Config, path: &str) -> (r: Result<OptionWriter, Errors>)
        requires
            old(cfg).wf(),
        ensures
            final(cfg).wf(),
            match r {
                Ok(w) => {
                    &&& old(cfg)@.create_error(self.element, path@) is None
                    &&& w.element == Some(old(cfg)@.nodes.len() as usize)
                    &&& final(cfg)@ == old(cfg)@.attach(
                        self.element.unwrap() as int,
                        Some(path@),
                        Content::Group,
                        Format::Decimal,
                    )
                },
                Err(e) => old(cfg)@.create_error(self.element, path@) == Some(e) && final(cfg)@
                    == old(cfg)@,
            },
    {
        match cfg.add_aggregate(self.element, path, Payload::Group) {
            Ok(c) => Ok(OptionWriter { element: Some(c) }),
            Err(e) => Err(e),
        }
    }

    /// Create new array group section.
    pub fn create_array(&self, cfg: &mut Config, path: &str) -> (r: Result<
        CollectionWriter,
        Errors,
    >)
        requires
            old(cfg).wf(),
        ensures
            final(cfg).wf(),
            match r {
                Ok(w) => {
                    &&& old(cfg)@.create_error(self.element, path@) is None
                    &&& w.element == Some(old(cfg)@.nodes.len() as usize)
                    &&& final(cfg)@ == old(cfg)@.attach(
                        self.element.unwrap() as int,
                        Some(path@),
                        Content::Array,
                        Format::Decimal,
                    )
                },
                Err(e) => old(cfg)@.create_error(self.element, path@) == Some(e) && final(cfg)@
                    == old(cfg)@,
            },
    {
        match cfg.add_aggregate(self.element, path, Payload::Array) {
            Ok(c) => Ok(CollectionWriter { element: Some(c) }),
            Err(e) => Err(e),
        }
    }

    /// Create new list group section.
    pub fn create_list(&self, cfg: &mut Config, path: &str) -> (r: Result<CollectionWriter, Errors>)
        requires
            old(cfg).wf(),
        ensures
            final(cfg).wf(),
            match r {
                Ok(w) => {
                    &&& old(cfg)@.create_error(self.element, path@) is None
                    &&& w.element == Some(old(cfg)@.nodes.len() as usize)
                    &&& final(cfg)@ == old(cfg)@.attach(
                        self.element.unwrap() as int,
                        Some(path@),
                        Content::List,
                        Format::Decimal,
                    )
                },
                Err(e) => old(cfg)@.create_error(self.element, path@) == Some(e) && final(cfg)@
                    == old(cfg)@,
            },
    {
        match cfg.add_aggregate(self.element, path, Payload::List) {
            Ok(c) => Ok(CollectionWriter { element: Some(c) }),
            Err(e) => Err(e),
        }
    }

    /// Adds the scalar `value` under `name` and hands the writer back.
    pub fn write(&self, cfg: &mut Config, name: &str, value: Value) -> (r: Result<
        OptionWriter,
        Errors,
    >)
        requires
            old(cfg).wf(),
            value@.wf(),
        ensures
            final(cfg).wf(),
            match r {
                Ok(w) => {
                    &&& w == *self
                    &&& old(cfg)@.write_error(self.element, name@, value@.kind()) is None
                    &&& final(cfg)@ == old(cfg)@.attach(
                        self.element.unwrap() as int,
                        old(cfg)@.member_name(self.element.unwrap() as int, name@),
                        Content::Scalar(value@),
                        Format::Decimal,
                    )
                },
                Err(e) => old(cfg)@.write_error(self.element, name@, value@.kind()) == Some(e)
                    && final(cfg)@ == old(cfg)@,
            },
    {
        match cfg.add_scalar(self.element, name, value) {
            Ok(_) => Ok(*self),
            Err(e) => Err(e),
        }
    }

    /// Add new integer value to current group.
    pub fn write_int32(&self, cfg: &mut Config, name: &str, value: i32) -> (r: Result<
        OptionWriter,
        Errors,
    >)
        requires
            old(cfg).wf(),
        ensures
            final(cfg).wf(),
            match r {
                Ok(w) => {
                    &&& w == *self
                    &&& old(cfg)@.write_error(self.element, name@, OptionType::IntegerType) is None
                    &&& final(cfg)@ == old(cfg)@.attach(
                        self.element.unwrap() as int,
                        old(cfg)@.member_name(self.element.unwrap() as int, name@),
                        Content::Scalar(ValueView::Int32(value)),
                        Format::Decimal,
                    )
                },
                Err(e) => old(cfg)@.write_error(self.element, name@, OptionType::IntegerType)
                    == Some(e) && final(cfg)@ == old(cfg)@,
            },
    {
        self.write(cfg, name, Value::Int32(value))
    }

    /// Add new int64 value to current group.
    pub fn write_int64(&self, cfg: &mut Config, name: &str, value: i64) -> (r: Result<
        OptionWriter,
        Errors,
    >)
        requires
            old(cfg).wf(),
        ensures
            final(cfg).wf(),
            match r {
                Ok(w) => {
                    &&& w == *self
                    &&& old(cfg)@.write_error(self.element, name@, OptionType::Int64Type) is None
                    &&& final(cfg)@ == old(cfg)@.attach(
                        self.element.unwrap() as int,
                        old(cfg)@.member_name(self.element.unwrap() as int, name@),
                        Content::Scalar(ValueView::Int64(value)),
                        Format::Decimal,
                    )
                },
                Err(e) => old(cfg)@.write_error(self.element, name@, OptionType::Int64Type)
                    == Some(e) && final(cfg)@ == old(cfg)@,
            },
    {
        self.write(cfg, name, Value::Int64(value))
    }

    /// Add new floating-point value to current group.
    pub fn write_float64(&self, cfg: &mut Config, name: &str, value: &Float) -> (r: Result<
        OptionWriter,
        Errors,
    >)
        requires
            old(cfg).wf(),
        ensures
            final(cfg).wf(),
            match r {
                Ok(w) => {
                    &&& w == *self
                    &&& old(cfg)@.write_error(self.element, name@, OptionType::FloatType) is None
                    &&& final(cfg)@ == old(cfg)@.attach(
                        self.element.unwrap() as int,
                        old(cfg)@.member_name(self.element.unwrap() as int, name@),
                        Content::Scalar(ValueView::Float64(value@)),
                        Format::Decimal,
                    )
                },
                Err(e) => old(cfg)@.write_error(self.element, name@, OptionType::FloatType)
                    == Some(e) && final(cfg)@ == old(cfg)@,
            },
    {
        self.write(cfg, name, Value::Float64(value.duplicate()))
    }

    /// Add new boolean value to current group.
    pub fn write_bool(&self, cfg: &mut Config, name: &str, value: bool) -> (r: Result<
        OptionWriter,
        Errors,
    >)
        requires
            old(cfg).wf(),
        ensures
            final(cfg).wf(),
            match r {
                Ok(w) => {
                    &&& w == *self
                    &&& old(cfg)@.write_error(self.element, name@, OptionType::BooleanType) is None
                    &&& final(cfg)@ == old(cfg)@.attach(
                        self.element.unwrap() as int,
                        old(cfg)@.member_name(self.element.unwrap() as int, name@),
                        Content::Scalar(ValueView::Bool(value)),
                        Format::Decimal,
                    )
                },
                Err(e) => old(cfg)@.write_error(self.element, name@, OptionType::BooleanType)
                    == Some(e) && final(cfg)@ == old(cfg)@,
            },
    {
        self.write(cfg, name, Value::Bool(value))
    }

    /// Add new string value to current group.
    pub fn write_string(&self, cfg: &mut Config, name: &str, value: &str) -> (r: Result<
        OptionWriter,
        Errors,
    >)
        requires
            old(cfg).wf(),
        ensures
            final(cfg).wf(),
            match r {
                Ok(w) => {
                    &&& w == *self
                    &&& old(cfg)@.write_error(self.element, name@, OptionType::StringType) is None
                    &&& final(cfg)@ == old(cfg)@.attach(
                        self.element.unwrap() as int,
                        old(cfg)@.member_name(self.element.unwrap() as int, name@),
                        Content::Scalar(ValueView::Str(value@)),
                        Format::Decimal,
                    )
                },
                Err(e) => old(cfg)@.write_error(self.element, name@, OptionType::StringType)
                    == Some(e) && final(cfg)@ == old(cfg)@,
            },
    {
        self.write(cfg, name, Value::Str(value.to_owned()))
    }
}

impl CollectionWriter {
    /// A writer for the array or list at `elem`, or for nothing.
    pub fn new(elem: Option<usize>) -> (w: CollectionWriter)
        ensures
            w.element == elem,
    {
        CollectionWriter { element: elem }
    }

    /// A reader for the same setting.
    pub fn reader(&self) -> (r: OptionReader)
        ensures
            r.element == self.element,
    {
        OptionReader { element: self.element }
    }

    /// Appends the scalar `value` and hands the writer back.
    pub fn write(&self, cfg: &mut Config, value: Value) -> (r: Result<CollectionWriter, Errors>)
        requires
            old(cfg).wf(),
            value@.wf(),
        ensures
            final(cfg).wf(),
            match r {
                Ok(w) => {
                    &&& w == *self
                    &&& old(cfg)@.write_error(self.element, Seq::empty(), value@.kind()) is None
                    &&& final(cfg)@ == old(cfg)@.attach(
                        self.element.unwrap() as int,
                        None,
                        Content::Scalar(value@),
                        Format::Decimal,
                    )
                },
                Err(e) => old(cfg)@.write_error(self.element, Seq::empty(), value@.kind()) == Some(
                    e,
                ) && final(cfg)@ == old(cfg)@,
            },
    {
        let name = String::new();
        match cfg.add_scalar(self.element, name.as_str(), value) {
            Ok(_) => Ok(*self),
            Err(e) => Err(e),
        }
    }

    /// Add new integer value to current collection.
    pub fn write_int32(&self, cfg: &mut Config, value: i32) -> (r: Result<CollectionWriter, Errors>)
        requires
            old(cfg).wf(),
        ensures
            final(cfg).wf(),
            match r {
                Ok(w) => {
                    &&& w == *self
                    &&& old(cfg)@.write_error(self.element, Seq::empty(), OptionType::IntegerType)
                        is None
                    &&& final(cfg)@ == old(cfg)@.attach(
                        self.element.unwrap() as int,
                        None,
                        Content::Scalar(ValueView::Int32(value)),
                        Format::Decimal,
                    )
                },
                Err(e) => old(cfg)@.write_error(
                    self.element,
                    Seq::empty(),
                    OptionType::IntegerType,
                ) == Some(e) && final(cfg)@ == old(cfg)@,
            },
    {
        self.write(cfg, Value::Int32(value))
    }

    /// Add new int64 value to current collection.
    pub fn write_int64(&self, cfg: &mut Config, value: i64) -> (r: Result<CollectionWriter, Errors>)
        requires
            old(cfg).wf(),
        ensures
            final(cfg).wf(),
            match r {
                Ok(w) => {
                    &&& w == *self
                    &&& old(cfg)@.write_error(self.element, Seq::empty(), OptionType::Int64Type)
                        is None
                    &&& final(cfg)@ == old(cfg)@.attach(
                        self.element.unwrap() as int,
                        None,
                        Content::Scalar(ValueView::Int64(value)),
                        Format::Decimal,
                    )
                },
                Err(e) => old(cfg)@.write_error(self.element, Seq::empty(), OptionType::Int64Type)
                    == Some(e) && final(cfg)@ == old(cfg)@,
            },
    {
        self.write(cfg, Value::Int64(value))
    }

    /// Add new floating-point value to current collection.
    pub fn write_float64(&self, cfg: &mut Config, value: &Float) -> (r: Result<
        CollectionWriter,
        Errors,
    >)
        requires
            old(cfg).wf(),
        ensures
            final(cfg).wf(),
            match r {
                Ok(w) => {
                    &&& w == *self
                    &&& old(cfg)@.write_error(self.element, Seq::empty(), OptionType::FloatType)
                        is None
                    &&& final(cfg)@ == old(cfg)@.attach(
                        self.element.unwrap() as int,
                        None,
                        Content::Scalar(ValueView::Float64(value@)),
                        Format::Decimal,
                    )
                },
                Err(e) => old(cfg)@.write_error(self.element, Seq::empty(), OptionType::FloatType)
                    == Some(e) && final(cfg)@ == old(cfg)@,
            },
    {
        self.write(cfg, Value::Float64(value.duplicate()))
    }

    /// Add new boolean value to current collection.
    pub fn write_bool(&self, cfg: &mut Config, value: bool) -> (r: Result<CollectionWriter, Errors>)
        requires
            old(cfg).wf(),
        ensures
            final(cfg).wf(),
            match r {
                Ok(w) => {
                    &&& w == *self
                    &&& old(cfg)@.write_error(self.element, Seq::empty(), OptionType::BooleanType)
                        is None
                    &&& final(cfg)@ == old(cfg)@.attach(
                        self.element.unwrap() as int,
                        None,
                        Content::Scalar(ValueView::Bool(value)),
                        Format::Decimal,
                    )
                },
                Err(e) => old(cfg)@.write_error(
                    self.element,
                    Seq::empty(),
                    OptionType::BooleanType,
                ) == Some(e) && final(cfg)@ == old(cfg)@,
            },
    {
        self.write(cfg, Value::Bool(value))
    }

    /// Add new string value to current collection.
    pub fn write_string(&self, cfg: &mut Config, value: &str) -> (r: Result<
        CollectionWriter,
        Errors,
    >)
        requires
            old(cfg).wf(),
        ensures
            final(cfg).wf(),
            match r {
                Ok(w) => {
                    &&& w == *self
                    &&& old(cfg)@.write_error(self.element, Seq::empty(), OptionType::StringType)
                        is None
                    &&& final(cfg)@ == old(cfg)@.attach(
                        self.element.unwrap() as int,
                        None,
                        Content::Scalar(ValueView::Str(value@)),
                        Format::Decimal,
                    )
                },
                Err(e) => old(cfg)@.write_error(self.element, Seq::empty(), OptionType::StringType)
                    == Some(e) && final(cfg)@ == old(cfg)@,
            },
    {
        self.write(cfg, Value::Str(value.to_owned()))
    }
}

} // verus!
