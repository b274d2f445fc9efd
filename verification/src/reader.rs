//! Reading a setting through a handle.

use vstd::prelude::*;
use crate::config::{text_view, Config, Payload};
use crate::edit::{lemma_position_of, position_of};
use crate::errors::Errors;
use crate::model::{Content, Document};
use crate::value::{Float, Format, OptionType, SettingKind, Value};

verus! {

/// Reader for configuration option.
///
/// A reader is a handle: it names a setting and holds nothing of it. Every
/// call looks the setting up in the document it is given, so a reader whose
/// setting was deleted answers `None` and never something stale.
#[derive(Clone, Copy, Debug, PartialEq, Eq)]
pub struct OptionReader {
    pub element: Option<usize>,
}

/// The reader for the setting at `i`.
pub open spec fn reader_at(i: Option<usize>) -> Option<OptionReader> {
    match i {
        Some(c) => Some(OptionReader { element: Some(c) }),
        None => None,
    }
}

impl OptionReader {
    /// A reader for the setting at `elem`, or for nothing.
    pub fn new(elem: Option<usize>) -> (r: OptionReader)
        ensures
            r.element == elem,
    {
        OptionReader { element: elem }
    }

    /// Whether the reader still refers to a setting of `cfg`: an error says
    /// that it refers to none, or that the setting is gone.
    pub fn check(&self, cfg: &Config) -> (r: Result<(), Errors>)
        ensures
            match r {
                Ok(_) => cfg@.check(self.element) is Ok,
                Err(e) => cfg@.check(self.element) == Err::<usize, Errors>(e),
            },
    {
        match cfg.validate(self.element) {
            Ok(_) => Ok(()),
            Err(e) => Err(e),
        }
    }

    /// Return true if element is section group.
    pub fn is_section(&self, cfg: &Config) -> (r: Option<bool>)
        ensures
            r == match cfg@.setting(self.element) {
                Some(n) => Some(n.content is Group),
                None => None,
            },
    {
        match cfg.validate(self.element) {
            Ok(i) => match cfg.payload_at(i) {
                Payload::Group => Some(true),
                _ => Some(false),
            },
            Err(_) => None,
        }
    }

    /// Return true if element is array.
    pub fn is_array(&self, cfg: &Config) -> (r: Option<bool>)
        ensures
            r == match cfg@.setting(self.element) {
                Some(n) => Some(n.content is Array),
                None => None,
            },
    {
        match cfg.validate(self.element) {
            Ok(i) => match cfg.payload_at(i) {
                Payload::Array => Some(true),
                _ => Some(false),
            },
            Err(_) => None,
        }
    }

    /// Return true if element is list.
    pub fn is_list(&self, cfg: &Config) -> (r: Option<bool>)
        ensures
            r == match cfg@.setting(self.element) {
                Some(n) => Some(n.content is List),
                None => None,
            },
    {
        match cfg.validate(self.element) {
            Ok(i) => match cfg.payload_at(i) {
                Payload::List => Some(true),
                _ => Some(false),
            },
            Err(_) => None,
        }
    }

    /// Return true if element holds a single value.
    pub fn is_scalar(&self, cfg: &Config) -> (r: Option<bool>)
        ensures
            r == match cfg@.setting(self.element) {
                Some(n) => Some(n.content is Scalar),
                None => None,
            },
    {
        match cfg.validate(self.element) {
            Ok(i) => match cfg.payload_at(i) {
                Payload::Scalar(_) => Some(true),
                _ => Some(false),
            },
            Err(_) => None,
        }
    }

    /// Return true if element is a group, an array or a list.
    pub fn is_aggregate(&self, cfg: &Config) -> (r: Option<bool>)
        ensures
            r == match cfg@.setting(self.element) {
                Some(n) => Some(n.content.is_aggregate()),
                None => None,
            },
    {
        match cfg.validate(self.element) {
            Ok(i) => match cfg.payload_at(i) {
                Payload::Scalar(_) => Some(false),
                _ => Some(true),
            },
            Err(_) => None,
        }
    }

    /// Return true if element is an integer of either width or a
    /// floating-point number.
    pub fn is_number(&self, cfg: &Config) -> (r: Option<bool>)
        ensures
            r == match cfg@.setting(self.element) {
                Some(n) => Some(
                    n.content matches Content::Scalar(v) && (v is Int32 || v is Int64
                        || v is Float64),
                ),
                None => None,
            },
    {
        match cfg.validate(self.element) {
            Ok(i) => match cfg.payload_at(i) {
                Payload::Scalar(Value::Int32(_)) => Some(true),
                Payload::Scalar(Value::Int64(_)) => Some(true),
                Payload::Scalar(Value::Float64(_)) => Some(true),
                _ => Some(false),
            },
            Err(_) => None,
        }
    }

    /// Return true if element is the root of the document, the one setting
    /// without a parent.
    pub fn is_root(&self, cfg: &Config) -> (r: Option<bool>)
        ensures
            r == match cfg@.setting(self.element) {
                Some(n) => Some(n.parent is None),
                None => None,
            },
    {
        match cfg.validate(self.element) {
            Ok(i) => Some(cfg.parent_at(i).is_none()),
            Err(_) => None,
        }
    }

    /// Return option element parent item.
    pub fn parent(&self, cfg: &Config) -> (r: Option<OptionReader>)
        ensures
            r == match cfg@.setting(self.element) {
                Some(n) => reader_at(n.parent),
                None => None,
            },
    {
        match cfg.validate(self.element) {
            Ok(i) => match cfg.parent_at(i) {
                Some(p) => Some(OptionReader { element: Some(p) }),
                None => None,
            },
            Err(_) => None,
        }
    }

    /// The name of the element. The root has none, and neither have the
    /// elements of arrays and lists.
    pub fn name(&self, cfg: &Config) -> (r: Option<String>)
        ensures
            text_view(r) == match cfg@.setting(self.element) {
                Some(n) => n.name,
                None => None,
            },
    {
        match cfg.validate(self.element) {
            Ok(i) => match cfg.name_at(i) {
                Some(n) => Some(n.clone()),
                None => None,
            },
            Err(_) => None,
        }
    }

    /// Where the element stands among the children of its parent, counted
    /// from zero. The root stands nowhere.
    pub fn index(&self, cfg: &Config) -> (r: Option<usize>)
        requires
            cfg.wf(),
        ensures
            r == cfg@.index_of(self.element),
            r matches Some(k) ==> {
                let p = cfg@.setting(self.element).unwrap().parent.unwrap();
                k < cfg@.nodes[p as int].children.len() && cfg@.nodes[p as int].children[k as int]
                    == self.element.unwrap()
            },
    {
        match cfg.validate(self.element) {
            Ok(i) => match cfg.parent_at(i) {
                Some(p) => {
                    assert(cfg@.node_wf(i as int));
                    let kids = cfg.children_at(p);
                    proof {
                        lemma_position_of(kids@, i, 0);
                        let w = choose|w: int| 0 <= w < kids@.len() && kids@[w] == i;
                        assert(kids@[w] == i);
                    }
                    let mut k: usize = 0;
                    while kids[k] != i
                        invariant
                            k < kids.len(),
                            position_of(kids@, i, 0) < kids.len(),
                            position_of(kids@, i, 0) == position_of(
                                kids@,
                                i,
                                k as int,
                            ),
                        decreases kids.len() - k,
                    {
                        proof {
                            lemma_position_of(kids@, i, k + 1);
                        }
                        k += 1;
                    }
                    Some(k)
                },
                None => None,
            },
            Err(_) => None,
        }
    }

    /// Return option value type.
    pub fn value_type(&self, cfg: &Config) -> (r: Option<OptionType>)
        ensures
            r == match cfg@.value_of(self.element) {
                Some(v) => Some(v.kind()),
                None => None,
            },
    {
        match cfg.validate(self.element) {
            Ok(i) => match cfg.payload_at(i) {
                Payload::Scalar(v) => Some(v.kind()),
                _ => None,
            },
            Err(_) => None,
        }
    }

    /// Read value from path.
    pub fn value(&self, cfg: &Config, path: &str) -> (r: Option<OptionReader>)
        requires
            cfg.wf(),
        ensures
            r == match cfg@.check(self.element) {
                Ok(i) => reader_at(cfg@.resolve(i as int, path@)),
                Err(_) => None,
            },
            r matches Some(found) ==> cfg@.check(found.element) is Ok,
    {
        match cfg.validate(self.element) {
            Ok(i) => match cfg.resolve(i, path) {
                Some(c) => Some(OptionReader { element: Some(c) }),
                None => None,
            },
            Err(_) => None,
        }
    }

    /// Present option value as i32.
    pub fn as_int32(&self, cfg: &Config) -> (r: Option<i32>)
        ensures
            r == cfg@.int32_of(self.element),
    {
        match cfg.validate(self.element) {
            Ok(i) => match cfg.payload_at(i) {
                Payload::Scalar(Value::Int32(v)) => Some(*v),
                _ => None,
            },
            Err(_) => None,
        }
    }

    /// Present option value as i32, return def if value not found.
    pub fn as_int32_default(&self, cfg: &Config, def: i32) -> (r: i32)
        ensures
            r == cfg@.int32_or(self.element, def),
    {
        match self.as_int32(cfg) {
            Some(x) => x,
            None => def,
        }
    }

    /// Present option value as i64.
    pub fn as_int64(&self, cfg: &Config) -> (r: Option<i64>)
        ensures
            r == cfg@.int64_of(self.element),
    {
        match cfg.validate(self.element) {
            Ok(i) => match cfg.payload_at(i) {
                Payload::Scalar(Value::Int64(v)) => Some(*v),
                _ => None,
            },
            Err(_) => None,
        }
    }

    /// Present option value as i64, return def if value not exists.
    pub fn as_int64_default(&self, cfg: &Config, def: i64) -> (r: i64)
        ensures
            r == cfg@.int64_or(self.element, def),
    {
        match self.as_int64(cfg) {
            Some(x) => x,
            None => def,
        }
    }

    /// Present option value as a floating-point number.
    pub fn as_float64(&self, cfg: &Config) -> (r: Option<Float>)
        ensures
            match r {
                Some(f) => cfg@.float_of(self.element) == Some(f@),
                None => cfg@.float_of(self.element) is None,
            },
    {
        match cfg.validate(self.element) {
            Ok(i) => match cfg.payload_at(i) {
                Payload::Scalar(Value::Float64(f)) => Some(f.duplicate()),
                _ => None,
            },
            Err(_) => None,
        }
    }

    /// Present option value as a floating-point number, return def if value
    /// not exists.
    pub fn as_float64_default(&self, cfg: &Config, def: Float) -> (r: Float)
        ensures
            r@ == cfg@.float_or(self.element, def@),
    {
        match self.as_float64(cfg) {
            Some(x) => x,
            None => def,
        }
    }

    /// Present option value as bool.
    pub fn as_bool(&self, cfg: &Config) -> (r: Option<bool>)
        ensures
            r == cfg@.bool_of(self.element),
    {
        match cfg.validate(self.element) {
            Ok(i) => match cfg.payload_at(i) {
                Payload::Scalar(Value::Bool(v)) => Some(*v),
                _ => None,
            },
            Err(_) => None,
        }
    }

    /// Present option value as bool, return def if value not exists.
    pub fn as_bool_default(&self, cfg: &Config, def: bool) -> (r: bool)
        ensures
            r == cfg@.bool_or(self.element, def),
    {
        match self.as_bool(cfg) {
            Some(x) => x,
            None => def,
        }
    }

    /// Present option value as string.
    pub fn as_string(&self, cfg: &Config) -> (r: Option<String>)
        ensures
            text_view(r) == cfg@.string_of(self.element),
    {
        match cfg.validate(self.element) {
            Ok(i) => match cfg.payload_at(i) {
                Payload::Scalar(Value::Str(v)) => Some(v.clone()),
                _ => None,
            },
            Err(_) => None,
        }
    }

    /// Present option value as string, return def if value not exists.
    pub fn as_string_default(&self, cfg: &Config, def: &str) -> (r: String)
        ensures
            r@ == cfg@.string_or(self.element, def@),
    {
        match self.as_string(cfg) {
            Some(x) => x,
            None => def.to_owned(),
        }
    }

    /// The value of a scalar element, whatever its kind.
    pub fn get(&self, cfg: &Config) -> (r: Option<Value>)
        ensures
            match r {
                Some(v) => cfg@.value_of(self.element) == Some(v@),
                None => cfg@.value_of(self.element) is None,
            },
    {
        match cfg.validate(self.element) {
            Ok(i) => match cfg.payload_at(i) {
                Payload::Scalar(v) => Some(v.duplicate()),
                _ => None,
            },
            Err(_) => None,
        }
    }

    /// The value of a scalar element that must be of kind `kind`: the
    /// error says whether the element is missing, gone, or of another kind.
    pub fn expect(&self, cfg: &Config, kind: OptionType) -> (r: Result<Value, Errors>)
        ensures
            match r {
                Ok(v) => cfg@.value_of(self.element) == Some(v@) && v@.kind() == kind,
                Err(e) => e == match cfg@.check(self.element) {
                    Err(gone) => gone,
                    Ok(_) => Errors::TypeMismatch,
                } && !(cfg@.value_of(self.element) matches Some(v) && v.kind() == kind),
            },
    {
        match cfg.validate(self.element) {
            Ok(i) => match cfg.payload_at(i) {
                Payload::Scalar(v) => {
                    if v.kind() == kind {
                        Ok(v.duplicate())
                    } else {
                        Err(Errors::TypeMismatch)
                    }
                },
                _ => Err(Errors::TypeMismatch),
            },
            Err(e) => Err(e),
        }
    }

    /// The line of the text that the element was read from, counted from
    /// one; zero for an element that was not read from a text.
    pub fn source_line(&self, cfg: &Config) -> (r: Option<usize>)
        ensures
            r == match cfg@.setting(self.element) {
                Some(n) => Some(n.line),
                None => None,
            },
    {
        match cfg.validate(self.element) {
            Ok(i) => Some(cfg.line_at(i)),
            Err(_) => None,
        }
    }

    /// The name of the file that the element was read from, where it was
    /// read from a text whose file is known.
    pub fn source_file(&self, cfg: &Config) -> (r: Option<String>)
        ensures
            text_view(r) == cfg@.source_file_of(self.element),
    {
        match cfg.validate(self.element) {
            Ok(i) => {
                if cfg.line_at(i) > 0 {
                    cfg.source_file()
                } else {
                    None
                }
            },
            Err(_) => None,
        }
    }

    /// The format in which the element is written out. For an integer
    /// without a format of its own the document decides.
    pub fn format(&self, cfg: &Config) -> (r: Option<Format>)
        ensures
            r == match cfg@.setting(self.element) {
                Some(n) => Some(n.format),
                None => None,
            },
    {
        match cfg.validate(self.element) {
            Ok(i) => Some(cfg.format_at(i)),
            Err(_) => None,
        }
    }

    /// What the element is: a group, an array, a list, or a scalar of some
    /// kind.
    pub fn kind(&self, cfg: &Config) -> (r: Option<SettingKind>)
        ensures
            r == match cfg@.setting(self.element) {
                Some(n) => Some(n.content.kind()),
                None => None,
            },
    {
        match cfg.validate(self.element) {
            Ok(i) => match cfg.payload_at(i) {
                Payload::Group => Some(SettingKind::Group),
                Payload::Array => Some(SettingKind::Array),
                Payload::List => Some(SettingKind::List),
                Payload::Scalar(v) => Some(SettingKind::Scalar(v.kind())),
            },
            Err(_) => None,
        }
    }

    /// Delete current config element.
    ///
    /// The element leaves its parent, and it and everything below it are
    /// gone for good: handles to them turn stale. The root cannot be
    /// deleted.
    pub fn delete(&self, cfg: &mut Config) -> (r: Result<(), Errors>)
        requires
            old(cfg).wf(),
        ensures
            final(cfg).wf(),
            match r {
                Ok(_) => old(cfg)@.delete_error(self.element) is None && final(cfg)@ == old(cfg)@.detach(self.element.unwrap() as int),
                Err(e) => old(cfg)@.delete_error(self.element) == Some(e) && final(cfg)@ == old(cfg)@,
            },
    {
        cfg.remove(self.element)
    }

    /// The elements of an array, in order. A reader of anything else gives
    /// an empty sequence.
    pub fn as_array(&self, cfg: &Config) -> (it: CollectionReaderIterator)
        ensures
            it.pos == 0,
            match cfg@.setting(self.element) {
                Some(n) if n.content is Array => it.element == self.element && it.size
                    == n.children.len(),
                _ => it.element is None && it.size == 0,
            },
    {
        match self.is_array(cfg) {
            Some(true) => CollectionReaderIterator::new(cfg, self.element),
            _ => CollectionReaderIterator::new(cfg, None),
        }
    }

    /// The elements of a list, in order. A reader of anything else gives an
    /// empty sequence.
    pub fn as_list(&self, cfg: &Config) -> (it: CollectionReaderIterator)
        ensures
            it.pos == 0,
            match cfg@.setting(self.element) {
                Some(n) if n.content is List => it.element == self.element && it.size
                    == n.children.len(),
                _ => it.element is None && it.size == 0,
            },
    {
        match self.is_list(cfg) {
            Some(true) => CollectionReaderIterator::new(cfg, self.element),
            _ => CollectionReaderIterator::new(cfg, None),
        }
    }

    /// Readers for the children of a group, an array or a list, in order.
    pub fn children(&self, cfg: &Config) -> (v: Vec<OptionReader>)
        ensures
            match cfg@.setting(self.element) {
                Some(n) => v@.len() == n.children.len() && forall|k: int|
                    0 <= k < v@.len() ==> (#[trigger] v@[k]).element == Some(n.children[k]),
                None => v@.len() == 0,
            },
    {
        let mut v: Vec<OptionReader> = Vec::new();
        match cfg.validate(self.element) {
            Ok(i) => {
                let kids = cfg.children_at(i);
                let mut k: usize = 0;
                while k < kids.len()
                    invariant
                        k <= kids.len(),
                        v@.len() == k,
                        forall|j: int| 0 <= j < k ==> (#[trigger] v@[j]).element == Some(kids@[j]),
                    decreases kids.len() - k,
                {
                    v.push(OptionReader { element: Some(kids[k]) });
                    k += 1;
                }
            },
            Err(_) => {},
        }
        v
    }
}

/// Reader for collection (array, list) option.
///
/// It walks over the children of one setting, from the first on, and can be
/// made anew at any time.
#[derive(Clone, Copy, Debug, PartialEq, Eq)]
pub struct CollectionReaderIterator {
    pub element: Option<usize>,
    pub pos: usize,
    pub size: usize,
}

impl CollectionReaderIterator {
    /// An iterator over the children of the setting at `elem`, as many as
    /// it has now; over nothing, where `elem` refers to no live setting.
    pub fn new(cfg: &Config, elem: Option<usize>) -> (it: CollectionReaderIterator)
        ensures
            it.pos == 0,
            match cfg@.setting(elem) {
                Some(n) => it.element == elem && it.size == n.children.len(),
                None => it.element is None && it.size == 0,
            },
    {
        match cfg.validate(elem) {
            Ok(i) => CollectionReaderIterator {
                element: elem,
                pos: 0,
                size: cfg.children_at(i).len(),
            },
            Err(_) => CollectionReaderIterator { element: None, pos: 0, size: 0 },
        }
    }

    /// Whether `next` has a child to give in `doc`.
    pub open spec fn has_next(self, doc: Document) -> bool {
        &&& doc.setting(self.element) is Some
        &&& self.pos < self.size
        &&& self.pos < doc.setting(self.element).unwrap().children.len()
    }

    /// The next child, and one step forward; `None`, and no step, when the
    /// children are used up or the setting is gone.
    pub fn next(&mut self, cfg: &Config) -> (r: Option<OptionReader>)
        ensures
            old(self).has_next(cfg@) ==> {
                &&& r == Some(
                    OptionReader {
                        element: Some(
                            cfg@.setting(old(self).element).unwrap().children[old(self).pos as int],
                        ),
                    },
                )
                &&& *final(self) == (CollectionReaderIterator {
                    pos: (old(self).pos + 1) as usize,
                    ..*old(self)
                })
            },
            !old(self).has_next(cfg@) ==> r is None && *final(self) == *old(self),
    {
        if self.pos >= self.size {
            return None;
        }
        match cfg.validate(self.element) {
            Ok(i) => {
                let kids = cfg.children_at(i);
                if self.pos < kids.len() {
                    let c = kids[self.pos];
                    self.pos = self.pos + 1;
                    Some(OptionReader { element: Some(c) })
                } else {
                    None
                }
            },
            Err(_) => None,
        }
    }
}

} // verus!
