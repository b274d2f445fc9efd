//! Making a setting at the end of a dotted path, with the groups on the
//! way to it.

use vstd::prelude::*;
use crate::chars::{check_name_at, from_chars, to_chars, valid_name};
use crate::config::{Config, Payload};
use crate::errors::Errors;
use crate::model::{segment_end, Content, Document};
use crate::path::{lemma_segment_end, scan_segment};
use crate::value::Format;
use crate::writer::OptionWriter;

verus! {

/// Two settings are of one kind: both groups, both arrays, both lists, or
/// scalars with values of one kind.
pub open spec fn same_kind(a: Content, b: Content) -> bool {
    match (a, b) {
        (Content::Group, Content::Group) => true,
        (Content::Array, Content::Array) => true,
        (Content::List, Content::List) => true,
        (Content::Scalar(x), Content::Scalar(y)) => x.kind() == y.kind(),
        _ => false,
    }
}

/// The segments of `path` from `at` on are names, each with something in
/// it and something after each dot.
pub open spec fn names_from(path: Seq<char>, at: int) -> bool
    decreases path.len() - at,
{
    if 0 <= at < path.len() {
        let end = segment_end(path, at);
        &&& valid_name(path.subrange(at, end))
        &&& end >= path.len() || (at <= end && end + 1 < path.len() && names_from(path, end + 1))
    } else {
        false
    }
}

impl Document {
    /// What making a setting of content `leaf` at the end of the segments
    /// of `path` from `at` on gives, starting in the setting `i`: the
    /// document afterwards and the position of the setting, or why it
    /// cannot be done.
    ///
    /// Each segment but the last names a group, which is made where it is
    /// missing. The last names the setting itself: it is made where it is
    /// missing, and found where a setting of the kind of `leaf` has the
    /// name already.
    pub open spec fn create_path(self, i: int, path: Seq<char>, at: int, leaf: Content) -> Result<
        (Document, usize),
        Errors,
    >
        decreases path.len() - at,
    {
        let end = segment_end(path, at);
        let seg = path.subrange(at, end);
        let last = end >= path.len();
        if at < 0 || at >= path.len() || end < at {
            Err(Errors::InvalidName)
        } else if !(self.nodes[i].content is Group) {
            Err(Errors::NotAGroup)
        } else if !valid_name(seg) || (!last && end + 1 >= path.len()) {
            Err(Errors::InvalidName)
        } else {
            match self.find_named(self.nodes[i].children, seg, 0) {
                Some(c) => if !last {
                    self.create_path(c as int, path, end + 1, leaf)
                } else if same_kind(self.nodes[c as int].content, leaf) {
                    Ok((self, c))
                } else {
                    Err(Errors::TypeMismatch)
                },
                None => if last {
                    Ok(
                        (
                            self.attach(i, Some(seg), leaf, Format::Decimal),
                            self.nodes.len() as usize,
                        ),
                    )
                } else {
                    self.attach(i, Some(seg), Content::Group, Format::Decimal).create_path(
                        self.nodes.len() as int,
                        path,
                        end + 1,
                        leaf,
                    )
                },
            }
        }
    }

    /// What `create_path` gives from the setting that `h` refers to.
    pub open spec fn create_path_from(self, h: Option<usize>, path: Seq<char>, leaf: Content)
        -> Result<(Document, usize), Errors> {
        match self.check(h) {
            Err(e) => Err(e),
            Ok(i) => self.create_path(i as int, path, 0, leaf),
        }
    }

    /// In a group without members, a path with a segment that is no name
    /// cannot be made.
    proof fn lemma_create_path_fails(self, i: int, path: Seq<char>, at: int, leaf: Content)
        requires
            0 <= i < self.nodes.len(),
            self.nodes[i].content is Group,
            self.nodes[i].children.len() == 0,
            !names_from(path, at),
        ensures
            self.create_path(i, path, at, leaf) == Err::<(Document, usize), Errors>(
                Errors::InvalidName,
            ),
        decreases path.len() - at,
    {
        let end = segment_end(path, at);
        let seg = path.subrange(at, end);
        if 0 <= at < path.len() {
            lemma_segment_end(path, at);
            if valid_name(seg) && end < path.len() && end + 1 < path.len() {
                let next = self.attach(i, Some(seg), Content::Group, Format::Decimal);
                next.lemma_create_path_fails(self.nodes.len() as int, path, end + 1, leaf);
            }
        }
    }
}

/// Whether the segments of `path` from `at` on are names.
fn check_names_from(path: &Vec<char>, at: usize) -> (r: bool)
    requires
        at <= path.len(),
    ensures
        r == names_from(path@, at as int),
{
    let mut k: usize = at;
    loop
        invariant
            at <= k <= path.len(),
            names_from(path@, at as int) == names_from(path@, k as int),
        decreases path.len() - k,
    {
        if k >= path.len() {
            return false;
        }
        let end = scan_segment(path, k);
        if !check_name_at(path, k, end) {
            return false;
        }
        if end >= path.len() {
            return true;
        }
        if path.len() - end <= 1 {
            return false;
        }
        k = end + 1;
    }
}

impl Payload {
    /// Whether two payloads are of one kind.
    pub fn same_kind(&self, other: &Payload) -> (r: bool)
        ensures
            r == same_kind(self@, other@),
    {
        match (self, other) {
            (Payload::Group, Payload::Group) => true,
            (Payload::Array, Payload::Array) => true,
            (Payload::List, Payload::List) => true,
            (Payload::Scalar(x), Payload::Scalar(y)) => x.kind() == y.kind(),
            _ => false,
        }
    }

    /// Every payload is well formed; calling this lets a proof know it.
    pub fn witness(&self)
        ensures
            self@.wf(Format::Decimal),
    {
        match self {
            Payload::Scalar(v) => {
                v.witness();
            },
            _ => {},
        }
    }
}

impl OptionWriter {
    /// Makes a setting that holds `leaf` at the end of the dotted `path`,
    /// counted from this setting, and the groups on the way to it that are
    /// missing. Where the path is there already and ends in a setting of
    /// the kind of `leaf`, that setting is handed out and nothing changes.
    ///
    /// Nothing is made unless everything can be: on an error the document
    /// is as it was.
    pub fn create_path(&self, cfg: &mut Config, path: &str, leaf: Payload) -> (r: Result<
        OptionWriter,
        Errors,
    >)
        requires
            old(cfg).wf(),
        ensures
            final(cfg).wf(),
            match r {
                Ok(w) => w.element is Some && old(cfg)@.create_path_from(
                    self.element,
                    path@,
                    leaf@,
                ) == Ok::<(Document, usize), Errors>((final(cfg)@, w.element.unwrap())),
                Err(e) => old(cfg)@.create_path_from(self.element, path@, leaf@) == Err::<
                    (Document, usize),
                    Errors,
                >(e) && final(cfg)@ == old(cfg)@,
            },
    {
        let start = match cfg.validate(self.element) {
            Ok(i) => i,
            Err(e) => {
                return Err(e);
            },
        };
        let p = to_chars(path);
        if p.len() == 0 {
            return Err(Errors::InvalidName);
        }
        let ghost plan = cfg@.create_path(start as int, p@, 0, leaf@);
        let mut cur: usize = start;
        let mut at: usize = 0;
        // The part of the path that is there already.
        loop
            invariant
                cfg.wf(),
                cfg@ == old(cfg)@,
                cfg@.live(cur as int),
                0 <= at < p.len(),
                p@ == path@,
                plan == cfg@.create_path(cur as int, p@, at as int, leaf@),
                plan == old(cfg)@.create_path_from(self.element, path@, leaf@),
            ensures
                cfg.wf(),
                cfg@ == old(cfg)@,
                cfg@.live(cur as int),
                0 <= at < p.len(),
                plan == old(cfg)@.create_path_from(self.element, path@, leaf@),
                plan == cfg@.create_path(cur as int, p@, at as int, leaf@),
                cfg@.nodes[cur as int].content is Group,
                names_from(p@, at as int),
                cfg@.find_named(
                    cfg@.nodes[cur as int].children,
                    p@.subrange(at as int, segment_end(p@, at as int)),
                    0,
                ) is None,
            decreases p.len() - at,
        {
            let end = scan_segment(&p, at);
            match cfg.payload_at(cur) {
                Payload::Group => {},
                _ => {
                    return Err(Errors::NotAGroup);
                },
            }
            if !check_name_at(&p, at, end) {
                return Err(Errors::InvalidName);
            }
            let last = end >= p.len();
            if !last && p.len() - end <= 1 {
                return Err(Errors::InvalidName);
            }
            let name = from_chars(&p, at, end);
            match cfg.find_member(cur, &name) {
                Some(c) => {
                    proof {
                        let kids = cfg@.nodes[cur as int].children;
                        cfg@.lemma_children_live(cur as int);
                        cfg@.lemma_find_named(kids, name@, 0);
                        let k = choose|k: int| 0 <= k < kids.len() && kids[k] == c;
                        assert(cfg@.live(kids[k] as int));
                    }
                    if last {
                        if cfg.payload_at(c).same_kind(&leaf) {
                            return Ok(OptionWriter { element: Some(c) });
                        } else {
                            return Err(Errors::TypeMismatch);
                        }
                    }
                    cur = c;
                    at = end + 1;
                },
                None => {
                    if !last {
                        if !check_names_from(&p, end + 1) {
                            proof {
                                let next = cfg@.attach(
                                    cur as int,
                                    Some(name@),
                                    Content::Group,
                                    Format::Decimal,
                                );
                                next.lemma_create_path_fails(
                                    cfg@.nodes.len() as int,
                                    p@,
                                    end + 1,
                                    leaf@,
                                );
                            }
                            return Err(Errors::InvalidName);
                        }
                    }
                    break ;
                },
            }
        }
        // The part that is missing: all of it can be made.
        leaf.witness();
        loop
            invariant
                cfg.wf(),
                cfg@.live(cur as int),
                0 <= at < p.len(),
                plan == old(cfg)@.create_path_from(self.element, path@, leaf@),
                plan == cfg@.create_path(cur as int, p@, at as int, leaf@),
                cfg@.nodes[cur as int].content is Group,
                names_from(p@, at as int),
                leaf@.wf(Format::Decimal),
                cfg@.find_named(
                    cfg@.nodes[cur as int].children,
                    p@.subrange(at as int, segment_end(p@, at as int)),
                    0,
                ) is None,
            decreases p.len() - at,
        {
            let end = scan_segment(&p, at);
            let name = from_chars(&p, at, end);
            if end >= p.len() {
                let c = cfg.attach(cur, Some(name), leaf, Format::Decimal);
                return Ok(OptionWriter { element: Some(c) });
            }
            let c = cfg.attach(cur, Some(name), Payload::Group, Format::Decimal);
            cur = c;
            at = end + 1;
        }
    }
}

impl Config {
    /// Makes a setting that holds `leaf` at the end of the dotted `path`,
    /// counted from the root, with the groups on the way to it.
    pub fn create_path(&mut self, path: &str, leaf: Payload) -> (r: Result<OptionWriter, Errors>)
        requires
            old(self).wf(),
        ensures
            final(self).wf(),
            match r {
                Ok(w) => w.element is Some && old(self)@.create_path_from(
                    old(self)@.root,
                    path@,
                    leaf@,
                ) == Ok::<(Document, usize), Errors>((final(self)@, w.element.unwrap())),
                Err(e) => old(self)@.create_path_from(old(self)@.root, path@, leaf@) == Err::<
                    (Document, usize),
                    Errors,
                >(e) && final(self)@ == old(self)@,
            },
    {
        let w = self.root_writer();
        w.create_path(self, path, leaf)
    }
}

} // verus!
