//! The mathematical model of a document: its settings as a sequence of
//! records linked by position, and the tree that the records spell out.

use vstd::prelude::*;
use crate::chars::{valid_name, CharClass, all_in};
use crate::edit::position_of;
use crate::errors::Errors;
use crate::number::digits_value;
use crate::value::{Format, OptionType, SettingKind, ValueView};

verus! {

/// What a setting is: one of the three aggregates, or a scalar and its value.
pub enum Content {
    Group,
    Array,
    List,
    Scalar(ValueView),
}

impl Content {
    /// Groups, arrays and lists hold other settings.
    pub open spec fn is_aggregate(self) -> bool {
        !(self is Scalar)
    }

    /// The kind of the setting.
    pub open spec fn kind(self) -> SettingKind {
        match self {
            Content::Group => SettingKind::Group,
            Content::Array => SettingKind::Array,
            Content::List => SettingKind::List,
            Content::Scalar(v) => SettingKind::Scalar(v.kind()),
        }
    }

    /// The kind of the value, for a scalar.
    pub open spec fn scalar_kind(self) -> Option<OptionType> {
        match self {
            Content::Scalar(v) => Some(v.kind()),
            _ => None,
        }
    }

    /// A scalar's value is well formed, and only integers are written in
    /// hexadecimal.
    pub open spec fn wf(self, format: Format) -> bool {
        match self {
            Content::Scalar(v) => v.wf() && (format == Format::Hex ==> v.is_integer()),
            _ => format == Format::Decimal,
        }
    }

    /// Whether a setting of this content takes a member called `name`:
    /// members of a group have a valid name, elements of arrays and lists
    /// have none, and a scalar has no members.
    pub open spec fn admits_name(self, name: Option<Seq<char>>) -> bool {
        match self {
            Content::Group => name matches Some(n) && valid_name(n),
            Content::Array | Content::List => name is None,
            Content::Scalar(_) => false,
        }
    }
}

/// One setting of a document, as the document records it.
pub struct Setting {
    /// Whether the setting is still part of the document.
    pub live: bool,
    pub name: Option<Seq<char>>,
    pub content: Content,
    pub format: Format,
    /// The position of the parent; `None` for the root.
    pub parent: Option<usize>,
    /// The positions of the children, in order.
    pub children: Seq<usize>,
    /// The line of the text that the setting was read from, counted from
    /// one; zero for a setting that was not read from a text.
    pub line: usize,
}

/// What is left in the place of a setting that was taken out.
pub open spec fn dead_setting() -> Setting {
    Setting {
        live: false,
        name: None,
        content: Content::Group,
        format: Format::Decimal,
        parent: None,
        children: Seq::empty(),
        line: 0,
    }
}

/// A setting together with everything below it.
pub struct Tree {
    pub name: Option<Seq<char>>,
    pub content: Content,
    pub format: Format,
    pub children: Seq<Tree>,
}

/// The line that a setting was read from, with those of the settings
/// below it.
pub struct Lines {
    pub line: usize,
    pub children: Seq<Lines>,
}

/// The children `ts` of a setting of content `parent` go together: in a
/// group no two share a name, and in an array all are scalars of one kind.
pub open spec fn siblings_wf(ts: Seq<Tree>, parent: Content) -> bool {
    &&& parent is Scalar ==> ts.len() == 0
    &&& parent is Group ==> forall|k: int, l: int|
        0 <= k < l < ts.len() ==> (#[trigger] ts[k]).name != (#[trigger] ts[l]).name
    &&& parent is Array ==> forall|k: int|
        0 <= k < ts.len() ==> (#[trigger] ts[k]).content is Scalar && ts[k].content.scalar_kind()
            == ts[0].content.scalar_kind()
}

/// The tree `t` is well formed as a child of a setting of content `parent`.
pub open spec fn tree_wf(t: Tree, parent: Content) -> bool
    decreases t,
{
    &&& parent.admits_name(t.name)
    &&& t.content.wf(t.format)
    &&& siblings_wf(t.children, t.content)
    &&& forall|k: int|
        0 <= k < t.children.len() ==> tree_wf(#[trigger] t.children[k], t.content)
}

/// The tree `t` is well formed but for its name, which is for its parent
/// to judge.
pub open spec fn value_wf(t: Tree) -> bool {
    &&& t.content.wf(t.format)
    &&& siblings_wf(t.children, t.content)
    &&& forall|k: int|
        0 <= k < t.children.len() ==> tree_wf(#[trigger] t.children[k], t.content)
}

/// The tree `t` is well formed as a whole document: a nameless group whose
/// members are well formed.
pub open spec fn root_wf(t: Tree) -> bool {
    &&& t.name is None
    &&& t.content is Group
    &&& t.format == Format::Decimal
    &&& siblings_wf(t.children, t.content)
    &&& forall|k: int|
        0 <= k < t.children.len() ==> tree_wf(#[trigger] t.children[k], t.content)
}

/// A document: the settings ever made in it, by position, and which of them
/// is the root.
pub struct Document {
    pub nodes: Seq<Setting>,
    pub root: Option<usize>,
    pub tab_width: u8,
    pub default_format: Format,
    pub include_dir: Option<Seq<char>>,
    /// Whether numbers are converted between integers and floating point
    /// when they are read as the other.
    pub auto_convert: bool,
    /// The name of the file that the text was read from, if it is known.
    pub source_file: Option<Seq<char>>,
}

/// The position of the first `.` of `path` at or after `i`, or the length
/// of `path`.
pub open spec fn segment_end(path: Seq<char>, i: int) -> int
    decreases path.len() - i,
{
    if 0 <= i < path.len() && path[i] != '.' {
        segment_end(path, i + 1)
    } else {
        i
    }
}

impl Document {
    /// Position `i` holds a setting that is part of the document.
    pub open spec fn live(self, i: int) -> bool {
        0 <= i < self.nodes.len() && self.nodes[i].live
    }

    /// What a handle refers to: a live setting, nothing at all, or a
    /// setting that is gone.
    pub open spec fn check(self, h: Option<usize>) -> Result<usize, Errors> {
        match h {
            None => Err(Errors::ElementNotExists),
            Some(i) => if self.live(i as int) {
                Ok(i)
            } else {
                Err(Errors::StaleReference)
            },
        }
    }

    /// The setting that a handle refers to, if it is live.
    pub open spec fn setting(self, h: Option<usize>) -> Option<Setting> {
        match self.check(h) {
            Ok(i) => Some(self.nodes[i as int]),
            Err(_) => None,
        }
    }

    /// The value of the scalar that a handle refers to.
    pub open spec fn value_of(self, h: Option<usize>) -> Option<ValueView> {
        match self.setting(h) {
            Some(n) => match n.content {
                Content::Scalar(v) => Some(v),
                _ => None,
            },
            None => None,
        }
    }

    /// The 32-bit integer that a handle refers to. A value of any other
    /// kind is not converted.
    pub open spec fn int32_of(self, h: Option<usize>) -> Option<i32> {
        match self.value_of(h) {
            Some(ValueView::Int32(v)) => Some(v),
            _ => None,
        }
    }

    /// The 64-bit integer that a handle refers to.
    pub open spec fn int64_of(self, h: Option<usize>) -> Option<i64> {
        match self.value_of(h) {
            Some(ValueView::Int64(v)) => Some(v),
            _ => None,
        }
    }

    /// The literal of the floating-point number that a handle refers to.
    pub open spec fn float_of(self, h: Option<usize>) -> Option<Seq<char>> {
        match self.value_of(h) {
            Some(ValueView::Float64(v)) => Some(v),
            _ => None,
        }
    }

    /// The boolean that a handle refers to.
    pub open spec fn bool_of(self, h: Option<usize>) -> Option<bool> {
        match self.value_of(h) {
            Some(ValueView::Bool(v)) => Some(v),
            _ => None,
        }
    }

    /// The string that a handle refers to.
    pub open spec fn string_of(self, h: Option<usize>) -> Option<Seq<char>> {
        match self.value_of(h) {
            Some(ValueView::Str(v)) => Some(v),
            _ => None,
        }
    }

    /// The 32-bit integer that a handle refers to, or `def` where it
    /// refers to none.
    pub open spec fn int32_or(self, h: Option<usize>, def: i32) -> i32 {
        match self.int32_of(h) {
            Some(v) => v,
            None => def,
        }
    }

    /// The 64-bit integer that a handle refers to, or `def`.
    pub open spec fn int64_or(self, h: Option<usize>, def: i64) -> i64 {
        match self.int64_of(h) {
            Some(v) => v,
            None => def,
        }
    }

    /// The literal of the floating-point number that a handle refers to,
    /// or `def`.
    pub open spec fn float_or(self, h: Option<usize>, def: Seq<char>) -> Seq<char> {
        match self.float_of(h) {
            Some(v) => v,
            None => def,
        }
    }

    /// The boolean that a handle refers to, or `def`.
    pub open spec fn bool_or(self, h: Option<usize>, def: bool) -> bool {
        match self.bool_of(h) {
            Some(v) => v,
            None => def,
        }
    }

    /// The string that a handle refers to, or `def`.
    pub open spec fn string_or(self, h: Option<usize>, def: Seq<char>) -> Seq<char> {
        match self.string_of(h) {
            Some(v) => v,
            None => def,
        }
    }

    /// The name of the file that the setting was read from: that of the
    /// text, for a setting that was read from one.
    pub open spec fn source_file_of(self, h: Option<usize>) -> Option<Seq<char>> {
        match self.setting(h) {
            Some(n) => if n.line > 0 {
                self.source_file
            } else {
                None
            },
            None => None,
        }
    }

    /// Where the setting `i` stands among the children of its parent.
    pub open spec fn index_of(self, h: Option<usize>) -> Option<usize> {
        match self.setting(h) {
            Some(n) => match n.parent {
                Some(p) => Some(
                    position_of(self.nodes[p as int].children, h.unwrap(), 0) as usize,
                ),
                None => None,
            },
            None => None,
        }
    }

    /// `c` is linked below `i` as a child should be.
    pub open spec fn child_ok(self, i: int, c: usize) -> bool {
        &&& i < c < self.nodes.len()
        &&& self.nodes[c as int].live
        &&& self.nodes[c as int].parent == Some(i as usize)
        &&& self.nodes[i].content.admits_name(self.nodes[c as int].name)
    }

    /// The setting at `i` is well formed.
    pub open spec fn node_wf(self, i: int) -> bool {
        let n = self.nodes[i];
        &&& n.content.wf(n.format)
        &&& n.content is Scalar ==> n.children.len() == 0
        &&& forall|k: int| 0 <= k < n.children.len() ==> self.child_ok(i, #[trigger] n.children[k])
        &&& forall|k: int, l: int|
            0 <= k < l < n.children.len() ==> #[trigger] n.children[k] != #[trigger] n.children[l]
        &&& n.content is Group ==> forall|k: int, l: int|
            0 <= k < l < n.children.len() ==> self.nodes[#[trigger] n.children[k] as int].name
                != self.nodes[#[trigger] n.children[l] as int].name
        &&& n.content is Array ==> forall|k: int|
            0 <= k < n.children.len() ==> {
                &&& self.nodes[#[trigger] n.children[k] as int].content is Scalar
                &&& self.nodes[n.children[k] as int].content.scalar_kind()
                    == self.nodes[n.children[0] as int].content.scalar_kind()
            }
        &&& match n.parent {
            Some(p) => p < i && self.nodes[p as int].live && self.nodes[p as int].children.contains(
                i as usize,
            ),
            None => self.root == Some(i as usize),
        }
    }

    /// The document is well formed: every live setting is, a dead place
    /// holds nothing, and the root is a live, nameless group.
    pub open spec fn wf(self) -> bool {
        &&& self.tab_width <= 15
        &&& self.nodes.len() <= usize::MAX
        &&& forall|i: int| #[trigger] self.live(i) ==> self.node_wf(i)
        &&& forall|i: int|
            0 <= i < self.nodes.len() && !(#[trigger] self.nodes[i]).live ==> self.nodes[i]
                == dead_setting()
        &&& self.root matches Some(r) ==> {
            &&& self.live(r as int)
            &&& self.nodes[r as int].parent is None
            &&& self.nodes[r as int].content is Group
            &&& self.nodes[r as int].name is None
        }
    }

    /// Well-formedness looks at the settings and the root only.
    pub proof fn lemma_wf_frame(self, other: Document)
        requires
            self.wf(),
            other.nodes == self.nodes,
            other.root == self.root,
            other.tab_width <= 15,
        ensures
            other.wf(),
    {
        assert forall|i: int| #[trigger] other.live(i) implies other.node_wf(i) by {
            assert(self.live(i));
            assert(self.node_wf(i));
            let n = self.nodes[i];
            assert forall|k: int| 0 <= k < n.children.len() implies other.child_ok(
                i,
                #[trigger] n.children[k],
            ) by {
                assert(self.child_ok(i, n.children[k]));
            }
        }
        if let Some(r) = self.root {
            assert(self.live(r as int));
        }
    }

    /// The first of `kids[from..]` that is called `name`.
    pub open spec fn find_named(self, kids: Seq<usize>, name: Seq<char>, from: int) -> Option<
        usize,
    >
        decreases kids.len() - from,
    {
        if 0 <= from < kids.len() {
            if 0 <= kids[from] < self.nodes.len() && self.nodes[kids[from] as int].name == Some(
                name,
            ) {
                Some(kids[from])
            } else {
                self.find_named(kids, name, from + 1)
            }
        } else {
            None
        }
    }

    /// The child of `i` that the path segment `seg` selects: in a group the
    /// member of that name, in an array or a list the element at the
    /// position that `seg` writes in decimal.
    pub open spec fn step(self, i: int, seg: Seq<char>) -> Option<usize> {
        let n = self.nodes[i];
        if seg.len() == 0 {
            None
        } else {
            match n.content {
                Content::Group => self.find_named(n.children, seg, 0),
                Content::Array | Content::List => if all_in(seg, CharClass::Digit) && digits_value(
                    seg,
                    10,
                ) < n.children.len() {
                    Some(n.children[digits_value(seg, 10) as int])
                } else {
                    None
                },
                Content::Scalar(_) => None,
            }
        }
    }

    /// The setting that the segments of `path` from position `at` on lead
    /// to, starting at the live setting `i`.
    pub open spec fn walk(self, i: int, path: Seq<char>, at: int) -> Option<usize>
        decreases path.len() - at,
    {
        if 0 <= at < path.len() {
            let end = segment_end(path, at);
            match self.step(i, path.subrange(at, end)) {
                None => None,
                Some(c) => if !self.live(c as int) {
                    None
                } else if end >= path.len() {
                    Some(c)
                } else if end + 1 >= path.len() || end < at {
                    None
                } else {
                    self.walk(c as int, path, end + 1)
                },
            }
        } else {
            None
        }
    }

    /// The setting that the dotted `path` leads to from the setting `i`.
    /// The empty path leads to `i` itself; an empty segment leads nowhere.
    pub open spec fn resolve(self, i: int, path: Seq<char>) -> Option<usize> {
        if !self.live(i) {
            None
        } else if path.len() == 0 {
            Some(i as usize)
        } else {
            self.walk(i, path, 0)
        }
    }

    /// The setting at `i` with everything below it.
    pub open spec fn tree_at(self, i: int) -> Tree
        decreases self.nodes.len() - i,
    {
        if 0 <= i < self.nodes.len() {
            let n = self.nodes[i];
            Tree {
                name: n.name,
                content: n.content,
                format: n.format,
                children: Seq::new(
                    n.children.len(),
                    |k: int|
                        if 0 <= i < self.nodes.len() && 0 <= k < n.children.len() && i
                            < n.children[k] < self.nodes.len() {
                            self.tree_at(n.children[k] as int)
                        } else {
                            arbitrary()
                        },
                ),
            }
        } else {
            arbitrary()
        }
    }

    /// The tree at a live setting is the setting, with the trees at its
    /// children below it.
    pub proof fn lemma_tree_at(self, i: int)
        requires
            self.wf(),
            self.live(i),
        ensures
            self.tree_at(i).name == self.nodes[i].name,
            self.tree_at(i).content == self.nodes[i].content,
            self.tree_at(i).format == self.nodes[i].format,
            self.tree_at(i).children.len() == self.nodes[i].children.len(),
            forall|k: int|
                0 <= k < self.nodes[i].children.len() ==> #[trigger] self.tree_at(i).children[k]
                    == self.tree_at(self.nodes[i].children[k] as int),
            forall|k: int|
                0 <= k < self.nodes[i].children.len() ==> self.live(
                    #[trigger] self.nodes[i].children[k] as int,
                ) && i < self.nodes[i].children[k],
    {
        assert(self.node_wf(i));
        let n = self.nodes[i];
        assert forall|k: int| 0 <= k < n.children.len() implies #[trigger] self.tree_at(
            i,
        ).children[k] == self.tree_at(n.children[k] as int) && self.live(n.children[k] as int) && i
            < n.children[k] by {
            assert(self.child_ok(i, n.children[k]));
        }
    }

    /// The children of a live setting are live and within the store.
    pub proof fn lemma_children_live(self, i: int)
        requires
            self.wf(),
            self.live(i),
        ensures
            forall|k: int|
                0 <= k < self.nodes[i].children.len() ==> self.live(
                    #[trigger] self.nodes[i].children[k] as int,
                ),
            forall|k: int|
                0 <= k < self.nodes[i].children.len() ==> #[trigger] self.nodes[i].children[k]
                    < self.nodes.len(),
    {
        assert(self.node_wf(i));
        assert forall|k: int| 0 <= k < self.nodes[i].children.len() implies self.live(
            #[trigger] self.nodes[i].children[k] as int,
        ) by {
            assert(self.child_ok(i, self.nodes[i].children[k]));
        }
    }

    /// The tree at a setting depends on the settings from it on only.
    pub proof fn lemma_tree_at_frame(self, other: Document, i: int)
        requires
            self.wf(),
            self.live(i),
            other.nodes.len() >= self.nodes.len(),
            forall|j: int| i <= j < self.nodes.len() ==> other.nodes[j] == self.nodes[j],
        ensures
            other.tree_at(i) == self.tree_at(i),
        decreases self.nodes.len() - i,
    {
        self.lemma_tree_at(i);
        let n = self.nodes[i];
        assert(other.nodes[i] == n);
        assert(self.node_wf(i));
        assert forall|k: int| 0 <= k < n.children.len() implies #[trigger] other.tree_at(
            i,
        ).children[k] == self.tree_at(i).children[k] by {
            assert(self.child_ok(i, n.children[k]));
            self.lemma_tree_at_frame(other, n.children[k] as int);
        }
        assert(other.tree_at(i).children =~= self.tree_at(i).children);
    }

    /// The tree at a live setting of a well-formed document is well formed
    /// below the parent of the setting.
    pub proof fn lemma_tree_at_wf(self, i: int)
        requires
            self.wf(),
            self.live(i),
        ensures
            siblings_wf(self.tree_at(i).children, self.nodes[i].content),
            forall|k: int|
                0 <= k < self.tree_at(i).children.len() ==> tree_wf(
                    #[trigger] self.tree_at(i).children[k],
                    self.nodes[i].content,
                ),
            self.nodes[i].parent matches Some(p) ==> tree_wf(
                self.tree_at(i),
                self.nodes[p as int].content,
            ),
        decreases self.nodes.len() - i,
    {
        self.lemma_tree_at(i);
        let n = self.nodes[i];
        let t = self.tree_at(i);
        assert(self.node_wf(i));
        assert forall|k: int| 0 <= k < t.children.len() implies tree_wf(
            #[trigger] t.children[k],
            n.content,
        ) by {
            let c = n.children[k];
            assert(self.child_ok(i, c));
            self.lemma_tree_at_wf(c as int);
            self.lemma_tree_at(c as int);
        }
        assert forall|k: int| 0 <= k < t.children.len() implies (#[trigger] t.children[k]).name
            == self.nodes[n.children[k] as int].name && t.children[k].content
            == self.nodes[n.children[k] as int].content by {
            assert(self.child_ok(i, n.children[k]));
            self.lemma_tree_at(n.children[k] as int);
        }
        if n.content is Group {
            assert forall|k: int, l: int| 0 <= k < l < t.children.len() implies (#[trigger] t.children[k]).name
                != (#[trigger] t.children[l]).name by {
                assert(self.nodes[n.children[k] as int].name
                    != self.nodes[n.children[l] as int].name);
            }
        }
        if let Some(p) = n.parent {
            assert(self.live(p as int));
            assert(self.node_wf(p as int));
            let w = choose|w: int|
                0 <= w < self.nodes[p as int].children.len() && self.nodes[p as int].children[w]
                    == i as usize;
            assert(self.child_ok(p as int, self.nodes[p as int].children[w]));
        }
    }

    /// The line that the setting at `i` was read from, with those of the
    /// settings below it.
    pub open spec fn lines_at(self, i: int) -> Lines
        decreases self.nodes.len() - i,
    {
        if 0 <= i < self.nodes.len() {
            let n = self.nodes[i];
            Lines {
                line: n.line,
                children: Seq::new(
                    n.children.len(),
                    |k: int|
                        if 0 <= i < self.nodes.len() && 0 <= k < n.children.len() && i
                            < n.children[k] < self.nodes.len() {
                            self.lines_at(n.children[k] as int)
                        } else {
                            arbitrary()
                        },
                ),
            }
        } else {
            arbitrary()
        }
    }

    /// The lines at a live setting are its own line, with the lines at its
    /// children below it.
    pub proof fn lemma_lines_at(self, i: int)
        requires
            self.wf(),
            self.live(i),
        ensures
            self.lines_at(i).line == self.nodes[i].line,
            self.lines_at(i).children.len() == self.nodes[i].children.len(),
            forall|k: int|
                0 <= k < self.nodes[i].children.len() ==> #[trigger] self.lines_at(i).children[k]
                    == self.lines_at(self.nodes[i].children[k] as int),
    {
        assert(self.node_wf(i));
        let n = self.nodes[i];
        assert forall|k: int| 0 <= k < n.children.len() implies #[trigger] self.lines_at(
            i,
        ).children[k] == self.lines_at(n.children[k] as int) by {
            assert(self.child_ok(i, n.children[k]));
        }
    }

    /// The lines at a setting depend on the settings from it on only.
    pub proof fn lemma_lines_at_frame(self, other: Document, i: int)
        requires
            self.wf(),
            self.live(i),
            other.nodes.len() >= self.nodes.len(),
            forall|j: int| i <= j < self.nodes.len() ==> other.nodes[j] == self.nodes[j],
        ensures
            other.lines_at(i) == self.lines_at(i),
        decreases self.nodes.len() - i,
    {
        self.lemma_lines_at(i);
        let n = self.nodes[i];
        assert(other.nodes[i] == n);
        assert(self.node_wf(i));
        assert forall|k: int| 0 <= k < n.children.len() implies #[trigger] other.lines_at(
            i,
        ).children[k] == self.lines_at(i).children[k] by {
            assert(self.child_ok(i, n.children[k]));
            self.lemma_lines_at_frame(other, n.children[k] as int);
        }
        assert(other.lines_at(i).children =~= self.lines_at(i).children);
    }

    /// The whole document as a tree, when it has a root.
    pub open spec fn tree(self) -> Option<Tree> {
        match self.root {
            Some(r) => Some(self.tree_at(r as int)),
            None => None,
        }
    }
}

} // verus!
