//! How a document changes when a setting is added or taken out, and why it
//! stays well formed.

use vstd::prelude::*;
use crate::chars::valid_name;
use crate::errors::Errors;
use crate::model::{dead_setting, Content, Document, Setting};
use crate::value::{Format, OptionType, ValueView};

verus! {

/// The first position at or after `from` where `kids` holds `c`, or the
/// length of `kids`.
pub open spec fn position_of(kids: Seq<usize>, c: usize, from: int) -> int
    decreases kids.len() - from,
{
    if 0 <= from < kids.len() && kids[from] != c {
        position_of(kids, c, from + 1)
    } else {
        from
    }
}

/// Where a value that occurs in `kids` is first found.
pub proof fn lemma_position_of(kids: Seq<usize>, c: usize, from: int)
    requires
        0 <= from <= kids.len(),
    ensures
        from <= position_of(kids, c, from) <= kids.len(),
        position_of(kids, c, from) < kids.len() ==> kids[position_of(kids, c, from)] == c,
        forall|k: int| from <= k < position_of(kids, c, from) ==> #[trigger] kids[k] != c,
    decreases kids.len() - from,
{
    if from < kids.len() && kids[from] != c {
        lemma_position_of(kids, c, from + 1);
    }
}

impl Document {
    /// The name that a new member of the setting `p` gets when the caller
    /// asks for `name`: elements of arrays and lists have none.
    pub open spec fn member_name(self, p: int, name: Seq<char>) -> Option<Seq<char>> {
        if self.nodes[p].content is Group {
            Some(name)
        } else {
            None
        }
    }

    /// Why a group, an array or a list called `name` cannot be created
    /// under the setting that `h` refers to; `None` when it can.
    pub open spec fn create_error(self, h: Option<usize>, name: Seq<char>) -> Option<Errors> {
        match self.check(h) {
            Err(e) => Some(e),
            Ok(p) => if !(self.nodes[p as int].content is Group) {
                Some(Errors::NotAGroup)
            } else if !valid_name(name) {
                Some(Errors::InvalidName)
            } else if self.find_named(self.nodes[p as int].children, name, 0) is Some {
                Some(Errors::DuplicateName)
            } else {
                None
            },
        }
    }

    /// Why a scalar of kind `kind` called `name` cannot be added to the
    /// setting that `h` refers to; `None` when it can. A group wants a
    /// fresh, valid name; an array wants the kind of its elements; a list
    /// takes anything.
    pub open spec fn write_error(self, h: Option<usize>, name: Seq<char>, kind: OptionType)
        -> Option<Errors> {
        match self.check(h) {
            Err(e) => Some(e),
            Ok(p) => {
                let n = self.nodes[p as int];
                match n.content {
                    Content::Group => if !valid_name(name) {
                        Some(Errors::InvalidName)
                    } else if self.find_named(n.children, name, 0) is Some {
                        Some(Errors::DuplicateName)
                    } else {
                        None
                    },
                    Content::Array => if n.children.len() > 0 && self.nodes[n.children[0] as int].content.scalar_kind()
                        != Some(kind) {
                        Some(Errors::TypeMismatch)
                    } else {
                        None
                    },
                    Content::List => None,
                    Content::Scalar(_) => Some(Errors::NotAnAggregate),
                }
            },
        }
    }

    /// The document with a new setting appended as the last child of `p`.
    /// The new setting takes the first free position, and was read from no
    /// text.
    pub open spec fn attach(
        self,
        p: int,
        name: Option<Seq<char>>,
        content: Content,
        format: Format,
    ) -> Document {
        self.attach_lined(p, name, content, format, 0)
    }

    /// The document with a new setting, read from line `line` of a text,
    /// appended as the last child of `p`. The new setting takes the first
    /// free position.
    pub open spec fn attach_lined(
        self,
        p: int,
        name: Option<Seq<char>>,
        content: Content,
        format: Format,
        line: usize,
    ) -> Document {
        let parent = self.nodes[p];
        let child = Setting {
            live: true,
            name,
            content,
            format,
            parent: Some(p as usize),
            children: Seq::empty(),
            line,
        };
        Document {
            nodes: self.nodes.update(
                p,
                Setting { children: parent.children.push(self.nodes.len() as usize), ..parent },
            ).push(child),
            ..self
        }
    }

    /// What must hold for `attach` to keep the document well formed.
    pub open spec fn can_attach(
        self,
        p: int,
        name: Option<Seq<char>>,
        content: Content,
        format: Format,
    ) -> bool {
        let parent = self.nodes[p];
        &&& self.live(p)
        &&& content.wf(format)
        &&& parent.content.admits_name(name)
        &&& parent.content is Group ==> self.find_named(parent.children, name.unwrap(), 0) is None
        &&& parent.content is Array ==> content is Scalar && (parent.children.len() > 0
            ==> self.nodes[parent.children[0] as int].content.scalar_kind()
            == content.scalar_kind())
    }

    /// No child among `kids[from..]` is called `name` exactly when the
    /// search for it finds nothing; what it finds is a child of that name.
    pub proof fn lemma_find_named(self, kids: Seq<usize>, name: Seq<char>, from: int)
        requires
            0 <= from <= kids.len(),
            forall|k: int| 0 <= k < kids.len() ==> #[trigger] kids[k] < self.nodes.len(),
        ensures
            self.find_named(kids, name, from) is None <==> forall|k: int|
                from <= k < kids.len() ==> self.nodes[#[trigger] kids[k] as int].name != Some(name),
            self.find_named(kids, name, from) matches Some(c) ==> {
                &&& exists|k: int| from <= k < kids.len() && kids[k] == c
                &&& self.nodes[c as int].name == Some(name)
            },
        decreases kids.len() - from,
    {
        if from < kids.len() {
            self.lemma_find_named(kids, name, from + 1);
            if self.nodes[kids[from] as int].name == Some(name) {
                assert(kids[from] == self.find_named(kids, name, from).unwrap());
            } else {
                if self.find_named(kids, name, from) is Some {
                    let c = self.find_named(kids, name, from).unwrap();
                    let k = choose|k: int| from + 1 <= k < kids.len() && kids[k] == c;
                    assert(from <= k < kids.len() && kids[k] == c);
                }
            }
        }
    }

    proof fn lemma_children_in_range(self, p: int)
        requires
            self.wf(),
            self.live(p),
        ensures
            forall|k: int|
                0 <= k < self.nodes[p].children.len() ==> self.child_ok(
                    p,
                    #[trigger] self.nodes[p].children[k],
                ),
    {
        assert(self.node_wf(p));
    }

    proof fn lemma_attach_fresh_wf(
        self,
        p: int,
        name: Option<Seq<char>>,
        content: Content,
        format: Format,
        line: usize,
    )
        requires
            self.wf(),
            self.can_attach(p, name, content, format),
            self.nodes.len() < usize::MAX,
        ensures
            self.attach_lined(p, name, content, format, line).node_wf(self.nodes.len() as int),
    {
        let after = self.attach_lined(p, name, content, format, line);
        let fresh = self.nodes.len() as int;
        let parent = self.nodes[p];
        assert(after.nodes[p].children[parent.children.len() as int] == fresh as usize);
        assert(after.nodes[p].children.contains(fresh as usize));
    }

    proof fn lemma_attach_parent_wf(
        self,
        p: int,
        name: Option<Seq<char>>,
        content: Content,
        format: Format,
        line: usize,
    )
        requires
            self.wf(),
            self.can_attach(p, name, content, format),
            self.nodes.len() < usize::MAX,
        ensures
            self.attach_lined(p, name, content, format, line).node_wf(p),
    {
        let after = self.attach_lined(p, name, content, format, line);
        let fresh = self.nodes.len() as int;
        let parent = self.nodes[p];
        let n = after.nodes[p];
        let old_len = parent.children.len() as int;
        assert(self.node_wf(p));
        self.lemma_children_in_range(p);
        assert(n.children.len() == old_len + 1);
        assert(n.children[old_len] == fresh as usize);
        assert forall|k: int| 0 <= k < old_len implies #[trigger] n.children[k]
            == parent.children[k] && self.child_ok(p, parent.children[k]) by {}
        if parent.content is Group {
            self.lemma_find_named(parent.children, name.unwrap(), 0);
        }
        assert forall|k: int| 0 <= k < n.children.len() implies after.child_ok(
            p,
            #[trigger] n.children[k],
        ) by {
            if k < old_len {
                assert(n.children[k] == parent.children[k]);
            }
        }
        assert forall|k: int, l: int| 0 <= k < l < n.children.len() implies #[trigger] n.children[k]
            != #[trigger] n.children[l] by {
            assert(n.children[k] == parent.children[k]);
            if l < old_len {
                assert(n.children[l] == parent.children[l]);
            }
        }
        if n.content is Group {
            assert forall|k: int, l: int| 0 <= k < l < n.children.len() implies after.nodes[#[trigger] n.children[k] as int].name
                != after.nodes[#[trigger] n.children[l] as int].name by {
                assert(n.children[k] == parent.children[k]);
                assert(after.nodes[n.children[k] as int] == self.nodes[parent.children[k] as int]);
                if l < old_len {
                    assert(n.children[l] == parent.children[l]);
                    assert(after.nodes[n.children[l] as int]
                        == self.nodes[parent.children[l] as int]);
                }
            }
        }
        if n.content is Array {
            assert forall|k: int| 0 <= k < n.children.len() implies {
                &&& after.nodes[#[trigger] n.children[k] as int].content is Scalar
                &&& after.nodes[n.children[k] as int].content.scalar_kind()
                    == after.nodes[n.children[0] as int].content.scalar_kind()
            } by {
                if old_len > 0 {
                    assert(n.children[0] == parent.children[0]);
                }
                if k < old_len {
                    assert(n.children[k] == parent.children[k]);
                }
            }
        }
        if let Some(pp) = n.parent {
            assert(self.live(pp as int));
            assert(after.nodes[pp as int] == self.nodes[pp as int]);
        }
    }

    proof fn lemma_attach_other_wf(
        self,
        p: int,
        name: Option<Seq<char>>,
        content: Content,
        format: Format,
        line: usize,
        i: int,
    )
        requires
            self.wf(),
            self.can_attach(p, name, content, format),
            self.live(i),
            i != p,
        ensures
            self.attach_lined(p, name, content, format, line).node_wf(i),
    {
        let after = self.attach_lined(p, name, content, format, line);
        let parent = self.nodes[p];
        let n = after.nodes[i];
        assert(self.node_wf(i));
        assert(n == self.nodes[i]);
        self.lemma_children_in_range(i);
        assert forall|k: int| 0 <= k < n.children.len() implies after.child_ok(
            i,
            #[trigger] n.children[k],
        ) by {
            assert(self.child_ok(i, n.children[k]));
        }
        assert forall|k: int| 0 <= k < n.children.len() implies after.nodes[#[trigger] n.children[k] as int].name
            == self.nodes[n.children[k] as int].name && after.nodes[n.children[k] as int].content
            == self.nodes[n.children[k] as int].content by {
            assert(self.child_ok(i, n.children[k]));
        }
        if let Some(pp) = n.parent {
            assert(self.live(pp as int));
            if pp == p {
                let k = choose|k: int|
                    0 <= k < parent.children.len() && parent.children[k] == i as usize;
                assert(after.nodes[p].children[k] == i as usize);
            }
        }
    }

    /// Adding a setting where it is allowed keeps the document well formed.
    pub proof fn lemma_attach_lined_wf(
        self,
        p: int,
        name: Option<Seq<char>>,
        content: Content,
        format: Format,
        line: usize,
    )
        requires
            self.wf(),
            self.can_attach(p, name, content, format),
            self.nodes.len() < usize::MAX,
        ensures
            self.attach_lined(p, name, content, format, line).wf(),
    {
        let after = self.attach_lined(p, name, content, format, line);
        assert forall|i: int| #[trigger] after.live(i) implies after.node_wf(i) by {
            if i == self.nodes.len() {
                self.lemma_attach_fresh_wf(p, name, content, format, line);
            } else if i == p {
                self.lemma_attach_parent_wf(p, name, content, format, line);
            } else {
                assert(self.live(i));
                self.lemma_attach_other_wf(p, name, content, format, line, i);
            }
        }
        if let Some(r) = self.root {
            assert(self.live(r as int));
        }
    }

    /// Adding a setting where it is allowed keeps the document well formed.
    pub proof fn lemma_attach_wf(
        self,
        p: int,
        name: Option<Seq<char>>,
        content: Content,
        format: Format,
    )
        requires
            self.wf(),
            self.can_attach(p, name, content, format),
            self.nodes.len() < usize::MAX,
        ensures
            self.attach(p, name, content, format).wf(),
    {
        self.lemma_attach_lined_wf(p, name, content, format, 0);
    }

    /// The setting at `j` is the one at `i` or lies below it.
    pub open spec fn in_subtree(self, j: int, i: int) -> bool
        decreases j,
    {
        if j == i {
            true
        } else if i < j < self.nodes.len() {
            match self.nodes[j].parent {
                Some(p) => p < j && self.in_subtree(p as int, i),
                None => false,
            }
        } else {
            false
        }
    }

    /// Why the setting that `h` refers to cannot be deleted; `None` when it
    /// can. The root stays.
    pub open spec fn delete_error(self, h: Option<usize>) -> Option<Errors> {
        match self.check(h) {
            Err(e) => Some(e),
            Ok(i) => if self.nodes[i as int].parent is None {
                Some(Errors::ElementNotExists)
            } else {
                None
            },
        }
    }

    /// The document without the setting at `i` and all below it: their
    /// places are dead, and the parent of `i` no longer lists it.
    pub open spec fn detach(self, i: int) -> Document {
        let p = self.nodes[i].parent.unwrap() as int;
        let kids = self.nodes[p].children;
        Document {
            nodes: Seq::new(
                self.nodes.len(),
                |j: int|
                    if self.in_subtree(j, i) {
                        dead_setting()
                    } else if j == p {
                        Setting {
                            children: kids.remove(position_of(kids, i as usize, 0)),
                            ..self.nodes[p]
                        }
                    } else {
                        self.nodes[j]
                    },
            ),
            ..self
        }
    }

    /// A live setting other than `i` lies below `i` exactly when its parent
    /// does or is `i`.
    proof fn lemma_subtree_step(self, j: int, i: int)
        requires
            self.wf(),
            self.live(j),
            self.live(i),
            j != i,
        ensures
            self.in_subtree(j, i) <==> (self.nodes[j].parent is Some && self.in_subtree(
                self.nodes[j].parent.unwrap() as int,
                i,
            )),
            self.in_subtree(j, i) ==> j > i,
    {
        assert(self.node_wf(j));
        if self.nodes[j].parent is Some {
            let q = self.nodes[j].parent.unwrap() as int;
            if self.in_subtree(q, i) {
                assert(q >= i);
            }
        }
    }

    proof fn lemma_detach_child(self, i: int, j: int, c: usize)
        requires
            self.wf(),
            self.live(i),
            self.nodes[i].parent is Some,
            self.live(j),
            !self.in_subtree(j, i),
            self.child_ok(j, c),
            c != i,
        ensures
            !self.in_subtree(c as int, i),
            self.detach(i).nodes[c as int].live,
            self.detach(i).nodes[c as int].name == self.nodes[c as int].name,
            self.detach(i).nodes[c as int].content == self.nodes[c as int].content,
            self.detach(i).nodes[c as int].parent == self.nodes[c as int].parent,
    {
        assert(self.live(c as int));
        self.lemma_subtree_step(c as int, i);
    }

    proof fn lemma_detach_parent_wf(self, i: int)
        requires
            self.wf(),
            self.live(i),
            self.nodes[i].parent is Some,
        ensures
            self.detach(i).node_wf(self.nodes[i].parent.unwrap() as int),
    {
        let after = self.detach(i);
        let p = self.nodes[i].parent.unwrap() as int;
        let parent = self.nodes[p];
        let kids = parent.children;
        let pos = position_of(kids, i as usize, 0);
        assert(self.node_wf(i));
        assert(self.live(p));
        assert(self.node_wf(p));
        lemma_position_of(kids, i as usize, 0);
        assert(pos < kids.len()) by {
            let k = choose|k: int| 0 <= k < kids.len() && kids[k] == i as usize;
            assert(kids[k] == i as usize);
        }
        assert(!self.in_subtree(p, i));
        let n = after.nodes[p];
        assert(n.children == kids.remove(pos));
        assert forall|k: int| 0 <= k < n.children.len() implies #[trigger] n.children[k] == kids[if k
            < pos {
            k
        } else {
            k + 1
        }] by {}
        assert forall|k: int| 0 <= k < n.children.len() implies after.child_ok(
            p,
            #[trigger] n.children[k],
        ) by {
            let ko = if k < pos {
                k
            } else {
                k + 1
            };
            assert(n.children[k] == kids[ko]);
            assert(self.child_ok(p, kids[ko]));
            assert(kids[ko] != kids[pos]);
            self.lemma_detach_child(i, p, kids[ko]);
        }
        assert forall|k: int, l: int| 0 <= k < l < n.children.len() implies #[trigger] n.children[k]
            != #[trigger] n.children[l] by {
            let ko = if k < pos {
                k
            } else {
                k + 1
            };
            let lo = if l < pos {
                l
            } else {
                l + 1
            };
            assert(n.children[k] == kids[ko]);
            assert(n.children[l] == kids[lo]);
        }
        if n.content is Group {
            assert forall|k: int, l: int| 0 <= k < l < n.children.len() implies after.nodes[#[trigger] n.children[k] as int].name
                != after.nodes[#[trigger] n.children[l] as int].name by {
                let ko = if k < pos {
                    k
                } else {
                    k + 1
                };
                let lo = if l < pos {
                    l
                } else {
                    l + 1
                };
                assert(n.children[k] == kids[ko]);
                assert(n.children[l] == kids[lo]);
                assert(self.child_ok(p, kids[ko]));
                assert(self.child_ok(p, kids[lo]));
                assert(kids[ko] != kids[pos]);
                assert(kids[lo] != kids[pos]);
                self.lemma_detach_child(i, p, kids[ko]);
                self.lemma_detach_child(i, p, kids[lo]);
            }
        }
        if n.content is Array {
            assert forall|k: int| 0 <= k < n.children.len() implies {
                &&& after.nodes[#[trigger] n.children[k] as int].content is Scalar
                &&& after.nodes[n.children[k] as int].content.scalar_kind()
                    == after.nodes[n.children[0] as int].content.scalar_kind()
            } by {
                let ko = if k < pos {
                    k
                } else {
                    k + 1
                };
                let zo = if 0 < pos {
                    0
                } else {
                    1int
                };
                assert(n.children[k] == kids[ko]);
                assert(n.children[0] == kids[zo]);
                assert(self.child_ok(p, kids[ko]));
                assert(self.child_ok(p, kids[zo]));
                assert(self.child_ok(p, kids[0]));
                assert(kids[ko] != kids[pos]);
                assert(kids[zo] != kids[pos]);
                self.lemma_detach_child(i, p, kids[ko]);
                self.lemma_detach_child(i, p, kids[zo]);
            }
        }
        if let Some(q) = n.parent {
            assert(self.live(q as int));
            assert(!self.in_subtree(q as int, i));
            assert(after.nodes[q as int] == self.nodes[q as int]);
        }
    }

    proof fn lemma_detach_other_wf(self, i: int, j: int)
        requires
            self.wf(),
            self.live(i),
            self.nodes[i].parent is Some,
            self.live(j),
            !self.in_subtree(j, i),
            j != self.nodes[i].parent.unwrap(),
        ensures
            self.detach(i).node_wf(j),
    {
        let after = self.detach(i);
        let p = self.nodes[i].parent.unwrap() as int;
        let kids = self.nodes[p].children;
        let pos = position_of(kids, i as usize, 0);
        let n = after.nodes[j];
        assert(n == self.nodes[j]);
        assert(self.node_wf(j));
        assert(self.node_wf(i));
        assert forall|k: int| 0 <= k < n.children.len() implies after.child_ok(
            j,
            #[trigger] n.children[k],
        ) && after.nodes[n.children[k] as int].content == self.nodes[n.children[k] as int].content
            && after.nodes[n.children[k] as int].name == self.nodes[n.children[k] as int].name by {
            assert(self.child_ok(j, n.children[k]));
            self.lemma_detach_child(i, j, n.children[k]);
        }
        if let Some(q) = n.parent {
            assert(self.live(q as int));
            self.lemma_subtree_step(j, i);
            assert(!self.in_subtree(q as int, i));
            if q == p {
                lemma_position_of(kids, i as usize, 0);
                assert(pos < kids.len()) by {
                    let w = choose|w: int| 0 <= w < kids.len() && kids[w] == i as usize;
                    assert(kids[w] == i as usize);
                }
                let k = choose|k: int| 0 <= k < kids.len() && kids[k] == j as usize;
                assert(kids[k] == j as usize);
                assert(self.in_subtree(i, i));
                assert(j != i);
                assert(k != pos);
                let kn = if k < pos {
                    k
                } else {
                    k - 1
                };
                let rest = kids.remove(pos);
                assert(rest.len() == kids.len() - 1);
                assert(rest[kn] == j as usize);
                assert(after.nodes[p].children == rest);
                assert(rest.contains(j as usize));
            }
        }
    }

    /// Taking a setting out, with all below it, keeps the document well
    /// formed and leaves the setting dead.
    pub proof fn lemma_detach_wf(self, i: int)
        requires
            self.wf(),
            self.live(i),
            self.nodes[i].parent is Some,
        ensures
            self.detach(i).wf(),
            !self.detach(i).live(i),
            forall|j: int| self.in_subtree(j, i) ==> !self.detach(i).live(j),
    {
        let after = self.detach(i);
        let p = self.nodes[i].parent.unwrap() as int;
        assert(self.node_wf(i));
        assert forall|j: int| #[trigger] after.live(j) implies after.node_wf(j) by {
            assert(!self.in_subtree(j, i));
            assert(self.live(j));
            if j == p {
                self.lemma_detach_parent_wf(i);
            } else {
                self.lemma_detach_other_wf(i, j);
            }
        }
        if let Some(r) = self.root {
            assert(self.live(r as int));
            assert(self.node_wf(r as int));
            assert(!self.in_subtree(r as int, i));
        }
    }

    /// The document with every setting gone and no root.
    pub open spec fn cleared(self) -> Document {
        Document {
            nodes: Seq::new(self.nodes.len(), |j: int| dead_setting()),
            root: None,
            ..self
        }
    }

    /// The document with a new, empty root group in the first free place.
    pub open spec fn with_root(self) -> Document {
        Document {
            nodes: self.nodes.push(
                Setting {
                    live: true,
                    name: None,
                    content: Content::Group,
                    format: Format::Decimal,
                    parent: None,
                    children: Seq::empty(),
                    line: 0,
                },
            ),
            root: Some(self.nodes.len() as usize),
            ..self
        }
    }

    /// Why the setting that `h` refers to cannot be written in `format`;
    /// `None` when it can. Only integers are written in hexadecimal.
    pub open spec fn format_error(self, h: Option<usize>, format: Format) -> Option<Errors> {
        match self.check(h) {
            Err(e) => Some(e),
            Ok(i) => if format == Format::Hex && !(self.nodes[i as int].content matches Content::Scalar(
                v,
            ) && v.is_integer()) {
                Some(Errors::TypeMismatch)
            } else {
                None
            },
        }
    }

    /// The document with the setting at `i` written in `format`.
    pub open spec fn with_format(self, i: int, format: Format) -> Document {
        Document { nodes: self.nodes.update(i, Setting { format, ..self.nodes[i] }), ..self }
    }

    /// Giving a setting a format that suits it keeps the document well
    /// formed.
    pub proof fn lemma_with_format_wf(self, i: int, format: Format)
        requires
            self.wf(),
            self.live(i),
            self.nodes[i].content.wf(format),
        ensures
            self.with_format(i, format).wf(),
    {
        let after = self.with_format(i, format);
        assert forall|j: int| #[trigger] after.live(j) implies after.node_wf(j) by {
            assert(self.live(j));
            assert(self.node_wf(j));
            let n = after.nodes[j];
            assert(n.children == self.nodes[j].children);
            assert forall|k: int| 0 <= k < n.children.len() implies after.child_ok(
                j,
                #[trigger] n.children[k],
            ) && after.nodes[n.children[k] as int].name == self.nodes[n.children[k] as int].name
                && after.nodes[n.children[k] as int].content
                == self.nodes[n.children[k] as int].content by {
                assert(self.child_ok(j, n.children[k]));
            }
            if let Some(p) = n.parent {
                assert(after.nodes[p as int].children == self.nodes[p as int].children);
            }
        }
        if let Some(r) = self.root {
            assert(self.live(r as int));
        }
    }

    /// Why the setting that `h` refers to cannot take a new value of kind
    /// `kind`; `None` when it can. A scalar keeps its kind.
    pub open spec fn set_error(self, h: Option<usize>, kind: OptionType) -> Option<Errors> {
        match self.check(h) {
            Err(e) => Some(e),
            Ok(i) => if self.nodes[i as int].content.scalar_kind() == Some(kind) {
                None
            } else {
                Some(Errors::TypeMismatch)
            },
        }
    }

    /// The document with `v` as the value of the scalar at `i`.
    pub open spec fn with_value(self, i: int, v: ValueView) -> Document {
        Document {
            nodes: self.nodes.update(i, Setting { content: Content::Scalar(v), ..self.nodes[i] }),
            ..self
        }
    }

    /// Giving a scalar another value of its kind keeps the document well
    /// formed.
    pub proof fn lemma_with_value_wf(self, i: int, v: ValueView)
        requires
            self.wf(),
            self.live(i),
            self.nodes[i].content.scalar_kind() == Some(v.kind()),
            v.wf(),
        ensures
            self.with_value(i, v).wf(),
    {
        let after = self.with_value(i, v);
        assert forall|j: int| #[trigger] after.live(j) implies after.node_wf(j) by {
            assert(self.live(j));
            assert(self.node_wf(j));
            let n = after.nodes[j];
            assert(n.children == self.nodes[j].children);
            assert forall|k: int| 0 <= k < n.children.len() implies after.child_ok(
                j,
                #[trigger] n.children[k],
            ) && after.nodes[n.children[k] as int].name == self.nodes[n.children[k] as int].name
                && after.nodes[n.children[k] as int].content.scalar_kind()
                == self.nodes[n.children[k] as int].content.scalar_kind()
                && (after.nodes[n.children[k] as int].content is Scalar)
                == (self.nodes[n.children[k] as int].content is Scalar) by {
                assert(self.child_ok(j, n.children[k]));
            }
            if let Some(p) = n.parent {
                assert(after.nodes[p as int].children == self.nodes[p as int].children);
            }
        }
        if let Some(r) = self.root {
            assert(self.live(r as int));
        }
    }
}

} // verus!
