//! Reading a text into a document.

use vstd::prelude::*;
use crate::chars::to_chars;
use crate::config::{text_view, Config, Payload};
use crate::errors::Errors;
use crate::lexer::line_number;
use crate::model::{siblings_wf, tree_wf, value_wf, Content, Document, Lines, Setting};
use crate::parse::{lemma_model_children, lines_all, models, read_document, Node};
use crate::syntax::{clip, document_lines, line_of, parse_document};

verus! {

impl Payload {
    /// A copy of the payload.
    pub fn duplicate(&self) -> (r: Payload)
        ensures
            r@ == self@,
            self@ matches Content::Scalar(v) ==> v.wf(),
    {
        match self {
            Payload::Group => Payload::Group,
            Payload::Array => Payload::Array,
            Payload::List => Payload::List,
            Payload::Scalar(v) => Payload::Scalar(v.duplicate()),
        }
    }
}

/// What the settings made before a graft look like after it: as before,
/// but for the setting `p`, which has the new child `c` at the end.
pub open spec fn grafted(before: Document, after: Document, p: int, c: usize) -> bool {
    &&& after.nodes.len() > before.nodes.len()
    &&& c == before.nodes.len()
    &&& after == (Document { nodes: after.nodes, ..before })
    &&& after.nodes[p] == (Setting {
        children: before.nodes[p].children.push(c),
        ..before.nodes[p]
    })
    &&& forall|j: int|
        0 <= j < before.nodes.len() && j != p ==> #[trigger] after.nodes[j] == before.nodes[j]
}

/// What the settings made before the children of `c` were filled in look
/// like after it: as before, but for the children of `c`.
pub open spec fn filled(before: Document, after: Document, c: int) -> bool {
    &&& after.nodes.len() >= before.nodes.len()
    &&& after == (Document { nodes: after.nodes, ..before })
    &&& after.nodes[c] == (Setting { children: after.nodes[c].children, ..before.nodes[c] })
    &&& forall|j: int|
        0 <= j < before.nodes.len() && j != c ==> #[trigger] after.nodes[j] == before.nodes[j]
}

/// What loading `text` under the name `file` makes of a document, and
/// what it answers.
///
/// The settings that were there are gone, and handles to them are stale;
/// the options of the document stay. Where the text is a document, its
/// tree is the tree of the document afterwards, and each setting knows the
/// line it was read from. Where it is not, the document has no root, and
/// the answer is a parse error with the line at which the text went wrong.
pub open spec fn loaded(
    before: Document,
    after: Document,
    text: Seq<char>,
    file: Option<Seq<char>>,
    r: Result<(), Errors>,
) -> bool {
    &&& after == (Document { nodes: after.nodes, root: after.root, source_file: file, ..before })
    &&& after.nodes.len() >= before.nodes.len()
    &&& forall|i: int| 0 <= i < before.nodes.len() ==> !after.live(i)
    &&& match parse_document(text) {
        Ok(t) => {
            &&& r is Ok
            &&& after.tree() == Some(t)
            &&& after.lines_at(after.root.unwrap() as int) == (Lines {
                line: 0,
                children: document_lines(text),
            })
        },
        Err(p) => {
            &&& r == Err::<(), Errors>(Errors::ParseError { line: clip(line_of(text, p)) })
            &&& after.root is None
            &&& forall|i: int| !after.live(i)
        },
    }
}

impl Config {
    /// Gives the childless setting at `c` the children of `node`, with all
    /// below them.
    fn graft_children(&mut self, c: usize, node: &Node)
        requires
            old(self).wf(),
            old(self)@.live(c as int),
            old(self)@.nodes[c as int].children.len() == 0,
            old(self)@.nodes[c as int].content == node.payload@,
            old(self)@.nodes[c as int].format == node.format,
            siblings_wf(models(node.children@), node.payload@),
            forall|k: int|
                0 <= k < node.children@.len() ==> tree_wf(
                    #[trigger] models(node.children@)[k],
                    node.payload@,
                ),
        ensures
            final(self).wf(),
            filled(old(self)@, final(self)@, c as int),
            final(self)@.tree_at(c as int).children == models(node.children@),
            final(self)@.lines_at(c as int).children == lines_all(node.children@),
        decreases node, 0nat,
    {
        let ghost start = self@;
        let ghost ms = models(node.children@);
        let mut k: usize = 0;
        proof {
            start.lemma_tree_at(c as int);
        }
        while k < node.children.len()
            invariant
                self.wf(),
                start.wf(),
                start.live(c as int),
                self@.live(c as int),
                filled(start, self@, c as int),
                start.nodes[c as int].content == node.payload@,
                ms == models(node.children@),
                siblings_wf(ms, node.payload@),
                forall|j: int| 0 <= j < ms.len() ==> tree_wf(#[trigger] ms[j], node.payload@),
                k <= node.children.len(),
                self@.nodes[c as int].children.len() == k,
                forall|j: int|
                    0 <= j < k ==> self@.tree_at(
                        #[trigger] self@.nodes[c as int].children[j] as int,
                    ) == ms[j],
                forall|j: int|
                    0 <= j < k ==> self@.lines_at(
                        #[trigger] self@.nodes[c as int].children[j] as int,
                    ) == lines_all(node.children@)[j],
            decreases node.children.len() - k,
        {
            let child = &node.children[k];
            let ghost before = self@;
            let ghost kids = before.nodes[c as int].children;
            proof {
                lemma_model_children(*child);
                assert(ms[k as int] == child.model());
                assert(tree_wf(ms[k as int], node.payload@));
                before.lemma_tree_at(c as int);
                assert forall|j: int| 0 <= j < kids.len() implies #[trigger] kids[j]
                    < before.nodes.len() && before.nodes[kids[j] as int].name == ms[j].name
                    && before.nodes[kids[j] as int].content == ms[j].content by {
                    before.lemma_tree_at(kids[j] as int);
                }
                if node.payload@ is Group {
                    before.lemma_find_named(kids, child.model().name.unwrap(), 0);
                }
                if node.payload@ is Array && kids.len() > 0 {
                    assert(before.nodes[kids[0] as int].content == ms[0].content);
                }
            }
            let cc = self.graft(c, child);
            proof {
                let after = self@;
                assert forall|j: int| 0 <= j < k + 1 implies after.tree_at(
                    #[trigger] after.nodes[c as int].children[j] as int,
                ) == ms[j] by {
                    if j < k {
                        let x = kids[j];
                        assert(after.nodes[c as int].children[j] == x);
                        assert(before.live(x as int) && c < x);
                        before.lemma_tree_at_frame(after, x as int);
                    }
                }
                assert forall|j: int| 0 <= j < k + 1 implies after.lines_at(
                    #[trigger] after.nodes[c as int].children[j] as int,
                ) == lines_all(node.children@)[j] by {
                    if j < k {
                        let x = kids[j];
                        assert(after.nodes[c as int].children[j] == x);
                        assert(before.live(x as int) && c < x);
                        before.lemma_lines_at_frame(after, x as int);
                    }
                }
            }
            k += 1;
        }
        proof {
            self@.lemma_tree_at(c as int);
            self@.lemma_lines_at(c as int);
            assert(self@.tree_at(c as int).children =~= ms);
            assert(self@.lines_at(c as int).children =~= lines_all(node.children@));
        }
    }

    /// Adds `node`, with all below it, as the last child of the setting at
    /// `p`, and returns the position of the new setting.
    fn graft(&mut self, p: usize, node: &Node) -> (c: usize)
        requires
            old(self).wf(),
            old(self)@.can_attach(p as int, node.model().name, node.payload@, node.format),
            value_wf(node.model()),
        ensures
            final(self).wf(),
            grafted(old(self)@, final(self)@, p as int, c),
            final(self)@.live(c as int),
            final(self)@.tree_at(c as int) == node.model(),
            final(self)@.lines_at(c as int) == node.lines(),
        decreases node, 1nat,
    {
        proof {
            lemma_model_children(*node);
        }
        let name = match &node.name {
            Some(n) => Some(n.clone()),
            None => None,
        };
        let c = self.attach_lined(p, name, node.payload.duplicate(), node.format, node.line);
        self.graft_children(c, node);
        proof {
            self@.lemma_tree_at(c as int);
            self@.lemma_lines_at(c as int);
            assert(self@.tree_at(c as int) == node.model());
            assert(self@.lines_at(c as int) == node.lines());
        }
        c
    }

    /// Parse configuration from string.
    ///
    /// The text replaces whatever the document held: every handle made
    /// before is stale afterwards. Where the text is no document, the
    /// document is left without a root and the error tells the line.
    pub fn load_from_string(&mut self, config_string: &str) -> (r: Result<(), Errors>)
        requires
            old(self).wf(),
        ensures
            final(self).wf(),
            loaded(old(self)@, final(self)@, config_string@, None, r),
    {
        self.load(config_string, None)
    }

    /// Parse configuration from the text of the file called `file_name`.
    /// The settings remember the name as the file they were read from.
    pub fn load_from_named_string(&mut self, config_string: &str, file_name: &str) -> (r: Result<
        (),
        Errors,
    >)
        requires
            old(self).wf(),
        ensures
            final(self).wf(),
            loaded(old(self)@, final(self)@, config_string@, Some(file_name@), r),
    {
        self.load(config_string, Some(file_name.to_owned()))
    }

    fn load(&mut self, config_string: &str, file_name: Option<String>) -> (r: Result<(), Errors>)
        requires
            old(self).wf(),
        ensures
            final(self).wf(),
            loaded(old(self)@, final(self)@, config_string@, text_view(file_name), r),
    {
        let chars = to_chars(config_string);
        self.clear();
        self.set_source_file(file_name);
        match read_document(&chars) {
            Err(p) => Err(Errors::ParseError { line: line_number(&chars, p) }),
            Ok(node) => {
                let root = self.plant_root();
                proof {
                    lemma_model_children(node);
                }
                self.graft_children(root, &node);
                proof {
                    self@.lemma_tree_at(root as int);
                    self@.lemma_lines_at(root as int);
                    assert(self@.tree_at(root as int) == node.model());
                }
                Ok(())
            },
        }
    }
}

} // verus!
