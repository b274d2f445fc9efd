//! What holds of every document, whatever was done to it.

use vstd::prelude::*;
use crate::chars::{is_name_char, valid_name};
use crate::create::same_kind;
use crate::edit::{lemma_position_of, position_of};
use crate::load::loaded;
use crate::path::lemma_segment_end;
use crate::errors::Errors;
use crate::model::{root_wf, segment_end, Content, Document, Tree};
use crate::roundtrip::{lemma_round_trip, settle};
use crate::syntax::{parse_document, render_document};
use crate::value::Format;

verus! {

/// A valid name holds no `.`, so as a path it is one segment.
pub proof fn lemma_name_is_one_segment(name: Seq<char>, i: int)
    requires
        valid_name(name),
        0 <= i <= name.len(),
    ensures
        segment_end(name, i) == name.len(),
    decreases name.len() - i,
{
    if i < name.len() {
        assert(is_name_char(name[i]));
        lemma_name_is_one_segment(name, i + 1);
    }
}

/// A reader that refers to no live setting gives the default, whatever the
/// kind asked for. So does the reader that a lookup by an absent path
/// hands out, since such a lookup hands out none.
pub proof fn law_default_when_absent(
    doc: Document,
    h: Option<usize>,
    i: i32,
    l: i64,
    b: bool,
    f: Seq<char>,
    s: Seq<char>,
)
    requires
        doc.check(h) is Err,
    ensures
        doc.int32_or(h, i) == i,
        doc.int64_or(h, l) == l,
        doc.bool_or(h, b) == b,
        doc.float_or(h, f) == f,
        doc.string_or(h, s) == s,
{
}

/// Where a path leads nowhere, reading through what the lookup gave
/// yields the default.
pub proof fn law_default_on_absent_path(doc: Document, start: int, path: Seq<char>, def: i32)
    requires
        doc.resolve(start, path) is None,
    ensures
        doc.int32_or(doc.resolve(start, path), def) == def,
{
}

/// What a lookup finds is a live setting.
pub proof fn law_resolve_is_live(doc: Document, start: int, path: Seq<char>)
    requires
        doc.wf(),
        doc.resolve(start, path) is Some,
    ensures
        doc.check(doc.resolve(start, path)) is Ok,
{
    if path.len() > 0 {
        lemma_walk_is_live(doc, start, path, 0);
    }
}

proof fn lemma_walk_is_live(doc: Document, i: int, path: Seq<char>, at: int)
    requires
        doc.walk(i, path, at) is Some,
    ensures
        doc.live(doc.walk(i, path, at).unwrap() as int),
    decreases path.len() - at,
{
    if 0 <= at < path.len() {
        let end = segment_end(path, at);
        let c = doc.step(i, path.subrange(at, end)).unwrap();
        if end < path.len() && end + 1 < path.len() && end >= at {
            lemma_walk_is_live(doc, c as int, path, end + 1);
        }
    }
}

/// What is added to a group under a name is found under that name: the
/// lookup from the group gives the new setting, which holds what was
/// written, and every handle that was live before stays live.
pub proof fn law_added_is_found(
    doc: Document,
    p: usize,
    name: Seq<char>,
    content: Content,
    format: Format,
)
    requires
        doc.wf(),
        doc.nodes.len() < usize::MAX,
        doc.nodes[p as int].content is Group,
        doc.can_attach(p as int, Some(name), content, format),
    ensures
        doc.attach(p as int, Some(name), content, format).wf(),
        doc.attach(p as int, Some(name), content, format).resolve(p as int, name) == Some(
            doc.nodes.len() as usize,
        ),
        doc.attach(p as int, Some(name), content, format).setting(Some(doc.nodes.len() as usize))
            matches Some(made) && made.content == content && made.name == Some(name)
            && made.parent == Some(p) && made.children.len() == 0,
        forall|h: usize|
            doc.live(h as int) ==> #[trigger] doc.attach(
                p as int,
                Some(name),
                content,
                format,
            ).live(h as int),
{
    let after = doc.attach(p as int, Some(name), content, format);
    let fresh = doc.nodes.len() as usize;
    doc.lemma_attach_wf(p as int, Some(name), content, format);
    doc.lemma_children_live(p as int);
    let kids = doc.nodes[p as int].children;
    let grown = after.nodes[p as int].children;
    assert(grown == kids.push(fresh));
    doc.lemma_find_named(kids, name, 0);
    lemma_find_last(after, grown, name, 0);
    lemma_name_is_one_segment(name, 0);
    assert(name.subrange(0, name.len() as int) =~= name);
    assert(after.step(p as int, name) == Some(fresh));
    assert(after.live(fresh as int));
    assert(after.walk(p as int, name, 0) == Some(fresh));
}

/// Where only the last of `kids` is called `name`, the search finds it.
proof fn lemma_find_last(doc: Document, kids: Seq<usize>, name: Seq<char>, from: int)
    requires
        0 <= from < kids.len(),
        forall|k: int| 0 <= k < kids.len() ==> #[trigger] kids[k] < doc.nodes.len(),
        forall|k: int|
            0 <= k < kids.len() - 1 ==> doc.nodes[#[trigger] kids[k] as int].name != Some(name),
        doc.nodes[kids[kids.len() - 1] as int].name == Some(name),
    ensures
        doc.find_named(kids, name, from) == Some(kids[kids.len() - 1]),
    decreases kids.len() - from,
{
    if from < kids.len() - 1 {
        assert(doc.nodes[kids[from] as int].name != Some(name));
        lemma_find_last(doc, kids, name, from + 1);
    }
}

/// The settings of `before` are in `after` as they were, but that some
/// have more children at the end.
pub open spec fn grown(before: Document, after: Document) -> bool {
    &&& after.nodes.len() >= before.nodes.len()
    &&& forall|j: int|
        0 <= j < before.nodes.len() ==> {
            &&& (#[trigger] after.nodes[j]).live == before.nodes[j].live
            &&& after.nodes[j].name == before.nodes[j].name
            &&& after.nodes[j].content == before.nodes[j].content
            &&& before.nodes[j].children.is_prefix_of(after.nodes[j].children)
        }
}

/// What a search finds among some children it finds when more children
/// follow them.
proof fn lemma_find_named_grown(
    before: Document,
    after: Document,
    kids: Seq<usize>,
    more: Seq<usize>,
    name: Seq<char>,
    from: int,
)
    requires
        grown(before, after),
        kids.is_prefix_of(more),
        0 <= from <= kids.len(),
        forall|k: int| 0 <= k < kids.len() ==> #[trigger] kids[k] < before.nodes.len(),
        before.find_named(kids, name, from) is Some,
    ensures
        after.find_named(more, name, from) == before.find_named(kids, name, from),
    decreases kids.len() - from,
{
    if from < kids.len() {
        assert(more[from] == kids[from]);
        assert(after.nodes[kids[from] as int].name == before.nodes[kids[from] as int].name);
        if before.nodes[kids[from] as int].name != Some(name) {
            lemma_find_named_grown(before, after, kids, more, name, from + 1);
        }
    }
}

proof fn lemma_created_path(doc: Document, i: int, path: Seq<char>, at: int, leaf: Content)
    requires
        doc.wf(),
        doc.live(i),
        doc.nodes.len() + path.len() - at < usize::MAX,
        leaf.wf(Format::Decimal),
        doc.create_path(i, path, at, leaf) is Ok,
    ensures
        ({
            let (after, c) = doc.create_path(i, path, at, leaf).unwrap();
            &&& after.wf()
            &&& grown(doc, after)
            &&& after.walk(i, path, at) == Some(c)
            &&& after.live(c as int)
            &&& same_kind(after.nodes[c as int].content, leaf)
        }),
    decreases path.len() - at,
{
    let (after, c) = doc.create_path(i, path, at, leaf).unwrap();
    let end = segment_end(path, at);
    let seg = path.subrange(at, end);
    let last = end >= path.len();
    let kids = doc.nodes[i].children;
    lemma_segment_end(path, at);
    doc.lemma_children_live(i);
    doc.lemma_find_named(kids, seg, 0);
    match doc.find_named(kids, seg, 0) {
        Some(c0) => {
            let k = choose|k: int| 0 <= k < kids.len() && kids[k] == c0;
            assert(doc.live(kids[k] as int));
            if !last {
                lemma_created_path(doc, c0 as int, path, end + 1, leaf);
                lemma_find_named_grown(doc, after, kids, after.nodes[i].children, seg, 0);
                assert(after.step(i, seg) == Some(c0));
            } else {
                assert(after == doc);
                assert(doc.step(i, seg) == Some(c0));
            }
        },
        None => {
            let fresh = doc.nodes.len() as usize;
            let content = if last {
                leaf
            } else {
                Content::Group
            };
            let mid = doc.attach(i, Some(seg), content, Format::Decimal);
            assert(doc.can_attach(i, Some(seg), content, Format::Decimal));
            doc.lemma_attach_wf(i, Some(seg), content, Format::Decimal);
            let more = mid.nodes[i].children;
            assert(more == kids.push(fresh));
            lemma_find_last(mid, more, seg, 0);
            assert(grown(doc, mid)) by {
                assert forall|j: int| 0 <= j < doc.nodes.len() implies doc.nodes[j].children.is_prefix_of(
                    (#[trigger] mid.nodes[j]).children,
                ) by {
                    if j == i {
                        assert(kids.is_prefix_of(kids.push(fresh)));
                    }
                }
            }
            if last {
                assert(after == mid);
                assert(mid.step(i, seg) == Some(fresh));
            } else {
                lemma_created_path(mid, fresh as int, path, end + 1, leaf);
                assert(grown(doc, after)) by {
                    assert forall|j: int| 0 <= j < doc.nodes.len() implies doc.nodes[j].children.is_prefix_of(
                        (#[trigger] after.nodes[j]).children,
                    ) by {
                        assert(doc.nodes[j].children.is_prefix_of(mid.nodes[j].children));
                        assert(mid.nodes[j].children.is_prefix_of(after.nodes[j].children));
                    }
                }
                assert forall|k: int| 0 <= k < more.len() implies #[trigger] more[k]
                    < mid.nodes.len() by {
                    if k < kids.len() {
                        assert(more[k] == kids[k]);
                    }
                }
                lemma_find_named_grown(mid, after, more, after.nodes[i].children, seg, 0);
                assert(after.step(i, seg) == Some(fresh));
            }
        },
    }
}

/// What `create_path` makes or finds at the end of a path, a lookup by
/// that path finds: the setting is there, of the kind that was asked for,
/// and nothing that was there before is gone.
pub proof fn law_created_path_is_found(doc: Document, i: usize, path: Seq<char>, leaf: Content)
    requires
        doc.wf(),
        doc.nodes.len() + path.len() < usize::MAX,
        leaf.wf(Format::Decimal),
        doc.create_path_from(Some(i), path, leaf) is Ok,
    ensures
        ({
            let (after, c) = doc.create_path_from(Some(i), path, leaf).unwrap();
            &&& after.wf()
            &&& after.resolve(i as int, path) == Some(c)
            &&& same_kind(after.nodes[c as int].content, leaf)
            &&& forall|h: usize| doc.live(h as int) ==> #[trigger] after.live(h as int)
        }),
{
    lemma_created_path(doc, i as int, path, 0, leaf);
    let (after, c) = doc.create_path_from(Some(i), path, leaf).unwrap();
    assert forall|h: usize| doc.live(h as int) implies #[trigger] after.live(h as int) by {
        assert(after.nodes[h as int].live == doc.nodes[h as int].live);
    }
}

/// After a setting is deleted, it and everything below it are gone: a
/// handle to any of them is stale and reads nothing, and the name of the
/// setting leads nowhere from its parent. The document stays well formed.
pub proof fn law_deleted_is_gone(doc: Document, i: usize)
    requires
        doc.wf(),
        doc.delete_error(Some(i)) is None,
    ensures
        doc.detach(i as int).wf(),
        doc.detach(i as int).check(Some(i)) == Err::<usize, Errors>(Errors::StaleReference),
        forall|j: usize|
            doc.in_subtree(j as int, i as int) ==> #[trigger] doc.detach(i as int).check(Some(j))
                == Err::<usize, Errors>(Errors::StaleReference),
        doc.detach(i as int).setting(Some(i)) is None,
        doc.detach(i as int).value_of(Some(i)) is None,
        doc.nodes[i as int].name matches Some(name) ==> doc.detach(i as int).resolve(
            doc.nodes[i as int].parent.unwrap() as int,
            name,
        ) is None,
{
    let after = doc.detach(i as int);
    doc.lemma_detach_wf(i as int);
    assert(doc.node_wf(i as int));
    let p = doc.nodes[i as int].parent.unwrap() as int;
    assert(doc.live(p));
    assert(doc.node_wf(p));
    if let Some(name) = doc.nodes[i as int].name {
        let kids = doc.nodes[p].children;
        let pos = position_of(kids, i, 0);
        lemma_position_of(kids, i, 0);
        let w = choose|w: int| 0 <= w < kids.len() && kids[w] == i;
        assert(kids[w] == i);
        assert(doc.child_ok(p, kids[pos]));
        assert(doc.nodes[p].content is Group);
        assert(valid_name(name));
        assert(!doc.in_subtree(p, i as int));
        let rest = after.nodes[p].children;
        assert(rest == kids.remove(pos));
        assert(after.live(p));
        assert(after.node_wf(p));
        assert forall|k: int| 0 <= k < rest.len() implies #[trigger] rest[k] < after.nodes.len()
            && after.nodes[rest[k] as int].name != Some(name) by {
            let ko = if k < pos {
                k
            } else {
                k + 1
            };
            assert(rest[k] == kids[ko]);
            assert(after.child_ok(p, rest[k]));
            assert(doc.child_ok(p, kids[ko]));
            if ko < pos {
                assert(doc.nodes[kids[ko] as int].name != doc.nodes[kids[pos] as int].name);
            } else {
                assert(doc.nodes[kids[pos] as int].name != doc.nodes[kids[ko] as int].name);
            }
            assert(kids[ko] != i);
            assert(doc.live(kids[ko] as int));
            assert(!doc.in_subtree(kids[ko] as int, i as int)) by {
                assert(doc.node_wf(kids[ko] as int));
                if doc.in_subtree(kids[ko] as int, i as int) {
                    assert(doc.in_subtree(p, i as int));
                }
            }
            assert(after.nodes[kids[ko] as int].name == doc.nodes[kids[ko] as int].name);
        }
        after.lemma_find_named(rest, name, 0);
        lemma_name_is_one_segment(name, 0);
        assert(name.subrange(0, name.len() as int) =~= name);
        assert(after.step(p, name) is None);
        assert(after.walk(p, name, 0) is None);
    }
}

/// Deleting fails only for a handle that refers to nothing, to a setting
/// that is gone, or to the root: in a well-formed document a setting is
/// always found among the children of its parent, so the removal itself
/// cannot fail.
pub proof fn law_delete_finds_its_setting(doc: Document, h: Option<usize>)
    requires
        doc.wf(),
    ensures
        doc.delete_error(h) != Some(Errors::DeleteError),
        doc.delete_error(h) is None ==> {
            let i = h.unwrap() as int;
            let p = doc.nodes[i].parent.unwrap() as int;
            let kids = doc.nodes[p].children;
            &&& position_of(kids, h.unwrap(), 0) < kids.len()
            &&& kids[position_of(kids, h.unwrap(), 0)] == h.unwrap()
        },
{
    if doc.delete_error(h) is None {
        let i = h.unwrap() as int;
        assert(doc.live(i));
        assert(doc.node_wf(i));
        let p = doc.nodes[i].parent.unwrap() as int;
        let kids = doc.nodes[p].children;
        lemma_position_of(kids, h.unwrap(), 0);
        let w = choose|w: int| 0 <= w < kids.len() && kids[w] == h.unwrap();
        assert(kids[w] == h.unwrap());
    }
}

/// The tree of a well-formed document is a well-formed tree.
pub proof fn law_document_tree_wf(doc: Document)
    requires
        doc.wf(),
        doc.root is Some,
    ensures
        root_wf(doc.tree().unwrap()),
{
    let r = doc.root.unwrap() as int;
    doc.lemma_tree_at_wf(r);
    doc.lemma_tree_at(r);
    assert(doc.node_wf(r));
}

/// A document that is written out and read again is the document it was:
/// the same settings with the same names, kinds and values, in the same
/// order, whatever the tab width. The formats come back too, but for this:
/// where integers are in hexadecimal by default, each integer reads back
/// as one that says so itself.
pub proof fn law_round_trip(doc: Document)
    requires
        doc.wf(),
        doc.root is Some,
    ensures
        parse_document(
            render_document(doc.tree().unwrap(), doc.tab_width as nat, doc.default_format),
        ) == Ok::<Tree, int>(settle(doc.tree().unwrap(), doc.default_format)),
        doc.default_format == Format::Decimal ==> parse_document(
            render_document(doc.tree().unwrap(), doc.tab_width as nat, doc.default_format),
        ) == Ok::<Tree, int>(doc.tree().unwrap()),
{
    law_document_tree_wf(doc);
    lemma_round_trip(doc.tree().unwrap(), doc.tab_width as nat, doc.default_format);
}

/// Loading what a document was written out as always succeeds, and
/// gives the document that was written out: `after` is what such a load
/// makes of any document `target`.
pub proof fn law_reload(
    doc: Document,
    target: Document,
    after: Document,
    file: Option<Seq<char>>,
    r: Result<(), Errors>,
)
    requires
        doc.wf(),
        doc.root is Some,
        loaded(
            target,
            after,
            render_document(doc.tree().unwrap(), doc.tab_width as nat, doc.default_format),
            file,
            r,
        ),
    ensures
        r is Ok,
        after.tree() == Some(settle(doc.tree().unwrap(), doc.default_format)),
        doc.default_format == Format::Decimal ==> after.tree() == doc.tree(),
{
    law_round_trip(doc);
}

} // verus!
