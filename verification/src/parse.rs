//! Reading a text into a tree of settings.

use vstd::prelude::*;
use crate::chars::{
    from_chars, is_name_char, lemma_run_end_bounds, name_start, scan_run, valid_name, CharClass,
};
use crate::config::{text_view, Payload};
use crate::lexer::{read_scalar, scan_blank, Cursor};
use crate::model::{root_wf, siblings_wf, tree_wf, value_wf, Content, Lines, Tree};
use crate::syntax::{
    document_lines, elements_lines, fits_array, has_name, nameless, parse_document, parse_elements,
    parse_settings, parse_value, settings_lines, value_lines,
};
use crate::value::Format;

verus! {

/// A setting read from a text, with everything below it, before it has a
/// place in a document.
#[derive(Debug)]
pub struct Node {
    pub name: Option<String>,
    pub payload: Payload,
    pub format: Format,
    pub children: Vec<Node>,
    /// The line that the setting was read from, counted from one.
    pub line: usize,
}

impl Node {
    /// The tree that the node stands for.
    pub open spec fn model(&self) -> Tree
        decreases self,
    {
        Tree {
            name: text_view(self.name),
            content: self.payload@,
            format: self.format,
            children: Seq::new(
                self.children@.len(),
                |k: int|
                    if 0 <= k < self.children@.len() {
                        self.children@[k].model()
                    } else {
                        arbitrary()
                    },
            ),
        }
    }
}

impl Node {
    /// The line that the node was read from, with those of the nodes
    /// below it.
    pub open spec fn lines(&self) -> Lines
        decreases self,
    {
        Lines {
            line: self.line,
            children: Seq::new(
                self.children@.len(),
                |k: int|
                    if 0 <= k < self.children@.len() {
                        self.children@[k].lines()
                    } else {
                        arbitrary()
                    },
            ),
        }
    }
}

/// The lines that a run of nodes was read from.
pub open spec fn lines_all(v: Seq<Node>) -> Seq<Lines> {
    Seq::new(v.len(), |k: int| v[k].lines())
}

/// The trees that a run of nodes stands for.
pub open spec fn models(v: Seq<Node>) -> Seq<Tree> {
    Seq::new(v.len(), |k: int| v[k].model())
}

/// The children of a node's tree are the trees of its children.
pub proof fn lemma_model_children(n: Node)
    ensures
        n.model().children == models(n.children@),
        n.model().name == text_view(n.name),
        n.model().content == n.payload@,
        n.model().format == n.format,
        n.lines().children == lines_all(n.children@),
        n.lines().line == n.line,
{
    assert(n.model().children =~= models(n.children@));
    assert(n.lines().children =~= lines_all(n.children@));
}

/// One more node gives one more tree.
pub proof fn lemma_models_push(v: Seq<Node>, n: Node)
    ensures
        models(v.push(n)) == models(v).push(n.model()),
        lines_all(v.push(n)) == lines_all(v).push(n.lines()),
{
    assert(models(v.push(n)) =~= models(v).push(n.model()));
    assert(lines_all(v.push(n)) =~= lines_all(v).push(n.lines()));
}

/// Whether one of `acc` is called `name`.
fn name_taken(acc: &Vec<Node>, name: &String) -> (r: bool)
    ensures
        r == has_name(models(acc@), name@),
{
    let mut k: usize = 0;
    while k < acc.len()
        invariant
            k <= acc.len(),
            forall|j: int| 0 <= j < k ==> (#[trigger] models(acc@)[j]).name != Some(name@),
        decreases acc.len() - k,
    {
        proof {
            lemma_model_children(acc@[k as int]);
        }
        match &acc[k].name {
            Some(n) => {
                if *n == *name {
                    assert(models(acc@)[k as int].name == Some(name@));
                    return true;
                }
            },
            None => {},
        }
        k += 1;
    }
    false
}

/// Reads the value that starts at `i`, where `i` is past any blank space.
pub fn read_value(s: &Vec<char>, i: usize, cur: &mut Cursor) -> (r: Result<(Node, usize), usize>)
    requires
        i <= s.len(),
        old(cur).tracks(s@),
        old(cur).pos <= i,
    ensures
        final(cur).tracks(s@),
        match r {
            Ok((n, e)) => {
                &&& parse_value(s@, i as int) == Ok::<(Tree, int), int>((n.model(), e as int))
                &&& i < e <= s.len()
                &&& n.name is None
                &&& value_wf(n.model())
                &&& lines_all(n.children@) == value_lines(s@, i as int)
                &&& final(cur).pos <= e
            },
            Err(p) => parse_value(s@, i as int) == Err::<(Tree, int), int>(p as int) && p
                <= s.len(),
        },
    decreases s.len() - i, 0nat,
{
    if i >= s.len() {
        return Err(i);
    }
    let c = s[i];
    if c == '{' {
        match read_settings(s, i + 1, true, cur) {
            Ok((kids, e)) => {
                let n = Node {
                    name: None,
                    payload: Payload::Group,
                    format: Format::Decimal,
                    children: kids,
                    line: 0,
                };
                proof {
                    lemma_model_children(n);
                    assert(n.model() == nameless(Content::Group, Format::Decimal, models(kids@)));
                }
                Ok((n, e))
            },
            Err(p) => Err(p),
        }
    } else if c == '[' {
        match read_elements(s, i + 1, true, cur) {
            Ok((kids, e)) => {
                let n = Node {
                    name: None,
                    payload: Payload::Array,
                    format: Format::Decimal,
                    children: kids,
                    line: 0,
                };
                proof {
                    lemma_model_children(n);
                    assert(n.model() == nameless(Content::Array, Format::Decimal, models(kids@)));
                }
                Ok((n, e))
            },
            Err(p) => Err(p),
        }
    } else if c == '(' {
        match read_elements(s, i + 1, false, cur) {
            Ok((kids, e)) => {
                let n = Node {
                    name: None,
                    payload: Payload::List,
                    format: Format::Decimal,
                    children: kids,
                    line: 0,
                };
                proof {
                    lemma_model_children(n);
                    assert(n.model() == nameless(Content::List, Format::Decimal, models(kids@)));
                }
                Ok((n, e))
            },
            Err(p) => Err(p),
        }
    } else {
        match read_scalar(s, i) {
            Some((v, f, e)) => {
                let n = Node {
                    name: None,
                    payload: Payload::Scalar(v),
                    format: f,
                    children: Vec::new(),
                    line: 0,
                };
                proof {
                    lemma_model_children(n);
                    assert(n.model().children =~= Seq::<Tree>::empty());
                    assert(lines_all(n.children@) =~= Seq::<Lines>::empty());
                    assert(n.model() == nameless(Content::Scalar(v@), f, Seq::empty()));
                }
                Ok((n, e))
            },
            None => Err(i),
        }
    }
}

/// Reads settings from `i` on: up to the closing brace where `nested`,
/// else up to the end of the text.
pub fn read_settings(s: &Vec<char>, i: usize, nested: bool, cur: &mut Cursor) -> (r: Result<
    (Vec<Node>, usize),
    usize,
>)
    requires
        i <= s.len(),
        old(cur).tracks(s@),
        old(cur).pos <= i,
    ensures
        final(cur).tracks(s@),
        match r {
            Ok((v, e)) => {
                &&& lines_all(v@) == settings_lines(s@, i as int, nested)
                &&& final(cur).pos <= e
                &&& parse_settings(s@, i as int, Seq::empty(), nested) == Ok::<
                    (Seq<Tree>, int),
                    int,
                >((models(v@), e as int))
                &&& i <= e <= s.len()
                &&& nested ==> i < e
                &&& siblings_wf(models(v@), Content::Group)
                &&& forall|k: int|
                    0 <= k < v@.len() ==> tree_wf(#[trigger] models(v@)[k], Content::Group)
            },
            Err(p) => parse_settings(s@, i as int, Seq::empty(), nested) == Err::<
                (Seq<Tree>, int),
                int,
            >(p as int) && p <= s.len(),
        },
    decreases s.len() - i, 1nat,
{
    let mut acc: Vec<Node> = Vec::new();
    let mut pos: usize = i;
    assert(models(acc@) =~= Seq::<Tree>::empty());
    assert(lines_all(acc@) + settings_lines(s@, i as int, nested) =~= settings_lines(
        s@,
        i as int,
        nested,
    ));
    loop
        invariant
            i <= pos <= s.len(),
            cur.tracks(s@),
            cur.pos <= pos,
            settings_lines(s@, i as int, nested) == lines_all(acc@) + settings_lines(
                s@,
                pos as int,
                nested,
            ),
            parse_settings(s@, i as int, Seq::empty(), nested) == parse_settings(
                s@,
                pos as int,
                models(acc@),
                nested,
            ),
            siblings_wf(models(acc@), Content::Group),
            forall|k: int|
                0 <= k < acc@.len() ==> tree_wf(#[trigger] models(acc@)[k], Content::Group),
        decreases s.len() - pos,
    {
        let j = scan_blank(s, pos);
        if j >= s.len() {
            if nested {
                return Err(j);
            } else {
                assert(lines_all(acc@) + Seq::<Lines>::empty() =~= lines_all(acc@));
                return Ok((acc, j));
            }
        }
        let c = s[j];
        if c == '}' {
            if nested {
                assert(lines_all(acc@) + Seq::<Lines>::empty() =~= lines_all(acc@));
                return Ok((acc, j + 1));
            } else {
                return Err(j);
            }
        }
        if !name_start(c) {
            return Err(j);
        }
        let e = scan_run(s, j, CharClass::NameChar);
        let name = from_chars(s, j, e);
        let k = scan_blank(s, e);
        proof {
            lemma_run_end_bounds(s@, j as int, CharClass::NameChar);
            assert(valid_name(name@)) by {
                assert(name@[0] == s@[j as int]);
                assert forall|x: int| 0 <= x < name@.len() implies is_name_char(
                    #[trigger] name@[x],
                ) by {
                    assert(name@[x] == s@[j + x]);
                    assert(CharClass::NameChar.holds(s@[j + x]));
                }
            }
        }
        if name_taken(&acc, &name) {
            return Err(j);
        }
        if k >= s.len() || (s[k] != ':' && s[k] != '=') {
            return Err(k);
        }
        let v = scan_blank(s, k + 1);
        let line = cur.advance(s, j);
        match read_value(s, v, cur) {
            Err(p) => {
                return Err(p);
            },
            Ok((node, m)) => {
                let n = scan_blank(s, m);
                let next = if n < s.len() && (s[n] == ';' || s[n] == ',') {
                    n + 1
                } else {
                    n
                };
                let ghost t = node.model();
                let ghost inner = lines_all(node.children@);
                let ghost before = acc@;
                let mut node = node;
                node.name = Some(name);
                node.line = line;
                proof {
                    lemma_model_children(node);
                    assert(node.model().children =~= t.children);
                    assert(node.model() == Tree { name: Some(name@), ..t });
                    lemma_models_push(before, node);
                    assert(tree_wf(node.model(), Content::Group));
                    assert(node.lines() == Lines { line, children: inner });
                    assert(lines_all(before) + settings_lines(s@, pos as int, nested)
                        =~= lines_all(before).push(node.lines()) + settings_lines(
                        s@,
                        next as int,
                        nested,
                    ));
                }
                acc.push(node);
                proof {
                    let ms = models(acc@);
                    assert forall|a: int, b: int| 0 <= a < b < ms.len() implies (#[trigger] ms[a]).name
                        != (#[trigger] ms[b]).name by {
                        assert(ms[a] == models(before)[a]);
                        if b < before.len() {
                            assert(ms[b] == models(before)[b]);
                        }
                    }
                    assert forall|a: int| 0 <= a < acc@.len() implies tree_wf(
                        #[trigger] models(acc@)[a],
                        Content::Group,
                    ) by {
                        if a < before.len() {
                            assert(ms[a] == models(before)[a]);
                        }
                    }
                }
                pos = next;
            },
        }
    }
}

/// Reads the elements of an array (`array`) or a list from `i` on, up to
/// the closing bracket.
pub fn read_elements(s: &Vec<char>, i: usize, array: bool, cur: &mut Cursor) -> (r: Result<
    (Vec<Node>, usize),
    usize,
>)
    requires
        i <= s.len(),
        old(cur).tracks(s@),
        old(cur).pos <= i,
    ensures
        final(cur).tracks(s@),
        match r {
            Ok((v, e)) => {
                &&& lines_all(v@) == elements_lines(s@, i as int, array)
                &&& final(cur).pos <= e
                &&& parse_elements(s@, i as int, Seq::empty(), array) == Ok::<
                    (Seq<Tree>, int),
                    int,
                >((models(v@), e as int))
                &&& i < e <= s.len()
                &&& siblings_wf(
                    models(v@),
                    if array {
                        Content::Array
                    } else {
                        Content::List
                    },
                )
                &&& forall|k: int|
                    0 <= k < v@.len() ==> tree_wf(
                        #[trigger] models(v@)[k],
                        if array {
                            Content::Array
                        } else {
                            Content::List
                        },
                    )
            },
            Err(p) => parse_elements(s@, i as int, Seq::empty(), array) == Err::<
                (Seq<Tree>, int),
                int,
            >(p as int) && p <= s.len(),
        },
    decreases s.len() - i, 1nat,
{
    let close = if array {
        ']'
    } else {
        ')'
    };
    let ghost parent = if array {
        Content::Array
    } else {
        Content::List
    };
    let mut acc: Vec<Node> = Vec::new();
    let mut pos: usize = i;
    assert(models(acc@) =~= Seq::<Tree>::empty());
    assert(lines_all(acc@) + elements_lines(s@, i as int, array) =~= elements_lines(
        s@,
        i as int,
        array,
    ));
    loop
        invariant
            i <= pos <= s.len(),
            cur.tracks(s@),
            cur.pos <= pos,
            elements_lines(s@, i as int, array) == lines_all(acc@) + elements_lines(
                s@,
                pos as int,
                array,
            ),
            close == (if array {
                ']'
            } else {
                ')'
            }),
            parent == (if array {
                Content::Array
            } else {
                Content::List
            }),
            parse_elements(s@, i as int, Seq::empty(), array) == parse_elements(
                s@,
                pos as int,
                models(acc@),
                array,
            ),
            siblings_wf(models(acc@), parent),
            forall|k: int| 0 <= k < acc@.len() ==> tree_wf(#[trigger] models(acc@)[k], parent),
        decreases s.len() - pos,
    {
        let j = scan_blank(s, pos);
        if j >= s.len() {
            return Err(j);
        }
        if s[j] == close {
            assert(lines_all(acc@) + Seq::<Lines>::empty() =~= lines_all(acc@));
            return Ok((acc, j + 1));
        }
        let line = cur.advance(s, j);
        match read_value(s, j, cur) {
            Err(p) => {
                return Err(p);
            },
            Ok((node, m)) => {
                let n = scan_blank(s, m);
                let ghost inner = lines_all(node.children@);
                let ghost unlined = node.model();
                let mut node = node;
                node.line = line;
                proof {
                    lemma_model_children(node);
                    assert(node.model().children =~= unlined.children);
                    assert(node.model() == unlined);
                    assert(node.lines() == Lines { line, children: inner });
                    if acc@.len() > 0 {
                        lemma_model_children(acc@[0]);
                    }
                }
                if array {
                    let fits = match &node.payload {
                        Payload::Scalar(v) => {
                            if acc.len() > 0 {
                                match &acc[0].payload {
                                    Payload::Scalar(w) => w.kind() == v.kind(),
                                    _ => false,
                                }
                            } else {
                                true
                            }
                        },
                        _ => false,
                    };
                    assert(fits == fits_array(models(acc@), node.model()));
                    if !fits {
                        return Err(j);
                    }
                }
                if n >= s.len() {
                    return Err(n);
                }
                let d = s[n];
                if d != close && d != ',' {
                    return Err(n);
                }
                let ghost before = acc@;
                proof {
                    lemma_models_push(before, node);
                    assert(tree_wf(node.model(), parent));
                    assert(lines_all(before) + elements_lines(s@, pos as int, array)
                        =~= lines_all(before).push(node.lines()) + (if d == ',' {
                        elements_lines(s@, n + 1, array)
                    } else {
                        Seq::<Lines>::empty()
                    }));
                }
                acc.push(node);
                proof {
                    let ms = models(acc@);
                    assert forall|a: int| 0 <= a < acc@.len() implies tree_wf(
                        #[trigger] models(acc@)[a],
                        parent,
                    ) by {
                        if a < before.len() {
                            assert(ms[a] == models(before)[a]);
                        }
                    }
                    if array {
                        assert forall|a: int| 0 <= a < ms.len() implies (#[trigger] ms[a]).content is Scalar
                            && ms[a].content.scalar_kind() == ms[0].content.scalar_kind() by {
                            if a < before.len() {
                                assert(ms[a] == models(before)[a]);
                            }
                            if before.len() > 0 {
                                assert(ms[0] == models(before)[0]);
                            }
                        }
                    }
                }
                if d == close {
                    assert(lines_all(acc@) + Seq::<Lines>::empty() =~= lines_all(acc@));
                    return Ok((acc, n + 1));
                }
                pos = n + 1;
            },
        }
    }
}

/// Reads a whole text: the settings in it, as the children of a nameless
/// group. An error holds the position at which the text went wrong.
pub fn read_document(s: &Vec<char>) -> (r: Result<Node, usize>)
    ensures
        match r {
            Ok(n) => {
                &&& parse_document(s@) == Ok::<Tree, int>(n.model())
                &&& root_wf(n.model())
                &&& lines_all(n.children@) == document_lines(s@)
                &&& n.line == 0
            },
            Err(p) => parse_document(s@) == Err::<Tree, int>(p as int) && p <= s.len(),
        },
{
    let mut cur = Cursor::start();
    match read_settings(s, 0, false, &mut cur) {
        Ok((kids, _)) => {
            let n = Node {
                name: None,
                payload: Payload::Group,
                format: Format::Decimal,
                children: kids,
                line: 0,
            };
            proof {
                lemma_model_children(n);
                assert(n.model() == nameless(Content::Group, Format::Decimal, models(kids@)));
            }
            Ok(n)
        },
        Err(p) => Err(p),
    }
}

} // verus!
