//! The document itself: the store of its settings, and the handles by which
//! callers read and change them.

pub use crate::errors::Errors;
pub use crate::reader::{CollectionReaderIterator, OptionReader};
pub use crate::value::{Float, Format, OptionType, SettingKind, Value};
pub use crate::writer::{CollectionWriter, OptionWriter};
use vstd::prelude::*;
use crate::edit::{lemma_position_of, position_of};
use crate::model::{dead_setting, Content, Document, Setting};

verus! {

/// What a setting holds: nothing of its own, for the three aggregates, or a
/// scalar value.
#[derive(Debug)]
pub enum Payload {
    Group,
    Array,
    List,
    Scalar(Value),
}

impl View for Payload {
    type V = Content;

    open spec fn view(&self) -> Content {
        match self {
            Payload::Group => Content::Group,
            Payload::Array => Content::Array,
            Payload::List => Content::List,
            Payload::Scalar(v) => Content::Scalar(v@),
        }
    }
}

/// The view of an optional string.
pub open spec fn text_view(s: Option<String>) -> Option<Seq<char>> {
    match s {
        Some(t) => Some(t@),
        None => None,
    }
}

/// One place in the store. A place is never used twice: a setting that is
/// taken out leaves its place dead, so a handle always means the setting it
/// was made for.
struct Slot {
    live: bool,
    name: Option<String>,
    payload: Payload,
    format: Format,
    parent: Option<usize>,
    children: Vec<usize>,
    line: usize,
}

impl View for Slot {
    type V = Setting;

    closed spec fn view(&self) -> Setting {
        Setting {
            live: self.live,
            name: text_view(self.name),
            content: self.payload@,
            format: self.format,
            parent: self.parent,
            children: self.children@,
            line: self.line,
        }
    }
}

/// Configuration file.
pub struct Config {
    nodes: Vec<Slot>,
    root: Option<usize>,
    tab_width: u8,
    default_format: Format,
    include_dir: Option<String>,
    auto_convert: bool,
    source_file: Option<String>,
}

impl View for Config {
    type V = Document;

    closed spec fn view(&self) -> Document {
        Document {
            nodes: Seq::new(self.nodes@.len(), |i: int| self.nodes@[i]@),
            root: self.root,
            tab_width: self.tab_width,
            default_format: self.default_format,
            include_dir: text_view(self.include_dir),
            auto_convert: self.auto_convert,
            source_file: text_view(self.source_file),
        }
    }
}

/// The document that `Config::new` makes: an empty root group, a tab width
/// of two, integers in decimal, no include directory and no conversion of
/// numbers.
pub open spec fn empty_document() -> Document {
    Document {
        nodes: seq![
            Setting {
                live: true,
                name: None,
                content: Content::Group,
                format: Format::Decimal,
                parent: None,
                children: Seq::empty(),
                line: 0,
            },
        ],
        root: Some(0),
        tab_width: 2,
        default_format: Format::Decimal,
        include_dir: None,
        auto_convert: false,
        source_file: None,
    }
}

impl Config {
    /// The document is well formed.
    pub open spec fn wf(&self) -> bool {
        self@.wf()
    }

    /// Constructor.
    /// Create new Config struct.
    pub fn new() -> (cfg: Config)
        ensures
            cfg@ == empty_document(),
            cfg.wf(),
    {
        let mut nodes: Vec<Slot> = Vec::new();
        nodes.push(
            Slot {
                live: true,
                name: None,
                payload: Payload::Group,
                format: Format::Decimal,
                parent: None,
                children: Vec::new(),
                line: 0,
            },
        );
        let cfg = Config {
            nodes,
            root: Some(0),
            tab_width: 2,
            default_format: Format::Decimal,
            include_dir: None,
            auto_convert: false,
            source_file: None,
        };
        proof {
            assert(cfg@.nodes =~= empty_document().nodes);
            assert(cfg@.node_wf(0));
        }
        cfg
    }

    /// The width of one step of indentation in the text that is written
    /// out; zero stands for a tab.
    pub fn tab_width(&self) -> (w: u16)
        ensures
            w == self@.tab_width,
    {
        self.tab_width as u16
    }

    /// Sets the width of one step of indentation. Only the low four bits of
    /// `value` count, so the width is at most fifteen.
    pub fn set_tab_width(&mut self, value: u16)
        requires
            old(self).wf(),
        ensures
            final(self)@ == (Document { tab_width: (value & 0x0F) as u8, ..old(self)@ }),
            final(self).wf(),
    {
        let masked = value & 0x0F;
        assert(masked <= 15) by (bit_vector)
            requires
                masked == value & 0x0F,
        ;
        self.tab_width = masked as u8;
        proof {
            assert(self@.nodes =~= old(self)@.nodes);
            old(self)@.lemma_wf_frame(self@);
        }
    }

    /// How integers without a format of their own are written out.
    pub fn default_format(&self) -> (f: Format)
        ensures
            f == self@.default_format,
    {
        self.default_format
    }

    /// Sets how integers without a format of their own are written out.
    pub fn set_default_format(&mut self, value: Format)
        requires
            old(self).wf(),
        ensures
            final(self)@ == (Document { default_format: value, ..old(self)@ }),
            final(self).wf(),
    {
        self.default_format = value;
        proof {
            assert(self@.nodes =~= old(self)@.nodes);
            old(self)@.lemma_wf_frame(self@);
        }
    }

    /// Set current config include directory. The path is kept as given and
    /// handed to whoever resolves include directives; nothing is looked up.
    pub fn include_dir(&mut self, path: &str)
        requires
            old(self).wf(),
        ensures
            final(self)@ == (Document { include_dir: Some(path@), ..old(self)@ }),
            final(self).wf(),
    {
        self.include_dir = Some(path.to_owned());
        proof {
            assert(self@.nodes =~= old(self)@.nodes);
            old(self)@.lemma_wf_frame(self@);
        }
    }

    /// Whether numbers are converted between integers and floating point
    /// when they are read as the other. The library itself never converts:
    /// the switch is kept for whoever reads floating-point numbers.
    pub fn auto_convert(&self) -> (on: bool)
        ensures
            on == self@.auto_convert,
    {
        self.auto_convert
    }

    /// Switches the conversion of numbers on or off.
    pub fn set_auto_convert(&mut self, on: bool)
        requires
            old(self).wf(),
        ensures
            final(self)@ == (Document { auto_convert: on, ..old(self)@ }),
            final(self).wf(),
    {
        self.auto_convert = on;
        proof {
            assert(self@.nodes =~= old(self)@.nodes);
            old(self)@.lemma_wf_frame(self@);
        }
    }

    /// The name of the file that the text was read from, if it is known.
    pub fn source_file(&self) -> (r: Option<String>)
        ensures
            text_view(r) == self@.source_file,
    {
        match &self.source_file {
            Some(d) => Some(d.clone()),
            None => None,
        }
    }

    pub(crate) fn set_source_file(&mut self, name: Option<String>)
        requires
            old(self).wf(),
        ensures
            final(self)@ == (Document { source_file: text_view(name), ..old(self)@ }),
            final(self).wf(),
    {
        self.source_file = name;
        proof {
            assert(self@.nodes =~= old(self)@.nodes);
            old(self)@.lemma_wf_frame(self@);
        }
    }

    /// The include directory, if one was set.
    pub fn get_include_dir(&self) -> (r: Option<String>)
        ensures
            text_view(r) == self@.include_dir,
    {
        match &self.include_dir {
            Some(d) => Some(d.clone()),
            None => None,
        }
    }

    /// How many places the store has, live or dead.
    pub fn capacity(&self) -> (n: usize)
        ensures
            n == self@.nodes.len(),
    {
        self.nodes.len()
    }

    /// What the handle `h` refers to.
    pub fn validate(&self, h: Option<usize>) -> (r: Result<usize, Errors>)
        ensures
            r == self@.check(h),
    {
        match h {
            None => Err(Errors::ElementNotExists),
            Some(i) => {
                if i < self.nodes.len() && self.nodes[i].live {
                    Ok(i)
                } else {
                    Err(Errors::StaleReference)
                }
            },
        }
    }

    /// The position of the root, if the document has one.
    pub fn root_index(&self) -> (r: Option<usize>)
        ensures
            r == self@.root,
    {
        self.root
    }

    pub(crate) fn payload_at(&self, i: usize) -> (r: &Payload)
        requires
            i < self@.nodes.len(),
        ensures
            r@ == self@.nodes[i as int].content,
    {
        &self.nodes[i].payload
    }

    pub(crate) fn name_at(&self, i: usize) -> (r: &Option<String>)
        requires
            i < self@.nodes.len(),
        ensures
            text_view(*r) == self@.nodes[i as int].name,
    {
        &self.nodes[i].name
    }

    pub(crate) fn children_at(&self, i: usize) -> (r: &Vec<usize>)
        requires
            i < self@.nodes.len(),
        ensures
            r@ == self@.nodes[i as int].children,
    {
        &self.nodes[i].children
    }

    pub(crate) fn parent_at(&self, i: usize) -> (r: Option<usize>)
        requires
            i < self@.nodes.len(),
        ensures
            r == self@.nodes[i as int].parent,
    {
        self.nodes[i].parent
    }

    pub(crate) fn line_at(&self, i: usize) -> (r: usize)
        requires
            i < self@.nodes.len(),
        ensures
            r == self@.nodes[i as int].line,
    {
        self.nodes[i].line
    }

    pub(crate) fn format_at(&self, i: usize) -> (r: Format)
        requires
            i < self@.nodes.len(),
        ensures
            r == self@.nodes[i as int].format,
    {
        self.nodes[i].format
    }

    /// Appends a new setting as the last child of `p` and returns its
    /// position.
    pub(crate) fn attach(
        &mut self,
        p: usize,
        name: Option<String>,
        payload: Payload,
        format: Format,
    ) -> (c: usize)
        requires
            old(self).wf(),
            old(self)@.can_attach(p as int, text_view(name), payload@, format),
        ensures
            final(self)@ == old(self)@.attach(p as int, text_view(name), payload@, format),
            final(self).wf(),
            c == old(self)@.nodes.len(),
    {
        self.attach_lined(p, name, payload, format, 0)
    }

    /// Appends a new setting, read from line `line` of a text, as the last
    /// child of `p` and returns its position.
    pub(crate) fn attach_lined(
        &mut self,
        p: usize,
        name: Option<String>,
        payload: Payload,
        format: Format,
        line: usize,
    ) -> (c: usize)
        requires
            old(self).wf(),
            old(self)@.can_attach(p as int, text_view(name), payload@, format),
        ensures
            final(self)@ == old(self)@.attach_lined(
                p as int,
                text_view(name),
                payload@,
                format,
                line,
            ),
            final(self).wf(),
            c == old(self)@.nodes.len(),
    {
        let c = self.nodes.len();
        let ghost before = self@;
        let ghost name_v = text_view(name);
        let ghost content = payload@;
        self.nodes.push(
            Slot { live: true, name, payload, format, parent: Some(p), children: Vec::new(), line },
        );
        assert(self.nodes.len() == c + 1);
        self.nodes[p].children.push(c);
        proof {
            assert(before.nodes.len() == c);
            let after = before.attach_lined(p as int, name_v, content, format, line);
            assert(self@.nodes.len() == after.nodes.len());
            assert forall|i: int| 0 <= i < after.nodes.len() implies self@.nodes[i]
                == after.nodes[i] by {
                if i == p {
                    assert(self@.nodes[i].children =~= after.nodes[i].children);
                } else if i == c {
                    assert(self@.nodes[i].children =~= after.nodes[i].children);
                } else {
                }
            }
            assert(self@.nodes =~= after.nodes);
            before.lemma_attach_lined_wf(p as int, name_v, content, format, line);
        }
        c
    }

    /// Takes the setting at `i` out of its parent, with all below it.
    pub(crate) fn detach(&mut self, i: usize)
        requires
            old(self).wf(),
            old(self)@.live(i as int),
            old(self)@.nodes[i as int].parent is Some,
        ensures
            final(self)@ == old(self)@.detach(i as int),
            final(self).wf(),
    {
        let ghost before = self@;
        let ghost after = before.detach(i as int);
        let p = self.nodes[i].parent.unwrap();
        proof {
            assert(before.node_wf(i as int));
            lemma_position_of(before.nodes[p as int].children, i, 0);
            let w = choose|w: int|
                0 <= w < before.nodes[p as int].children.len() && before.nodes[p as int].children[w]
                    == i;
            assert(before.nodes[p as int].children[w] == i);
            before.lemma_detach_wf(i as int);
        }
        let mut k: usize = 0;
        while self.nodes[p].children[k] != i
            invariant
                self@ == before,
                p < self.nodes.len(),
                k < self.nodes[p as int].children.len(),
                position_of(before.nodes[p as int].children, i, 0) < before.nodes[p as int].children.len(),
                position_of(before.nodes[p as int].children, i, 0) == position_of(
                    before.nodes[p as int].children,
                    i,
                    k as int,
                ),
            decreases self.nodes[p as int].children.len() - k,
        {
            proof {
                lemma_position_of(before.nodes[p as int].children, i, k + 1);
            }
            k += 1;
        }
        self.nodes[p].children.remove(k);
        let n = self.nodes.len();
        let mut j: usize = i;
        proof {
            assert forall|x: int| 0 <= x < i implies (#[trigger] self.nodes@[x])@
                == after.nodes[x] by {
                if x == p {
                    assert(self.nodes@[x]@.children =~= after.nodes[x].children);
                }
            }
        }
        while j < n
            invariant
                i <= j <= n,
                n == self.nodes.len(),
                n == before.nodes.len(),
                after == before.detach(i as int),
                before.wf(),
                before.live(i as int),
                before.nodes[i as int].parent == Some(p),
                self.root == before.root,
                self.tab_width == before.tab_width,
                self.default_format == before.default_format,
                text_view(self.include_dir) == before.include_dir,
                self.auto_convert == before.auto_convert,
                text_view(self.source_file) == before.source_file,
                forall|x: int| 0 <= x < j ==> (#[trigger] self.nodes@[x])@ == after.nodes[x],
                forall|x: int| j <= x < n ==> (#[trigger] self.nodes@[x])@ == before.nodes[x],
            decreases n - j,
        {
            let gone = if j == i {
                true
            } else {
                match self.nodes[j].parent {
                    Some(q) => q >= i && q < j && !self.nodes[q].live,
                    None => false,
                }
            };
            proof {
                assert(self.nodes@[j as int]@ == before.nodes[j as int]);
                if j != i {
                    if before.live(j as int) {
                        assert(before.node_wf(j as int));
                        match before.nodes[j as int].parent {
                            Some(q) => {
                                assert(before.live(q as int));
                                assert(q < j);
                                if q >= i {
                                    assert(self.nodes@[q as int]@ == after.nodes[q as int]);
                                    assert(after.nodes[q as int].live == !before.in_subtree(
                                        q as int,
                                        i as int,
                                    ));
                                    assert(self.nodes@[q as int].live == !before.in_subtree(
                                        q as int,
                                        i as int,
                                    ));
                                } else {
                                    assert(!before.in_subtree(q as int, i as int));
                                }
                                assert(before.in_subtree(j as int, i as int) == before.in_subtree(
                                    q as int,
                                    i as int,
                                ));
                            },
                            None => {
                                assert(!before.in_subtree(j as int, i as int));
                            },
                        }
                    } else {
                        assert(before.nodes[j as int] == dead_setting());
                    }
                }
                assert(gone == before.in_subtree(j as int, i as int));
            }
            if gone {
                self.nodes.set(
                    j,
                    Slot {
                        live: false,
                        name: None,
                        payload: Payload::Group,
                        format: Format::Decimal,
                        parent: None,
                        children: Vec::new(),
                        line: 0,
                    },
                );
            }
            assert(self.nodes@[j as int]@ == after.nodes[j as int]);
            j += 1;
        }
        assert(self@.nodes =~= after.nodes);
    }

    /// Takes every setting out, the root too. Handles made so far are
    /// stale from now on.
    pub(crate) fn clear(&mut self)
        requires
            old(self).wf(),
        ensures
            final(self)@ == old(self)@.cleared(),
            final(self).wf(),
    {
        let n = self.nodes.len();
        let mut j: usize = 0;
        while j < n
            invariant
                j <= n,
                n == self.nodes.len(),
                n == old(self)@.nodes.len(),
                self.tab_width == old(self).tab_width,
                self.default_format == old(self).default_format,
                self.include_dir == old(self).include_dir,
                self.auto_convert == old(self).auto_convert,
                self.source_file == old(self).source_file,
                forall|x: int| 0 <= x < j ==> (#[trigger] self.nodes@[x])@ == dead_setting(),
            decreases n - j,
        {
            self.nodes.set(
                j,
                Slot {
                    live: false,
                    name: None,
                    payload: Payload::Group,
                    format: Format::Decimal,
                    parent: None,
                    children: Vec::new(),
                    line: 0,
                },
            );
            j += 1;
        }
        self.root = None;
        proof {
            assert(self@.nodes =~= old(self)@.cleared().nodes);
        }
    }

    /// Gives a document without settings a new, empty root group.
    pub(crate) fn plant_root(&mut self) -> (r: usize)
        requires
            old(self).wf(),
            old(self)@.root is None,
            forall|i: int| !old(self)@.live(i),
        ensures
            final(self)@ == old(self)@.with_root(),
            final(self).wf(),
            r == old(self)@.nodes.len(),
    {
        let r = self.nodes.len();
        self.nodes.push(
            Slot {
                live: true,
                name: None,
                payload: Payload::Group,
                format: Format::Decimal,
                parent: None,
                children: Vec::new(),
                line: 0,
            },
        );
        assert(self.nodes.len() == r + 1);
        self.root = Some(r);
        proof {
            let after = old(self)@.with_root();
            assert(self@.nodes =~= after.nodes);
            assert(self@.nodes.len() == r + 1);
            assert forall|i: int| 0 <= i < r implies !(#[trigger] self@.nodes[i]).live
                && self@.nodes[i] == dead_setting() by {
                assert(!old(self)@.live(i));
                assert(self@.nodes[i] == old(self)@.nodes[i]);
            }
            assert forall|i: int| #[trigger] self@.live(i) implies self@.node_wf(i) by {
                assert(i == r);
            }
        }
        r
    }

    /// Sets the format in which the setting at `i` is written out.
    pub(crate) fn set_format_at(&mut self, i: usize, format: Format)
        requires
            old(self).wf(),
            old(self)@.live(i as int),
            old(self)@.nodes[i as int].content.wf(format),
        ensures
            final(self)@ == old(self)@.with_format(i as int, format),
            final(self).wf(),
    {
        self.nodes[i].format = format;
        proof {
            assert(self@.nodes =~= old(self)@.with_format(i as int, format).nodes);
            old(self)@.lemma_with_format_wf(i as int, format);
        }
    }

    /// Gives the scalar at `i` another value of its kind.
    pub(crate) fn set_value_at(&mut self, i: usize, value: Value)
        requires
            old(self).wf(),
            old(self)@.live(i as int),
            old(self)@.nodes[i as int].content.scalar_kind() == Some(value@.kind()),
            value@.wf(),
        ensures
            final(self)@ == old(self)@.with_value(i as int, value@),
            final(self).wf(),
    {
        let ghost v = value@;
        self.nodes[i].payload = Payload::Scalar(value);
        proof {
            assert(self@.nodes =~= old(self)@.with_value(i as int, v).nodes);
            old(self)@.lemma_with_value_wf(i as int, v);
        }
    }
}

} // verus!
