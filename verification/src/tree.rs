//! The document tree: an arena of nodes addressed by stable indices.
//!
//! Every node but a character owns an ordered list of children one level
//! below it; a character owns a run of text. Nodes are only ever appended
//! to the arena, so an index stays valid for the life of the tree.

use vstd::prelude::*;
use vstd::set_lib::{lemma_int_range, lemma_len_subset, set_int_range};
use vstd::string::StringExecFns;
use crate::level::ZipperType;
use crate::segment::{
    chars_of, document_runs_of, line_runs_of, line_spans, lines_of, span_runs_of, spans_of, views,
};

verus! {

/// What one node holds, as mathematical values.
pub struct NodeView {
    pub kind: ZipperType,
    pub children: Seq<usize>,
    pub text: Seq<char>,
}

/// The mathematical model of a [`DocumentTree`]: its nodes by index, and the
/// index of the window at its top.
pub struct TreeView {
    pub nodes: Seq<NodeView>,
    pub root: usize,
}

impl TreeView {
    pub open spec fn kind(self, n: usize) -> ZipperType {
        self.nodes[n as int].kind
    }

    pub open spec fn kids(self, n: usize) -> Seq<usize> {
        self.nodes[n as int].children
    }

    pub open spec fn text(self, n: usize) -> Seq<char> {
        self.nodes[n as int].text
    }

    /// Node `n` is sound: a character has no children, no child is listed
    /// twice, every child exists and sits one level below `n`, and the
    /// children can be counted in a machine word.
    pub open spec fn node_wf(self, n: int) -> bool {
        let node = self.nodes[n];
        &&& node.kind == ZipperType::Character ==> node.children.len() == 0
        &&& node.children.len() <= usize::MAX
        &&& node.children.no_duplicates()
        &&& forall|k: int|
            0 <= k < node.children.len() ==> {
                &&& (#[trigger] node.children[k]) < self.nodes.len()
                &&& self.nodes[node.children[k] as int].kind == node.kind.spec_child_type()
            }
    }

    /// Every node of the arena is sound.
    pub open spec fn nodes_wf(self) -> bool {
        forall|n: int| 0 <= n < self.nodes.len() ==> #[trigger] self.node_wf(n)
    }

    /// The tree is sound: its root is a window that holds exactly one
    /// document, every node is sound, and the nodes can be counted in a
    /// machine word.
    pub open spec fn wf(self) -> bool {
        &&& self.root < self.nodes.len() <= usize::MAX
        &&& self.kind(self.root) == ZipperType::Window
        &&& self.kids(self.root).len() == 1
        &&& self.nodes_wf()
    }

    /// The document under the window.
    pub open spec fn document(self) -> usize {
        self.kids(self.root)[0]
    }

    /// The texts of the characters `ids`, joined in order.
    pub open spec fn chars_text(self, ids: Seq<usize>) -> Seq<char>
        decreases ids.len(),
    {
        if ids.len() == 0 {
            Seq::empty()
        } else {
            self.chars_text(ids.drop_last()) + self.text(ids.last())
        }
    }

    /// The texts of the spans `ids`, joined in order.
    pub open spec fn spans_text(self, ids: Seq<usize>) -> Seq<char>
        decreases ids.len(),
    {
        if ids.len() == 0 {
            Seq::empty()
        } else {
            self.spans_text(ids.drop_last()) + self.chars_text(self.kids(ids.last()))
        }
    }

    /// The texts of the lines `ids`, each followed by a newline, joined in order.
    pub open spec fn lines_text(self, ids: Seq<usize>) -> Seq<char>
        decreases ids.len(),
    {
        if ids.len() == 0 {
            Seq::empty()
        } else {
            self.lines_text(ids.drop_last()) + self.spans_text(self.kids(ids.last())).push('\n')
        }
    }

    /// The text that saving the document writes: every line's characters in
    /// order, and a newline after every line.
    pub open spec fn saved_text(self) -> Seq<char> {
        self.lines_text(self.kids(self.document()))
    }

    /// The runs of text of span `span`, one per character.
    pub open spec fn span_runs(self, span: usize) -> Seq<Seq<char>> {
        self.kids(span).map_values(|c: usize| self.text(c))
    }

    /// The runs of text of line `line`, grouped by span.
    pub open spec fn line_runs(self, line: usize) -> Seq<Seq<Seq<char>>> {
        self.kids(line).map_values(|s: usize| self.span_runs(s))
    }

    /// The runs of text of document `doc`, grouped by line and by span.
    pub open spec fn document_runs(self, doc: usize) -> Seq<Seq<Seq<Seq<char>>>> {
        self.kids(doc).map_values(|l: usize| self.line_runs(l))
    }

    /// The tree with the children of node `n` replaced by `kids`.
    pub open spec fn with_kids(self, n: usize, kids: Seq<usize>) -> TreeView {
        TreeView {
            nodes: self.nodes.update(
                n as int,
                NodeView { kind: self.kind(n), children: kids, text: self.text(n) },
            ),
            root: self.root,
        }
    }

    /// The tree with one more node: a character that holds `text` and has no
    /// parent.
    pub open spec fn with_character(self, text: Seq<char>) -> TreeView {
        TreeView {
            nodes: self.nodes.push(
                NodeView { kind: ZipperType::Character, children: Seq::empty(), text },
            ),
            root: self.root,
        }
    }

    /// Every index in `ids` names a node of the tree.
    pub open spec fn holds(self, ids: Seq<usize>) -> bool {
        forall|k: int| 0 <= k < ids.len() ==> (#[trigger] ids[k]) < self.nodes.len()
    }

    /// `self` grew into `later` by appending nodes only.
    pub open spec fn extended_by(self, later: TreeView) -> bool {
        &&& self.nodes.len() <= later.nodes.len()
        &&& forall|n: int| 0 <= n < self.nodes.len() ==> #[trigger] later.nodes[n] == self.nodes[n]
    }
}

/// Appending nodes leaves the runs of an existing span as they were.
pub proof fn lemma_span_runs_stable(before: TreeView, after: TreeView, span: usize)
    requires
        before.nodes_wf(),
        before.extended_by(after),
        span < before.nodes.len(),
    ensures
        after.span_runs(span) == before.span_runs(span),
{
    assert(before.node_wf(span as int));
    assert(after.nodes[span as int] == before.nodes[span as int]);
    assert forall|k: int| 0 <= k < before.kids(span).len() implies after.text(before.kids(span)[k])
        == before.text(before.kids(span)[k]) by {
        let c = before.kids(span)[k];
        assert(after.nodes[c as int] == before.nodes[c as int]);
    }
    assert(after.span_runs(span) =~= before.span_runs(span));
}

/// Appending nodes leaves the runs of an existing line as they were.
pub proof fn lemma_line_runs_stable(before: TreeView, after: TreeView, line: usize)
    requires
        before.nodes_wf(),
        before.extended_by(after),
        line < before.nodes.len(),
    ensures
        after.line_runs(line) == before.line_runs(line),
{
    assert(before.node_wf(line as int));
    assert(after.nodes[line as int] == before.nodes[line as int]);
    assert forall|k: int| 0 <= k < before.kids(line).len() implies after.span_runs(
        before.kids(line)[k],
    ) == before.span_runs(before.kids(line)[k]) by {
        lemma_span_runs_stable(before, after, before.kids(line)[k]);
    }
    assert(after.line_runs(line) =~= before.line_runs(line));
}

/// Appending nodes leaves the runs of an existing document as they were.
pub proof fn lemma_document_runs_stable(before: TreeView, after: TreeView, doc: usize)
    requires
        before.nodes_wf(),
        before.extended_by(after),
        doc < before.nodes.len(),
    ensures
        after.document_runs(doc) == before.document_runs(doc),
{
    assert(before.node_wf(doc as int));
    assert(after.nodes[doc as int] == before.nodes[doc as int]);
    assert forall|k: int| 0 <= k < before.kids(doc).len() implies after.line_runs(
        before.kids(doc)[k],
    ) == before.line_runs(before.kids(doc)[k]) by {
        lemma_line_runs_stable(before, after, before.kids(doc)[k]);
    }
    assert(after.document_runs(doc) =~= before.document_runs(doc));
}

/// Distinct indices below a bound are no more than the bound.
pub proof fn lemma_distinct_bounded(ids: Seq<usize>, bound: nat)
    requires
        ids.no_duplicates(),
        forall|k: int| 0 <= k < ids.len() ==> (#[trigger] ids[k]) < bound,
    ensures
        ids.len() <= bound,
{
    let ints = ids.map_values(|id: usize| id as int);
    assert(ints.no_duplicates()) by {
        assert forall|i: int, j: int| 0 <= i < ints.len() && 0 <= j < ints.len() && i != j implies ints[i]
            != ints[j] by {
            assert(ids[i] != ids[j]);
        }
    }
    ints.unique_seq_to_set();
    lemma_int_range(0, bound as int);
    assert(ints.to_set().subset_of(set_int_range(0, bound as int))) by {
        assert forall|x: int| ints.to_set().contains(x) implies set_int_range(
            0,
            bound as int,
        ).contains(x) by {
            let k = choose|k: int| 0 <= k < ints.len() && ints[k] == x;
            assert(ids[k] < bound);
        }
    }
    lemma_len_subset(ints.to_set(), set_int_range(0, bound as int));
}

/// Appending nodes leaves the text of existing characters as it was.
pub proof fn lemma_chars_text_stable(before: TreeView, after: TreeView, ids: Seq<usize>)
    requires
        before.extended_by(after),
        before.holds(ids),
    ensures
        after.chars_text(ids) == before.chars_text(ids),
    decreases ids.len(),
{
    if ids.len() > 0 {
        lemma_chars_text_stable(before, after, ids.drop_last());
        assert(after.nodes[ids.last() as int] == before.nodes[ids.last() as int]);
    }
}

/// Appending nodes leaves the text of existing spans as it was.
pub proof fn lemma_spans_text_stable(before: TreeView, after: TreeView, ids: Seq<usize>)
    requires
        before.nodes_wf(),
        before.extended_by(after),
        before.holds(ids),
    ensures
        after.spans_text(ids) == before.spans_text(ids),
    decreases ids.len(),
{
    if ids.len() > 0 {
        lemma_spans_text_stable(before, after, ids.drop_last());
        let span = ids.last();
        assert(after.nodes[span as int] == before.nodes[span as int]);
        assert(before.node_wf(span as int));
        lemma_chars_text_stable(before, after, before.kids(span));
    }
}

/// Appending nodes leaves the text of existing lines as it was.
pub proof fn lemma_lines_text_stable(before: TreeView, after: TreeView, ids: Seq<usize>)
    requires
        before.nodes_wf(),
        before.extended_by(after),
        before.holds(ids),
    ensures
        after.lines_text(ids) == before.lines_text(ids),
    decreases ids.len(),
{
    if ids.len() > 0 {
        lemma_lines_text_stable(before, after, ids.drop_last());
        let line = ids.last();
        assert(after.nodes[line as int] == before.nodes[line as int]);
        assert(before.node_wf(line as int));
        lemma_spans_text_stable(before, after, before.kids(line));
    }
}

/// A tree that only gained nodes saves the same text.
pub proof fn lemma_saved_text_stable(before: TreeView, after: TreeView)
    requires
        before.wf(),
        before.extended_by(after),
        after.root == before.root,
    ensures
        after.saved_text() == before.saved_text(),
{
    assert(after.nodes[before.root as int] == before.nodes[before.root as int]);
    assert(before.node_wf(before.root as int));
    let doc = before.document();
    assert(after.nodes[doc as int] == before.nodes[doc as int]);
    assert(before.node_wf(doc as int));
    lemma_lines_text_stable(before, after, before.kids(doc));
}

/// `String::from` on a character: the string that holds exactly that
/// character.
#[verifier::external_body]
fn string_of_char(c: char) -> (s: String)
    ensures
        s@ == seq![c],
{
    String::from(c)
}

struct Node {
    kind: ZipperType,
    children: Vec<usize>,
    text: String,
}

impl View for Node {
    type V = NodeView;

    closed spec fn view(&self) -> NodeView {
        NodeView { kind: self.kind, children: self.children@, text: self.text@ }
    }
}

/// The arena that holds the document.
pub struct DocumentTree {
    nodes: Vec<Node>,
    root: usize,
}

impl View for DocumentTree {
    type V = TreeView;

    closed spec fn view(&self) -> TreeView {
        TreeView { nodes: Seq::new(self.nodes@.len(), |i: int| self.nodes@[i]@), root: self.root }
    }
}

impl DocumentTree {
    /// The tree is sound, see [`TreeView::wf`].
    pub open spec fn wf(&self) -> bool {
        self@.wf()
    }

    /// Loads a document: one window that holds one document, whose lines,
    /// spans and characters are those that [`document_runs_of`] cuts `text`
    /// into. Every character node holds one character of the text, or the
    /// blank that stands in an empty line.
    pub fn from_text(text: &str) -> (tree: DocumentTree)
        ensures
            tree.wf(),
            tree@.document_runs(tree@.document()) == document_runs_of(text@),
    {
        let chars = chars_of(text);
        let lines = lines_of(&chars);
        let mut tree = DocumentTree { nodes: Vec::new(), root: 0 };
        let doc = tree.add_document(&lines);
        let ghost loaded = tree@;
        let mut kids: Vec<usize> = Vec::new();
        kids.push(doc);
        let root = tree.push_node(ZipperType::Window, kids, String::new());
        tree.root = root;
        proof {
            lemma_document_runs_stable(loaded, tree@, doc);
            assert(tree@.nodes_wf()) by {
                let with_old_root = TreeView { nodes: tree@.nodes, root: loaded.root };
                assert(with_old_root.nodes_wf());
                assert forall|n: int| 0 <= n < tree@.nodes.len() implies #[trigger] tree@.node_wf(
                    n,
                ) by {
                    assert(with_old_root.node_wf(n));
                }
            }
        }
        tree
    }

    /// Appends a node and returns its index.
    fn push_node(&mut self, kind: ZipperType, children: Vec<usize>, text: String) -> (id: usize)
        requires
            old(self)@.nodes_wf(),
            kind == ZipperType::Character ==> children@.len() == 0,
            children@.no_duplicates(),
            forall|k: int|
                0 <= k < children@.len() ==> {
                    &&& (#[trigger] children@[k]) < old(self)@.nodes.len()
                    &&& old(self)@.kind(children@[k]) == kind.spec_child_type()
                },
        ensures
            id == old(self)@.nodes.len(),
            final(self)@.nodes == old(self)@.nodes.push(
                NodeView { kind, children: children@, text: text@ },
            ),
            final(self)@.root == old(self)@.root,
            final(self)@.nodes_wf(),
            final(self)@.nodes.len() <= usize::MAX,
            old(self)@.extended_by(final(self)@),
    {
        let id = self.nodes.len();
        let ghost node = NodeView { kind, children: children@, text: text@ };
        assert(children@.len() == children.len());
        self.nodes.push(Node { kind, children, text });
        proof {
            assert(self.nodes@.len() == self.nodes.len());
            assert(self@.nodes =~= old(self)@.nodes.push(node));
            assert forall|n: int| 0 <= n < self@.nodes.len() implies #[trigger] self@.node_wf(n) by {
                if n < id {
                    assert(old(self)@.node_wf(n));
                }
            }
        }
        id
    }

    /// Appends a span and one character node for each of `chars`.
    fn add_span(&mut self, chars: &Vec<char>) -> (id: usize)
        requires
            old(self)@.nodes_wf(),
        ensures
            final(self)@.nodes_wf(),
            final(self)@.root == old(self)@.root,
            old(self)@.extended_by(final(self)@),
            old(self)@.nodes.len() <= id < final(self)@.nodes.len(),
            final(self)@.kind(id) == ZipperType::Span,
            final(self)@.span_runs(id) == span_runs_of(chars@),
    {
        let ghost start = self@.nodes.len();
        let mut ids: Vec<usize> = Vec::new();
        let mut i: usize = 0;
        while i < chars.len()
            invariant
                i <= chars.len(),
                ids@.len() == i,
                self@.nodes.len() == start + i,
                self@.nodes_wf(),
                self@.root == old(self)@.root,
                old(self)@.extended_by(self@),
                start == old(self)@.nodes.len(),
                forall|k: int|
                    0 <= k < i ==> {
                        &&& (#[trigger] ids@[k]) == start + k
                        &&& self@.kind(ids@[k]) == ZipperType::Character
                        &&& self@.text(ids@[k]) == seq![chars@[k]]
                    },
            decreases chars.len() - i,
        {
            let id = self.push_node(ZipperType::Character, Vec::new(), string_of_char(chars[i]));
            ids.push(id);
            i += 1;
        }
        let id = self.push_node(ZipperType::Span, ids, String::new());
        assert(self@.span_runs(id) =~= span_runs_of(chars@));
        id
    }

    /// Appends a line and, below it, one span for each of `spans`.
    fn add_line(&mut self, spans: &Vec<Vec<char>>) -> (id: usize)
        requires
            old(self)@.nodes_wf(),
        ensures
            final(self)@.nodes_wf(),
            final(self)@.root == old(self)@.root,
            old(self)@.extended_by(final(self)@),
            old(self)@.nodes.len() <= id < final(self)@.nodes.len(),
            final(self)@.kind(id) == ZipperType::Line,
            final(self)@.line_runs(id) == line_runs_of(views(spans@)),
    {
        let mut ids: Vec<usize> = Vec::new();
        let mut i: usize = 0;
        while i < spans.len()
            invariant
                i <= spans.len(),
                ids@.len() == i,
                self@.nodes_wf(),
                self@.root == old(self)@.root,
                old(self)@.extended_by(self@),
                forall|k: int|
                    0 <= k < i ==> {
                        &&& old(self)@.nodes.len() <= (#[trigger] ids@[k]) < self@.nodes.len()
                        &&& self@.kind(ids@[k]) == ZipperType::Span
                        &&& self@.span_runs(ids@[k]) == span_runs_of(spans@[k]@)
                    },
                forall|j: int, k: int| 0 <= j < k < i ==> ids@[j] < ids@[k],
            decreases spans.len() - i,
        {
            let ghost before = self@;
            let id = self.add_span(&spans[i]);
            proof {
                assert forall|k: int| 0 <= k < i implies self@.span_runs(#[trigger] ids@[k])
                    == span_runs_of(spans@[k]@) by {
                    lemma_span_runs_stable(before, self@, ids@[k]);
                }
            }
            ids.push(id);
            i += 1;
        }
        let ghost kids = ids@;
        let ghost before = self@;
        let id = self.push_node(ZipperType::Line, ids, String::new());
        proof {
            assert forall|k: int| 0 <= k < kids.len() implies self@.span_runs(#[trigger] kids[k])
                == span_runs_of(spans@[k]@) by {
                lemma_span_runs_stable(before, self@, kids[k]);
            }
            assert(self@.line_runs(id) =~= line_runs_of(views(spans@)));
        }
        id
    }

    /// Appends a document and, below it, one line for each of `lines`, cut
    /// into its spans.
    fn add_document(&mut self, lines: &Vec<Vec<char>>) -> (id: usize)
        requires
            old(self)@.nodes_wf(),
        ensures
            final(self)@.nodes_wf(),
            final(self)@.root == old(self)@.root,
            old(self)@.extended_by(final(self)@),
            old(self)@.nodes.len() <= id < final(self)@.nodes.len(),
            final(self)@.kind(id) == ZipperType::Document,
            final(self)@.document_runs(id) == views(lines@).map_values(
                |line: Seq<char>| line_runs_of(line_spans(line)),
            ),
    {
        let mut ids: Vec<usize> = Vec::new();
        let mut i: usize = 0;
        while i < lines.len()
            invariant
                i <= lines.len(),
                ids@.len() == i,
                self@.nodes_wf(),
                self@.root == old(self)@.root,
                old(self)@.extended_by(self@),
                forall|k: int|
                    0 <= k < i ==> {
                        &&& old(self)@.nodes.len() <= (#[trigger] ids@[k]) < self@.nodes.len()
                        &&& self@.kind(ids@[k]) == ZipperType::Line
                        &&& self@.line_runs(ids@[k]) == line_runs_of(line_spans(lines@[k]@))
                    },
                forall|j: int, k: int| 0 <= j < k < i ==> ids@[j] < ids@[k],
            decreases lines.len() - i,
        {
            let ghost before = self@;
            let spans = spans_of(&lines[i]);
            let id = self.add_line(&spans);
            proof {
                assert forall|k: int| 0 <= k < i implies self@.line_runs(#[trigger] ids@[k])
                    == line_runs_of(line_spans(lines@[k]@)) by {
                    lemma_line_runs_stable(before, self@, ids@[k]);
                }
            }
            ids.push(id);
            i += 1;
        }
        let ghost kids = ids@;
        let ghost before = self@;
        let id = self.push_node(ZipperType::Document, ids, String::new());
        proof {
            assert forall|k: int| 0 <= k < kids.len() implies self@.line_runs(#[trigger] kids[k])
                == line_runs_of(line_spans(lines@[k]@)) by {
                lemma_line_runs_stable(before, self@, kids[k]);
            }
            assert(self@.document_runs(id) =~= views(lines@).map_values(
                |line: Seq<char>| line_runs_of(line_spans(line)),
            ));
        }
        id
    }

    /// The text to write when the document is saved: the text of every
    /// character of every span of every line, in order, with a newline after
    /// every line.
    pub fn save_text(&self) -> (out: String)
        requires
            self.wf(),
        ensures
            out@ == self@.saved_text(),
    {
        let mut out = String::new();
        let doc = self.document();
        assert(self@.node_wf(doc as int));
        self.append_lines(&mut out, self.children(doc));
        out
    }

    /// Appends to `out` the text of the lines `ids`, a newline after each.
    fn append_lines(&self, out: &mut String, ids: &Vec<usize>)
        requires
            self@.nodes_wf(),
            forall|k: int| 0 <= k < ids@.len() ==> (#[trigger] ids@[k]) < self@.nodes.len(),
        ensures
            final(out)@ == old(out)@ + self@.lines_text(ids@),
    {
        let mut i: usize = 0;
        while i < ids.len()
            invariant
                i <= ids.len(),
                self@.nodes_wf(),
                forall|k: int| 0 <= k < ids@.len() ==> (#[trigger] ids@[k]) < self@.nodes.len(),
                out@ == old(out)@ + self@.lines_text(ids@.take(i as int)),
            decreases ids.len() - i,
        {
            let line = ids[i];
            proof {
                assert(ids@.take(i + 1).drop_last() == ids@.take(i as int));
                assert(self@.node_wf(line as int));
                reveal_strlit("\n");
            }
            self.append_spans(out, self.children(line));
            out.append("\n");
            assert("\n"@ == seq!['\n']);
            assert(out@ == old(out)@ + self@.lines_text(ids@.take(i + 1)));
            i += 1;
        }
        assert(ids@.take(i as int) == ids@);
    }

    /// Appends to `out` the text of the spans `ids`.
    fn append_spans(&self, out: &mut String, ids: &Vec<usize>)
        requires
            self@.nodes_wf(),
            forall|k: int| 0 <= k < ids@.len() ==> (#[trigger] ids@[k]) < self@.nodes.len(),
        ensures
            final(out)@ == old(out)@ + self@.spans_text(ids@),
    {
        let mut i: usize = 0;
        while i < ids.len()
            invariant
                i <= ids.len(),
                self@.nodes_wf(),
                forall|k: int| 0 <= k < ids@.len() ==> (#[trigger] ids@[k]) < self@.nodes.len(),
                out@ == old(out)@ + self@.spans_text(ids@.take(i as int)),
            decreases ids.len() - i,
        {
            let span = ids[i];
            proof {
                assert(ids@.take(i + 1).drop_last() == ids@.take(i as int));
                assert(self@.node_wf(span as int));
            }
            self.append_chars(out, self.children(span));
            assert(out@ == old(out)@ + self@.spans_text(ids@.take(i + 1)));
            i += 1;
        }
        assert(ids@.take(i as int) == ids@);
    }

    /// Appends to `out` the text of the characters `ids`.
    fn append_chars(&self, out: &mut String, ids: &Vec<usize>)
        requires
            forall|k: int| 0 <= k < ids@.len() ==> (#[trigger] ids@[k]) < self@.nodes.len(),
        ensures
            final(out)@ == old(out)@ + self@.chars_text(ids@),
    {
        let mut i: usize = 0;
        while i < ids.len()
            invariant
                i <= ids.len(),
                forall|k: int| 0 <= k < ids@.len() ==> (#[trigger] ids@[k]) < self@.nodes.len(),
                out@ == old(out)@ + self@.chars_text(ids@.take(i as int)),
            decreases ids.len() - i,
        {
            proof {
                assert(ids@.take(i + 1).drop_last() == ids@.take(i as int));
            }
            out.append(self.text(ids[i]));
            assert(out@ == old(out)@ + self@.chars_text(ids@.take(i + 1)));
            i += 1;
        }
        assert(ids@.take(i as int) == ids@);
    }

    /// Appends a character node that holds `text` and has no parent yet.
    pub(crate) fn add_character(&mut self, text: String) -> (id: usize)
        requires
            old(self).wf(),
        ensures
            id == old(self)@.nodes.len(),
            final(self)@ == old(self)@.with_character(text@),
            final(self).wf(),
    {
        let id = self.push_node(ZipperType::Character, Vec::new(), text);
        proof {
            assert(self@.node_wf(self@.root as int));
        }
        id
    }

    /// Puts `child` into the children of `parent`, at position `index`.
    pub(crate) fn insert_child(&mut self, parent: usize, index: usize, child: usize)
        requires
            old(self).wf(),
            parent < old(self)@.nodes.len(),
            parent != old(self)@.root,
            child < old(self)@.nodes.len(),
            index <= old(self)@.kids(parent).len(),
            old(self)@.kind(parent) != ZipperType::Character,
            old(self)@.kind(child) == old(self)@.kind(parent).spec_child_type(),
            !old(self)@.kids(parent).contains(child),
        ensures
            final(self)@ == old(self)@.with_kids(
                parent,
                old(self)@.kids(parent).insert(index as int, child),
            ),
            final(self).wf(),
    {
        self.nodes[parent].children.insert(index, child);
        proof {
            assert(self.nodes[parent as int].children@.len() == self.nodes[parent as int].children.len());
            let kids = old(self)@.kids(parent);
            let grown = kids.insert(index as int, child);
            assert(old(self)@.node_wf(parent as int));
            assert(self@.nodes =~= old(self)@.with_kids(parent, grown).nodes);
            assert forall|i: int, j: int|
                0 <= i < grown.len() && 0 <= j < grown.len() && i != j implies grown[i]
                != grown[j] by {
                let a = if i < index { i } else { i - 1 };
                let b = if j < index { j } else { j - 1 };
                if i == index {
                    assert(kids.contains(kids[b]));
                } else if j == index {
                    assert(kids.contains(kids[a]));
                } else {
                    assert(kids[a] != kids[b]);
                }
            }
            assert forall|n: int| 0 <= n < self@.nodes.len() implies #[trigger] self@.node_wf(n) by {
                assert(old(self)@.node_wf(n));
            }
            assert(old(self)@.node_wf(self@.root as int));
        }
    }

    /// Takes the child at position `index` out of the children of `parent`
    /// and returns it. The node itself stays in the arena.
    pub(crate) fn remove_child(&mut self, parent: usize, index: usize) -> (child: usize)
        requires
            old(self).wf(),
            parent < old(self)@.nodes.len(),
            parent != old(self)@.root,
            index < old(self)@.kids(parent).len(),
        ensures
            child == old(self)@.kids(parent)[index as int],
            final(self)@ == old(self)@.with_kids(
                parent,
                old(self)@.kids(parent).remove(index as int),
            ),
            final(self).wf(),
    {
        let child = self.nodes[parent].children.remove(index);
        proof {
            let kids = old(self)@.kids(parent);
            let shrunk = kids.remove(index as int);
            assert(self@.nodes =~= old(self)@.with_kids(parent, shrunk).nodes);
            assert forall|n: int| 0 <= n < self@.nodes.len() implies #[trigger] self@.node_wf(n) by {
                assert(old(self)@.node_wf(n));
            }
            assert(old(self)@.node_wf(self@.root as int));
        }
        child
    }

    /// The number of nodes in the arena.
    pub fn len(&self) -> (n: usize)
        ensures
            n == self@.nodes.len(),
    {
        self.nodes.len()
    }

    /// The window at the top of the tree.
    pub fn root(&self) -> (r: usize)
        ensures
            r == self@.root,
    {
        self.root
    }

    /// The level of node `n`.
    pub fn kind(&self, n: usize) -> (k: ZipperType)
        requires
            n < self@.nodes.len(),
        ensures
            k == self@.kind(n),
    {
        self.nodes[n].kind
    }

    /// The children of node `n`, in order.
    pub fn children(&self, n: usize) -> (kids: &Vec<usize>)
        requires
            n < self@.nodes.len(),
        ensures
            kids@ == self@.kids(n),
    {
        &self.nodes[n].children
    }

    /// The text of node `n`; empty unless `n` is a character.
    pub fn text(&self, n: usize) -> (s: &str)
        requires
            n < self@.nodes.len(),
        ensures
            s@ == self@.text(n),
    {
        self.nodes[n].text.as_str()
    }

    /// The document under the window.
    pub fn document(&self) -> (d: usize)
        requires
            self.wf(),
        ensures
            d == self@.document(),
            d < self@.nodes.len(),
            self@.kind(d) == ZipperType::Document,
    {
        assert(self@.node_wf(self.root as int));
        self.nodes[self.root].children[0]
    }
}

} // verus!
