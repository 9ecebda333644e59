//! Editing at the cursor: typing a run of text, and deleting backward and
//! forward. Edits are legal only while the cursor rests on a character; they
//! change the children of the span under the cursor and the deepest
//! breadcrumb together, and never touch a line or a span boundary.

use vstd::prelude::*;
use crate::cursor::{lemma_levels, CrumbView, Cursor, CursorView, MoveError};
use crate::level::ZipperType;
use crate::tree::{lemma_distinct_bounded, lemma_saved_text_stable, DocumentTree, TreeView};

verus! {

/// What was typed or pressed in insert mode.
#[derive(Clone, PartialEq, Eq, Debug)]
pub enum InsertChar {
    /// A run of text to put in front of the focus.
    Str(String),
    /// Delete backward.
    Delete,
    /// Delete forward.
    ForwardDelete,
}

/// Typing `text`: a new character node that holds `text` joins the arena and
/// becomes the nearest sibling on the left of the focus. The focus itself
/// does not move.
pub open spec fn typed(tree: TreeView, cursor: CursorView, text: Seq<char>) -> (
    TreeView,
    CursorView,
) {
    let top = cursor.top();
    let node = tree.nodes.len() as usize;
    (
        tree.with_character(text).with_kids(
            cursor.parent_focus(),
            top.left + seq![node, top.focus] + top.right,
        ),
        cursor.with_top(CrumbView { left: top.left.push(node), ..top }),
    )
}

/// The focus leaves the span; its place is taken by the nearest sibling on
/// the right, else by the nearest on the left, and where the span is left
/// without characters the cursor ascends to it.
pub open spec fn deleted_forward(tree: TreeView, cursor: CursorView) -> (TreeView, CursorView) {
    let top = cursor.top();
    let rest = tree.with_kids(cursor.parent_focus(), top.left + top.right);
    if top.right.len() > 0 {
        (
            rest,
            cursor.with_top(
                CrumbView { focus: top.right.first(), right: top.right.drop_first(), ..top },
            ),
        )
    } else if top.left.len() > 0 {
        (rest, cursor.with_top(CrumbView { focus: top.left.last(), left: top.left.drop_last(), ..top }))
    } else {
        (rest, cursor.move_parent())
    }
}

/// The nearest sibling on the left of the focus leaves the span and the
/// focus stays. Where the focus is the leftmost character, the focus itself
/// leaves: its place is taken by the nearest sibling on the right, and
/// where there is none the cursor ascends to the span.
pub open spec fn deleted_backward(tree: TreeView, cursor: CursorView) -> (TreeView, CursorView) {
    let top = cursor.top();
    if top.left.len() > 0 {
        (
            tree.with_kids(
                cursor.parent_focus(),
                top.left.drop_last() + seq![top.focus] + top.right,
            ),
            cursor.with_top(CrumbView { left: top.left.drop_last(), ..top }),
        )
    } else if top.right.len() > 0 {
        (
            tree.with_kids(cursor.parent_focus(), top.right),
            cursor.with_top(
                CrumbView { focus: top.right.first(), right: top.right.drop_first(), ..top },
            ),
        )
    } else {
        (tree.with_kids(cursor.parent_focus(), Seq::empty()), cursor.move_parent())
    }
}

/// What an input of insert mode does to the tree and the cursor.
pub open spec fn edited(tree: TreeView, cursor: CursorView, input: InsertChar) -> (
    TreeView,
    CursorView,
) {
    match input {
        InsertChar::Str(text) => typed(tree, cursor, text@),
        InsertChar::Delete => deleted_backward(tree, cursor),
        InsertChar::ForwardDelete => deleted_forward(tree, cursor),
    }
}

/// The node that an input of insert mode adds to the span under the cursor
/// or takes out of it.
pub open spec fn edited_node(tree: TreeView, cursor: CursorView, input: InsertChar) -> usize {
    match input {
        InsertChar::Str(_) => tree.nodes.len() as usize,
        InsertChar::Delete => if cursor.top().left.len() > 0 {
            cursor.top().left.last()
        } else {
            cursor.focus()
        },
        InsertChar::ForwardDelete => cursor.focus(),
    }
}

/// Replacing the children of the span under a character cursor by `kids`
/// keeps tree and cursor sound, provided the deepest breadcrumb `crumb` that
/// goes with them spells out `kids`, and `kids` are distinct characters of
/// the tree.
proof fn lemma_respan(tree: TreeView, cursor: CursorView, kids: Seq<usize>, crumb: CrumbView)
    requires
        tree.wf(),
        cursor.wf(tree),
        cursor.level() == ZipperType::Character,
        crumb.level == ZipperType::Character,
        kids.no_duplicates(),
        kids.len() <= usize::MAX,
        forall|k: int|
            0 <= k < kids.len() ==> (#[trigger] kids[k]) < tree.nodes.len() && tree.kind(kids[k])
                == ZipperType::Character,
    ensures
        cursor.depth() == 5,
        tree.kind(cursor.parent_focus()) == ZipperType::Span,
        tree.with_kids(cursor.parent_focus(), kids).wf(),
        crumb.siblings() == kids ==> cursor.with_top(crumb).wf(
            tree.with_kids(cursor.parent_focus(), kids),
        ),
        cursor.move_parent().wf(tree.with_kids(cursor.parent_focus(), kids)),
{
    lemma_levels(cursor, tree);
    let span = cursor.parent_focus();
    let after = tree.with_kids(span, kids);
    let placed = cursor.with_top(crumb);
    assert(cursor.crumbs[3].level == ZipperType::Span);
    assert(cursor.crumbs[0].level == ZipperType::Window);
    assert forall|n: int| 0 <= n < after.nodes.len() implies #[trigger] after.node_wf(n) by {
        assert(tree.node_wf(n));
    }
    assert(tree.node_wf(tree.root as int));
    assert(after.wf());
    if crumb.siblings() == kids {
        assert forall|i: int| 0 <= i < placed.crumbs.len() implies {
            &&& (#[trigger] placed.crumbs[i]).focus < after.nodes.len()
            &&& after.kind(placed.crumbs[i].focus) == placed.crumbs[i].level
        } by {
            if i < 4 {
                assert(placed.crumbs[i] == cursor.crumbs[i]);
            } else {
                assert(crumb.siblings()[crumb.left.len() as int] == crumb.focus);
            }
        }
        assert forall|i: int| 1 <= i < placed.crumbs.len() implies #[trigger] placed.crumb_wf(
            after,
            i,
        ) by {
            if i < 4 {
                assert(cursor.crumb_wf(tree, i));
                assert(cursor.crumbs[i - 1].level.depth() == i);
            }
        }
    }
    let up = cursor.move_parent();
    assert forall|i: int| 0 <= i < up.crumbs.len() implies {
        &&& (#[trigger] up.crumbs[i]).focus < after.nodes.len()
        &&& after.kind(up.crumbs[i].focus) == up.crumbs[i].level
    } by {
        assert(up.crumbs[i] == cursor.crumbs[i]);
    }
    assert forall|i: int| 1 <= i < up.crumbs.len() implies #[trigger] up.crumb_wf(after, i) by {
        assert(cursor.crumb_wf(tree, i));
        assert(cursor.crumbs[i - 1].level.depth() == i);
    }
}

/// What holds of the children of the span under a character cursor: they
/// are the focus and its siblings, all distinct characters of the tree.
proof fn lemma_span_kids(tree: TreeView, cursor: CursorView)
    requires
        tree.wf(),
        cursor.wf(tree),
        cursor.level() == ZipperType::Character,
    ensures
        cursor.depth() == 5,
        cursor.parent_focus() < tree.nodes.len(),
        cursor.parent_focus() != tree.root,
        tree.kind(cursor.parent_focus()) == ZipperType::Span,
        tree.kids(cursor.parent_focus()) == cursor.top().siblings(),
        tree.node_wf(cursor.parent_focus() as int),
{
    lemma_levels(cursor, tree);
    assert(cursor.crumb_wf(tree, 4));
    assert(cursor.crumbs[3].level == ZipperType::Span);
    assert(tree.node_wf(cursor.crumbs[3].focus as int));
}

/// Typing keeps the reconstruction invariant.
pub proof fn lemma_insert_wf(tree: TreeView, cursor: CursorView, text: Seq<char>)
    requires
        tree.wf(),
        cursor.wf(tree),
        cursor.level() == ZipperType::Character,
        tree.nodes.len() < usize::MAX,
    ensures
        typed(tree, cursor, text).0.wf(),
        typed(tree, cursor, text).1.wf(typed(tree, cursor, text).0),
{
    let grown = tree.with_character(text);
    let top = cursor.top();
    let node = tree.nodes.len() as usize;
    let kids = top.left + seq![node, top.focus] + top.right;
    let crumb = CrumbView { left: top.left.push(node), ..top };
    lemma_span_kids(tree, cursor);
    assert(grown.wf()) by {
        assert forall|n: int| 0 <= n < grown.nodes.len() implies #[trigger] grown.node_wf(n) by {
            if n < tree.nodes.len() {
                assert(tree.node_wf(n));
            }
        }
        assert(tree.node_wf(tree.root as int));
    }
    assert(cursor.wf(grown)) by {
        assert forall|i: int| 1 <= i < cursor.crumbs.len() implies #[trigger] cursor.crumb_wf(
            grown,
            i,
        ) by {
            assert(cursor.crumb_wf(tree, i));
        }
    }
    assert(crumb.siblings() =~= kids);
    let old_kids = top.siblings();
    assert(kids =~= old_kids.insert(top.left.len() as int, node));
    assert forall|k: int| 0 <= k < kids.len() implies (#[trigger] kids[k]) < grown.nodes.len()
        && grown.kind(kids[k]) == ZipperType::Character by {
        if k < top.left.len() {
            assert(kids[k] == old_kids[k]);
        } else if k > top.left.len() {
            assert(kids[k] == old_kids[k - 1]);
        }
    }
    assert forall|i: int, j: int| 0 <= i < kids.len() && 0 <= j < kids.len() && i != j implies kids[i]
        != kids[j] by {
        let a = if i < top.left.len() { i } else { i - 1 };
        let b = if j < top.left.len() { j } else { j - 1 };
        if i != top.left.len() && j != top.left.len() {
            assert(old_kids[a] != old_kids[b]);
        } else if i == top.left.len() {
            assert(old_kids[b] < tree.nodes.len());
        } else {
            assert(old_kids[a] < tree.nodes.len());
        }
    }
    lemma_distinct_bounded(kids, grown.nodes.len());
    lemma_respan(grown, cursor, kids, crumb);
}

/// Deleting backward keeps the reconstruction invariant.
pub proof fn lemma_delete_backward_wf(tree: TreeView, cursor: CursorView)
    requires
        tree.wf(),
        cursor.wf(tree),
        cursor.level() == ZipperType::Character,
    ensures
        deleted_backward(tree, cursor).0.wf(),
        deleted_backward(tree, cursor).1.wf(deleted_backward(tree, cursor).0),
{
    let top = cursor.top();
    let old_kids = top.siblings();
    lemma_span_kids(tree, cursor);
    if top.left.len() > 0 {
        let kids = top.left.drop_last() + seq![top.focus] + top.right;
        let crumb = CrumbView { left: top.left.drop_last(), ..top };
        assert(kids =~= old_kids.remove(top.left.len() - 1));
        lemma_remove_keeps(tree, old_kids, top.left.len() - 1);
        assert(crumb.siblings() =~= kids);
        lemma_respan(tree, cursor, kids, crumb);
    } else if top.right.len() > 0 {
        let kids = top.right;
        let crumb = CrumbView { focus: top.right.first(), right: top.right.drop_first(), ..top };
        assert(kids =~= old_kids.remove(0));
        lemma_remove_keeps(tree, old_kids, 0);
        assert(crumb.siblings() =~= kids);
        lemma_respan(tree, cursor, kids, crumb);
    } else {
        let kids = Seq::<usize>::empty();
        assert(kids =~= old_kids.remove(0));
        lemma_remove_keeps(tree, old_kids, 0);
        lemma_respan(tree, cursor, kids, top);
    }
}

/// Deleting forward keeps the reconstruction invariant.
pub proof fn lemma_delete_forward_wf(tree: TreeView, cursor: CursorView)
    requires
        tree.wf(),
        cursor.wf(tree),
        cursor.level() == ZipperType::Character,
    ensures
        deleted_forward(tree, cursor).0.wf(),
        deleted_forward(tree, cursor).1.wf(deleted_forward(tree, cursor).0),
{
    let top = cursor.top();
    let old_kids = top.siblings();
    lemma_span_kids(tree, cursor);
    let kids = top.left + top.right;
    assert(kids =~= old_kids.remove(top.left.len() as int));
    lemma_remove_keeps(tree, old_kids, top.left.len() as int);
    if top.right.len() > 0 {
        let crumb = CrumbView { focus: top.right.first(), right: top.right.drop_first(), ..top };
        assert(crumb.siblings() =~= kids);
        lemma_respan(tree, cursor, kids, crumb);
    } else if top.left.len() > 0 {
        let crumb = CrumbView { focus: top.left.last(), left: top.left.drop_last(), ..top };
        assert(crumb.siblings() =~= kids);
        lemma_respan(tree, cursor, kids, crumb);
    } else {
        lemma_respan(tree, cursor, kids, top);
    }
}

/// Typing a run of text and then deleting backward leaves the cursor where
/// it was and every node of the tree as it was: the same children under
/// every node, the same text to save. Only the typed character remains in
/// the arena, detached from the tree.
pub proof fn lemma_insert_then_delete_backward(tree: TreeView, cursor: CursorView, text: Seq<char>)
    requires
        tree.wf(),
        cursor.wf(tree),
        cursor.level() == ZipperType::Character,
    ensures
        ({
            let after = typed(tree, cursor, text);
            let back = deleted_backward(after.0, after.1);
            &&& back.1 == cursor
            &&& back.0 == tree.with_character(text)
            &&& tree.extended_by(back.0)
            &&& back.0.saved_text() == tree.saved_text()
        }),
{
    let after = typed(tree, cursor, text);
    let back = deleted_backward(after.0, after.1);
    let top = cursor.top();
    let node = tree.nodes.len() as usize;
    lemma_span_kids(tree, cursor);
    assert(after.1.parent_focus() == cursor.parent_focus());
    assert(after.1.top().left.drop_last() =~= top.left);
    assert(back.1.crumbs =~= cursor.crumbs);
    assert(top.left.push(node).drop_last() + seq![top.focus] + top.right =~= top.siblings());
    assert(back.0.nodes =~= tree.with_character(text).nodes);
    lemma_saved_text_stable(tree, back.0);
}

/// Types `text` in front of the focus and returns the node made for it. Off
/// the character level nothing changes.
pub fn insert(tree: &mut DocumentTree, cursor: &mut Cursor, text: String) -> (done: Result<
    usize,
    MoveError,
>)
    requires
        old(tree).wf(),
        old(cursor)@.wf(old(tree)@),
    ensures
        final(tree).wf(),
        final(cursor)@.wf(final(tree)@),
        match done {
            Ok(node) => {
                &&& old(cursor)@.level() == ZipperType::Character
                &&& node == old(tree)@.nodes.len()
                &&& final(tree)@ == typed(old(tree)@, old(cursor)@, text@).0
                &&& final(cursor)@ == typed(old(tree)@, old(cursor)@, text@).1
            },
            Err(e) => {
                &&& e == MoveError::WrongLevel
                &&& old(cursor)@.level() != ZipperType::Character
                &&& final(tree)@ == old(tree)@
                &&& final(cursor)@ == old(cursor)@
            },
        },
{
    if cursor.level() != ZipperType::Character {
        return Err(MoveError::WrongLevel);
    }
    let ghost run = text@;
    proof {
        lemma_span_kids(tree@, cursor@);
    }
    let span = cursor.parent_focus();
    let at = cursor.left_len();
    let node = tree.add_character(text);
    proof {
        let kids = old(tree)@.kids(span);
        assert(tree@.kids(span) == kids);
        assert(old(tree)@.node_wf(span as int));
        assert(!kids.contains(node)) by {
            if kids.contains(node) {
                let k = choose|k: int| 0 <= k < kids.len() && kids[k] == node;
                assert(kids[k] < old(tree)@.nodes.len());
            }
        }
    }
    tree.insert_child(span, at, node);
    cursor.push_left(node);
    proof {
        let top = old(cursor)@.top();
        lemma_insert_wf(old(tree)@, old(cursor)@, run);
        assert(top.siblings().insert(at as int, node) =~= top.left + seq![node, top.focus]
            + top.right);
        assert(tree@.nodes =~= typed(old(tree)@, old(cursor)@, run).0.nodes);
    }
    Ok(node)
}

/// Deletes backward and returns the node that left the span: the nearest
/// sibling on the left of the focus, or the focus itself where it is the
/// leftmost character. Off the character level nothing changes.
pub fn delete_backward(tree: &mut DocumentTree, cursor: &mut Cursor) -> (done: Result<
    usize,
    MoveError,
>)
    requires
        old(tree).wf(),
        old(cursor)@.wf(old(tree)@),
    ensures
        final(tree).wf(),
        final(cursor)@.wf(final(tree)@),
        match done {
            Ok(node) => {
                &&& old(cursor)@.level() == ZipperType::Character
                &&& node == if old(cursor)@.top().left.len() > 0 {
                    old(cursor)@.top().left.last()
                } else {
                    old(cursor)@.focus()
                }
                &&& final(tree)@ == deleted_backward(old(tree)@, old(cursor)@).0
                &&& final(cursor)@ == deleted_backward(old(tree)@, old(cursor)@).1
            },
            Err(e) => {
                &&& e == MoveError::WrongLevel
                &&& old(cursor)@.level() != ZipperType::Character
                &&& final(tree)@ == old(tree)@
                &&& final(cursor)@ == old(cursor)@
            },
        },
{
    if cursor.level() != ZipperType::Character {
        return Err(MoveError::WrongLevel);
    }
    proof {
        lemma_span_kids(tree@, cursor@);
        lemma_delete_backward_wf(tree@, cursor@);
    }
    let ghost top = cursor@.top();
    let span = cursor.parent_focus();
    let left = cursor.left_len();
    if left > 0 {
        let node = tree.remove_child(span, left - 1);
        cursor.pop_left();
        proof {
            assert(top.siblings().remove(left - 1) =~= top.left.drop_last() + seq![top.focus]
                + top.right);
            assert(tree@.nodes =~= deleted_backward(old(tree)@, old(cursor)@).0.nodes);
        }
        Ok(node)
    } else {
        let node = tree.remove_child(span, 0);
        if cursor.right_len() > 0 {
            cursor.refocus_right();
            proof {
                assert(top.siblings().remove(0) =~= top.right);
                assert(tree@.nodes =~= deleted_backward(old(tree)@, old(cursor)@).0.nodes);
            }
        } else {
            let _ = cursor.move_parent();
            proof {
                assert(top.siblings().remove(0) =~= Seq::<usize>::empty());
                assert(tree@.nodes =~= deleted_backward(old(tree)@, old(cursor)@).0.nodes);
            }
        }
        Ok(node)
    }
}

/// Deletes forward and returns the node that left the span, which is the
/// focus. Off the character level nothing changes.
pub fn delete_forward(tree: &mut DocumentTree, cursor: &mut Cursor) -> (done: Result<
    usize,
    MoveError,
>)
    requires
        old(tree).wf(),
        old(cursor)@.wf(old(tree)@),
    ensures
        final(tree).wf(),
        final(cursor)@.wf(final(tree)@),
        match done {
            Ok(node) => {
                &&& old(cursor)@.level() == ZipperType::Character
                &&& node == old(cursor)@.focus()
                &&& final(tree)@ == deleted_forward(old(tree)@, old(cursor)@).0
                &&& final(cursor)@ == deleted_forward(old(tree)@, old(cursor)@).1
            },
            Err(e) => {
                &&& e == MoveError::WrongLevel
                &&& old(cursor)@.level() != ZipperType::Character
                &&& final(tree)@ == old(tree)@
                &&& final(cursor)@ == old(cursor)@
            },
        },
{
    if cursor.level() != ZipperType::Character {
        return Err(MoveError::WrongLevel);
    }
    proof {
        lemma_span_kids(tree@, cursor@);
        lemma_delete_forward_wf(tree@, cursor@);
    }
    let ghost top = cursor@.top();
    let span = cursor.parent_focus();
    let left = cursor.left_len();
    let node = tree.remove_child(span, left);
    proof {
        assert(top.siblings().remove(left as int) =~= top.left + top.right);
        assert(tree@.nodes =~= deleted_forward(old(tree)@, old(cursor)@).0.nodes);
    }
    if cursor.right_len() > 0 {
        cursor.refocus_right();
    } else if left > 0 {
        cursor.refocus_left();
    } else {
        let _ = cursor.move_parent();
    }
    Ok(node)
}

/// Carries out one input of insert mode: types the text in front of the
/// focus, or deletes backward or forward. Returns the node that joined or
/// left the span under the cursor. Off the character level the input is
/// dropped and nothing changes.
pub fn process_insert(tree: &mut DocumentTree, cursor: &mut Cursor, input: InsertChar) -> (done:
    Result<usize, MoveError>)
    requires
        old(tree).wf(),
        old(cursor)@.wf(old(tree)@),
    ensures
        final(tree).wf(),
        final(cursor)@.wf(final(tree)@),
        match done {
            Ok(node) => {
                &&& old(cursor)@.level() == ZipperType::Character
                &&& node == edited_node(old(tree)@, old(cursor)@, input)
                &&& final(tree)@ == edited(old(tree)@, old(cursor)@, input).0
                &&& final(cursor)@ == edited(old(tree)@, old(cursor)@, input).1
            },
            Err(e) => {
                &&& e == MoveError::WrongLevel
                &&& old(cursor)@.level() != ZipperType::Character
                &&& final(tree)@ == old(tree)@
                &&& final(cursor)@ == old(cursor)@
            },
        },
{
    match input {
        InsertChar::Str(text) => insert(tree, cursor, text),
        InsertChar::Delete => delete_backward(tree, cursor),
        InsertChar::ForwardDelete => delete_forward(tree, cursor),
    }
}

/// Taking one node out of a list of distinct characters of the tree leaves a
/// list of distinct characters of the tree.
proof fn lemma_remove_keeps(tree: TreeView, kids: Seq<usize>, at: int)
    requires
        0 <= at < kids.len() <= usize::MAX,
        kids.no_duplicates(),
        forall|k: int|
            0 <= k < kids.len() ==> (#[trigger] kids[k]) < tree.nodes.len() && tree.kind(kids[k])
                == ZipperType::Character,
    ensures
        kids.remove(at).no_duplicates(),
        kids.remove(at).len() <= usize::MAX,
        forall|k: int|
            0 <= k < kids.remove(at).len() ==> (#[trigger] kids.remove(at)[k]) < tree.nodes.len()
                && tree.kind(kids.remove(at)[k]) == ZipperType::Character,
{
    let rest = kids.remove(at);
    assert forall|k: int| 0 <= k < rest.len() implies (#[trigger] rest[k]) < tree.nodes.len()
        && tree.kind(rest[k]) == ZipperType::Character by {
        let from = if k < at { k } else { k + 1 };
        assert(rest[k] == kids[from]);
    }
    assert forall|i: int, j: int| 0 <= i < rest.len() && 0 <= j < rest.len() && i != j implies rest[i]
        != rest[j] by {
        let a = if i < at { i } else { i + 1 };
        let b = if j < at { j } else { j + 1 };
        assert(kids[a] != kids[b]);
    }
}

} // verus!
