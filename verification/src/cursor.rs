//! The cursor: a zipper over the document tree.
//!
//! The cursor is a stack of breadcrumbs that leads from the window down to
//! the focused node. Each breadcrumb below the window remembers the siblings
//! to the left and right of its focus, so that together they spell out the
//! children of the breadcrumb above it. Breadcrumbs are made on the way down
//! and dropped on the way up; they hold indices only and never own a node.

use std::collections::VecDeque;
use vstd::prelude::*;
use crate::level::ZipperType;
use crate::tree::{DocumentTree, TreeView};

verus! {

/// One structural movement of the cursor.
#[derive(Clone, Copy, PartialEq, Eq, Debug)]
pub enum MoveInstruction {
    Parent,
    Left,
    Right,
    /// Descend to the child at this position, clamped to the last child;
    /// `usize::MAX` therefore always means the last child.
    Child(usize),
}

/// Why a movement or an edit did nothing.
#[derive(Clone, Copy, PartialEq, Eq, Debug, Structural)]
pub enum MoveError {
    /// There is no sibling on the side asked for.
    NoSiblings,
    /// The focused node has no children to descend to.
    NoChildren,
    /// The command is not defined at the level the cursor is on.
    WrongLevel,
    /// The cursor is at the window and cannot ascend.
    AtRoot,
}

/// One level of the cursor's path, as mathematical values. `left` and `right`
/// are in document order: the nearest sibling on the left is the last of
/// `left`, the nearest on the right is the first of `right`.
pub struct CrumbView {
    pub level: ZipperType,
    pub focus: usize,
    pub left: Seq<usize>,
    pub right: Seq<usize>,
}

impl CrumbView {
    /// The focus together with its siblings, in document order.
    pub open spec fn siblings(self) -> Seq<usize> {
        self.left + seq![self.focus] + self.right
    }
}

/// The mathematical model of a [`Cursor`]: its breadcrumbs from the window
/// down to the focus.
pub struct CursorView {
    pub crumbs: Seq<CrumbView>,
}

impl CursorView {
    /// The cursor that rests on the window `root`.
    pub open spec fn rooted_at(root: usize) -> CursorView {
        CursorView {
            crumbs: seq![
                CrumbView {
                    level: ZipperType::Window,
                    focus: root,
                    left: Seq::empty(),
                    right: Seq::empty(),
                },
            ],
        }
    }

    /// The deepest breadcrumb, the only live one.
    pub open spec fn top(self) -> CrumbView {
        self.crumbs.last()
    }

    pub open spec fn depth(self) -> nat {
        self.crumbs.len()
    }

    pub open spec fn level(self) -> ZipperType {
        self.top().level
    }

    pub open spec fn focus(self) -> usize {
        self.top().focus
    }

    /// Breadcrumb `i`, below the window, agrees with the tree: it is one level
    /// below the breadcrumb above it, and its focus and siblings are exactly
    /// the children of that breadcrumb's focus, in order.
    pub open spec fn crumb_wf(self, tree: TreeView, i: int) -> bool {
        &&& self.crumbs[i].level == self.crumbs[i - 1].level.spec_child_type()
        &&& self.crumbs[i].siblings() == tree.kids(self.crumbs[i - 1].focus)
    }

    /// The cursor agrees with `tree`: it starts at the window, every focus is
    /// a node of the level its breadcrumb names, and every breadcrumb below
    /// the window spells out the children of the one above.
    pub open spec fn wf(self, tree: TreeView) -> bool {
        &&& self.crumbs.len() >= 1
        &&& self.crumbs[0] == CursorView::rooted_at(tree.root).crumbs[0]
        &&& forall|i: int|
            0 <= i < self.crumbs.len() ==> {
                &&& (#[trigger] self.crumbs[i]).focus < tree.nodes.len()
                &&& tree.kind(self.crumbs[i].focus) == self.crumbs[i].level
            }
        &&& forall|i: int| 1 <= i < self.crumbs.len() ==> #[trigger] self.crumb_wf(tree, i)
    }

    /// The focus of the breadcrumb above the deepest one.
    pub open spec fn parent_focus(self) -> usize {
        self.crumbs[self.crumbs.len() - 2].focus
    }

    /// The cursor with its deepest breadcrumb replaced by `crumb`.
    pub open spec fn with_top(self, crumb: CrumbView) -> CursorView {
        CursorView { crumbs: self.crumbs.drop_last().push(crumb) }
    }

    pub open spec fn can_move_left(self) -> bool {
        self.crumbs.len() > 1 && self.top().left.len() > 0
    }

    /// The focus slides to its nearest sibling on the left.
    pub open spec fn move_left(self) -> CursorView {
        let top = self.top();
        self.with_top(
            CrumbView {
                level: top.level,
                focus: top.left.last(),
                left: top.left.drop_last(),
                right: seq![top.focus] + top.right,
            },
        )
    }

    pub open spec fn can_move_right(self) -> bool {
        self.crumbs.len() > 1 && self.top().right.len() > 0
    }

    /// The focus slides to its nearest sibling on the right.
    pub open spec fn move_right(self) -> CursorView {
        let top = self.top();
        self.with_top(
            CrumbView {
                level: top.level,
                focus: top.right.first(),
                left: top.left.push(top.focus),
                right: top.right.drop_first(),
            },
        )
    }

    pub open spec fn can_move_parent(self) -> bool {
        self.crumbs.len() > 1
    }

    /// The deepest breadcrumb is dropped.
    pub open spec fn move_parent(self) -> CursorView {
        CursorView { crumbs: self.crumbs.drop_last() }
    }

    pub open spec fn can_move_child(self, tree: TreeView) -> bool {
        self.level() != ZipperType::Character && tree.kids(self.focus()).len() > 0
    }

    /// The position that `index` stands for among `count` children: itself,
    /// or the last position where it lies beyond.
    pub open spec fn clamp(index: usize, count: nat) -> int {
        if index < count {
            index as int
        } else {
            count - 1
        }
    }

    /// A breadcrumb is added for the child of the focus at position `index`,
    /// clamped to the last child.
    pub open spec fn move_child(self, tree: TreeView, index: usize) -> CursorView {
        let kids = tree.kids(self.focus());
        let at = Self::clamp(index, kids.len());
        CursorView {
            crumbs: self.crumbs.push(
                CrumbView {
                    level: self.level().spec_child_type(),
                    focus: kids[at],
                    left: kids.take(at),
                    right: kids.skip(at + 1),
                },
            ),
        }
    }

    /// What one instruction does: the cursor after it, or the reason why it
    /// cannot be followed.
    pub open spec fn step(self, tree: TreeView, inst: MoveInstruction) -> Result<
        CursorView,
        MoveError,
    > {
        match inst {
            MoveInstruction::Left => if self.can_move_left() {
                Ok(self.move_left())
            } else {
                Err(MoveError::NoSiblings)
            },
            MoveInstruction::Right => if self.can_move_right() {
                Ok(self.move_right())
            } else {
                Err(MoveError::NoSiblings)
            },
            MoveInstruction::Parent => if self.can_move_parent() {
                Ok(self.move_parent())
            } else {
                Err(MoveError::AtRoot)
            },
            MoveInstruction::Child(index) => if self.level() == ZipperType::Character {
                Err(MoveError::WrongLevel)
            } else if tree.kids(self.focus()).len() == 0 {
                Err(MoveError::NoChildren)
            } else {
                Ok(self.move_child(tree, index))
            },
        }
    }

    /// The cursor after `inst`, or the cursor as it is where `inst` cannot
    /// be followed.
    pub open spec fn step_or_stay(self, tree: TreeView, inst: MoveInstruction) -> CursorView {
        match self.step(tree, inst) {
            Ok(moved) => moved,
            Err(_) => self,
        }
    }

    /// The instruction that takes back `inst`, given that `inst` was followed
    /// from `self`: left and right undo each other, ascent undoes descent,
    /// and an ascent is undone by descending to the position just left.
    pub open spec fn inverse(self, inst: MoveInstruction) -> MoveInstruction {
        match inst {
            MoveInstruction::Left => MoveInstruction::Right,
            MoveInstruction::Right => MoveInstruction::Left,
            MoveInstruction::Child(_) => MoveInstruction::Parent,
            MoveInstruction::Parent => MoveInstruction::Child(self.top().left.len() as usize),
        }
    }
}

/// The node a breadcrumb is focused on.
pub struct ZipperFocus(usize);

impl View for ZipperFocus {
    type V = usize;

    closed spec fn view(&self) -> usize {
        self.0
    }
}

impl ZipperFocus {
    pub fn new(node: usize) -> (focus: ZipperFocus)
        ensures
            focus@ == node,
    {
        ZipperFocus(node)
    }

    pub fn get(&self) -> (node: usize)
        ensures
            node == self@,
    {
        self.0
    }
}

/// The siblings of a focus: those before it as a stack whose top is the
/// nearest, those after it as a queue whose front is the nearest.
pub struct ZipperSiblings {
    left: Vec<usize>,
    right: VecDeque<usize>,
}

/// The breadcrumb of the window: a focus without siblings.
pub struct RootZipperBundle {
    zipper_type: ZipperType,
    focus: ZipperFocus,
}

impl View for RootZipperBundle {
    type V = CrumbView;

    closed spec fn view(&self) -> CrumbView {
        CrumbView {
            level: self.zipper_type,
            focus: self.focus@,
            left: Seq::empty(),
            right: Seq::empty(),
        }
    }
}

impl RootZipperBundle {
    pub fn new(zipper_type: ZipperType, focus: usize) -> (crumb: Self)
        ensures
            crumb@ == (CrumbView {
                level: zipper_type,
                focus,
                left: Seq::empty(),
                right: Seq::empty(),
            }),
    {
        Self { zipper_type, focus: ZipperFocus(focus) }
    }
}

/// A breadcrumb below the window: a focus and its siblings.
pub struct BranchZipperBundle {
    zipper_type: ZipperType,
    focus: ZipperFocus,
    siblings: ZipperSiblings,
}

impl View for BranchZipperBundle {
    type V = CrumbView;

    closed spec fn view(&self) -> CrumbView {
        CrumbView {
            level: self.zipper_type,
            focus: self.focus@,
            left: self.siblings.left@,
            right: self.siblings.right@,
        }
    }
}

impl BranchZipperBundle {
    pub fn new(
        zipper_type: ZipperType,
        focus: usize,
        left: Vec<usize>,
        right: VecDeque<usize>,
    ) -> (crumb: Self)
        ensures
            crumb@ == (CrumbView { level: zipper_type, focus, left: left@, right: right@ }),
    {
        Self { zipper_type, focus: ZipperFocus(focus), siblings: ZipperSiblings { left, right } }
    }
}

/// The cursor: the breadcrumb of the window and, below it, one breadcrumb
/// for every level descended.
pub struct Cursor {
    root: RootZipperBundle,
    branches: Vec<BranchZipperBundle>,
}

impl View for Cursor {
    type V = CursorView;

    closed spec fn view(&self) -> CursorView {
        CursorView {
            crumbs: seq![self.root@] + Seq::new(
                self.branches@.len(),
                |i: int| self.branches@[i]@,
            ),
        }
    }
}

impl Cursor {
    /// The cursor agrees with `tree`, see [`CursorView::wf`].
    pub open spec fn wf(&self, tree: &DocumentTree) -> bool {
        tree.wf() && self@.wf(tree@)
    }

    /// A cursor that rests on the window `root`, with nothing descended.
    pub fn new(root: usize) -> (cursor: Cursor)
        ensures
            cursor@ == CursorView::rooted_at(root),
    {
        let cursor = Cursor {
            root: RootZipperBundle::new(ZipperType::Window, root),
            branches: Vec::new(),
        };
        assert(cursor@.crumbs =~= CursorView::rooted_at(root).crumbs);
        cursor
    }

    /// The number of breadcrumbs: 1 at the window, 5 at a character. A
    /// cursor that agrees with a tree is never deeper, see
    /// [`lemma_depth_is_level`].
    pub fn depth(&self) -> (depth: usize)
        requires
            self@.depth() <= usize::MAX,
        ensures
            depth == self@.depth(),
    {
        self.branches.len() + 1
    }

    /// The level of the focused node.
    pub fn level(&self) -> (level: ZipperType)
        ensures
            level == self@.level(),
    {
        let n = self.branches.len();
        if n == 0 {
            self.root.zipper_type
        } else {
            self.branches[n - 1].zipper_type
        }
    }

    /// The focused node.
    pub fn focus(&self) -> (node: usize)
        ensures
            node == self@.focus(),
    {
        let n = self.branches.len();
        if n == 0 {
            self.root.focus.0
        } else {
            self.branches[n - 1].focus.0
        }
    }

    /// How many siblings the focus has on its left.
    pub fn left_len(&self) -> (count: usize)
        ensures
            count == self@.top().left.len(),
    {
        let n = self.branches.len();
        if n == 0 {
            0
        } else {
            self.branches[n - 1].siblings.left.len()
        }
    }

    /// How many siblings the focus has on its right.
    pub fn right_len(&self) -> (count: usize)
        ensures
            count == self@.top().right.len(),
    {
        let n = self.branches.len();
        if n == 0 {
            0
        } else {
            self.branches[n - 1].siblings.right.len()
        }
    }

    /// The siblings on the left of the focus, in document order.
    pub fn left(&self) -> (nodes: Vec<usize>)
        ensures
            nodes@ == self@.top().left,
    {
        let mut nodes: Vec<usize> = Vec::new();
        let n = self.branches.len();
        if n > 0 {
            let left = &self.branches[n - 1].siblings.left;
            let mut i: usize = 0;
            while i < left.len()
                invariant
                    i <= left.len(),
                    nodes@ == left@.take(i as int),
                decreases left.len() - i,
            {
                nodes.push(left[i]);
                i += 1;
            }
            assert(left@.take(i as int) == left@);
        }
        nodes
    }

    /// The siblings on the right of the focus, in document order.
    pub fn right(&self) -> (nodes: Vec<usize>)
        ensures
            nodes@ == self@.top().right,
    {
        let mut nodes: Vec<usize> = Vec::new();
        let n = self.branches.len();
        if n > 0 {
            let right = &self.branches[n - 1].siblings.right;
            let mut i: usize = 0;
            while i < right.len()
                invariant
                    i <= right.len(),
                    nodes@ == right@.take(i as int),
                decreases right.len() - i,
            {
                nodes.push(right[i]);
                i += 1;
            }
            assert(right@.take(i as int) == right@);
        }
        nodes
    }

    /// The focus of breadcrumb `i`, counted from the window at 0.
    pub fn focus_at(&self, i: usize) -> (node: usize)
        requires
            i < self@.depth(),
        ensures
            node == self@.crumbs[i as int].focus,
    {
        if i == 0 {
            self.root.focus.0
        } else {
            self.branches[i - 1].focus.0
        }
    }

    /// How many siblings the focus of breadcrumb `i` has on its left.
    pub fn left_len_at(&self, i: usize) -> (count: usize)
        requires
            i < self@.depth(),
        ensures
            count == self@.crumbs[i as int].left.len(),
    {
        if i == 0 {
            0
        } else {
            self.branches[i - 1].siblings.left.len()
        }
    }

    /// How many siblings the focus of breadcrumb `i` has on its right.
    pub fn right_len_at(&self, i: usize) -> (count: usize)
        requires
            i < self@.depth(),
        ensures
            count == self@.crumbs[i as int].right.len(),
    {
        if i == 0 {
            0
        } else {
            self.branches[i - 1].siblings.right.len()
        }
    }

    /// The sibling at position `k` on the left of the focus of breadcrumb
    /// `i`, in document order.
    pub fn left_node_at(&self, i: usize, k: usize) -> (node: usize)
        requires
            i < self@.depth(),
            k < self@.crumbs[i as int].left.len(),
        ensures
            node == self@.crumbs[i as int].left[k as int],
    {
        self.branches[i - 1].siblings.left[k]
    }

    /// The focus of the breadcrumb above the deepest one: the node that the
    /// focus and its siblings hang under.
    pub fn parent_focus(&self) -> (node: usize)
        requires
            self@.depth() >= 2,
        ensures
            node == self@.parent_focus(),
    {
        let n = self.branches.len();
        if n == 1 {
            self.root.focus.0
        } else {
            self.branches[n - 2].focus.0
        }
    }

    /// Adds `node` as the nearest sibling on the left of the focus.
    pub(crate) fn push_left(&mut self, node: usize)
        requires
            old(self)@.depth() >= 2,
        ensures
            final(self)@ == old(self)@.with_top(
                CrumbView { left: old(self)@.top().left.push(node), ..old(self)@.top() },
            ),
    {
        let mut top = self.branches.pop().unwrap();
        top.siblings.left.push(node);
        self.branches.push(top);
        proof {
            assert(self@.crumbs =~= old(self)@.with_top(
                CrumbView { left: old(self)@.top().left.push(node), ..old(self)@.top() },
            ).crumbs);
        }
    }

    /// Takes the nearest sibling on the left of the focus out of the cursor
    /// and returns it.
    pub(crate) fn pop_left(&mut self) -> (node: usize)
        requires
            old(self)@.depth() >= 2,
            old(self)@.top().left.len() > 0,
        ensures
            node == old(self)@.top().left.last(),
            final(self)@ == old(self)@.with_top(
                CrumbView { left: old(self)@.top().left.drop_last(), ..old(self)@.top() },
            ),
    {
        let mut top = self.branches.pop().unwrap();
        let node = top.siblings.left.pop().unwrap();
        self.branches.push(top);
        proof {
            assert(self@.crumbs =~= old(self)@.with_top(
                CrumbView { left: old(self)@.top().left.drop_last(), ..old(self)@.top() },
            ).crumbs);
        }
        node
    }

    /// Gives up the focus and puts the nearest sibling on its right in its
    /// place.
    pub(crate) fn refocus_right(&mut self)
        requires
            old(self)@.depth() >= 2,
            old(self)@.top().right.len() > 0,
        ensures
            final(self)@ == old(self)@.with_top(
                CrumbView {
                    focus: old(self)@.top().right.first(),
                    right: old(self)@.top().right.drop_first(),
                    ..old(self)@.top()
                },
            ),
    {
        let mut top = self.branches.pop().unwrap();
        let node = top.siblings.right.pop_front().unwrap();
        top.focus = ZipperFocus(node);
        self.branches.push(top);
        proof {
            assert(self@.crumbs =~= old(self)@.with_top(
                CrumbView {
                    focus: old(self)@.top().right.first(),
                    right: old(self)@.top().right.drop_first(),
                    ..old(self)@.top()
                },
            ).crumbs);
        }
    }

    /// Gives up the focus and puts the nearest sibling on its left in its
    /// place.
    pub(crate) fn refocus_left(&mut self)
        requires
            old(self)@.depth() >= 2,
            old(self)@.top().left.len() > 0,
        ensures
            final(self)@ == old(self)@.with_top(
                CrumbView {
                    focus: old(self)@.top().left.last(),
                    left: old(self)@.top().left.drop_last(),
                    ..old(self)@.top()
                },
            ),
    {
        let mut top = self.branches.pop().unwrap();
        let node = top.siblings.left.pop().unwrap();
        top.focus = ZipperFocus(node);
        self.branches.push(top);
        proof {
            assert(self@.crumbs =~= old(self)@.with_top(
                CrumbView {
                    focus: old(self)@.top().left.last(),
                    left: old(self)@.top().left.drop_last(),
                    ..old(self)@.top()
                },
            ).crumbs);
        }
    }

    /// Slides the focus to its nearest sibling on the left. At the window,
    /// or where there is no such sibling, nothing changes.
    pub fn move_left(&mut self) -> (moved: Result<(), MoveError>)
        ensures
            match moved {
                Ok(()) => old(self)@.can_move_left() && final(self)@ == old(self)@.move_left(),
                Err(e) => !old(self)@.can_move_left() && e == MoveError::NoSiblings && final(self)@
                    == old(self)@,
            },
    {
        let n = self.branches.len();
        if n == 0 || self.branches[n - 1].siblings.left.len() == 0 {
            return Err(MoveError::NoSiblings);
        }
        let mut top = self.branches.pop().unwrap();
        let node = top.siblings.left.pop().unwrap();
        top.siblings.right.push_front(top.focus.0);
        top.focus = ZipperFocus(node);
        self.branches.push(top);
        proof {
            assert(self@.crumbs =~= old(self)@.move_left().crumbs);
        }
        Ok(())
    }

    /// Slides the focus to its nearest sibling on the right. At the window,
    /// or where there is no such sibling, nothing changes.
    pub fn move_right(&mut self) -> (moved: Result<(), MoveError>)
        ensures
            match moved {
                Ok(()) => old(self)@.can_move_right() && final(self)@ == old(self)@.move_right(),
                Err(e) => !old(self)@.can_move_right() && e == MoveError::NoSiblings
                    && final(self)@ == old(self)@,
            },
    {
        let n = self.branches.len();
        if n == 0 || self.branches[n - 1].siblings.right.len() == 0 {
            return Err(MoveError::NoSiblings);
        }
        let mut top = self.branches.pop().unwrap();
        let node = top.siblings.right.pop_front().unwrap();
        top.siblings.left.push(top.focus.0);
        top.focus = ZipperFocus(node);
        self.branches.push(top);
        proof {
            assert(self@.crumbs =~= old(self)@.move_right().crumbs);
        }
        Ok(())
    }

    /// Ascends one level: the deepest breadcrumb is dropped and the focus
    /// returns to the node it hung under. At the window nothing changes.
    pub fn move_parent(&mut self) -> (moved: Result<(), MoveError>)
        ensures
            match moved {
                Ok(()) => old(self)@.can_move_parent() && final(self)@ == old(self)@.move_parent(),
                Err(e) => !old(self)@.can_move_parent() && e == MoveError::AtRoot && final(self)@
                    == old(self)@,
            },
    {
        if self.branches.len() == 0 {
            return Err(MoveError::AtRoot);
        }
        self.branches.pop();
        proof {
            assert(self@.crumbs =~= old(self)@.move_parent().crumbs);
        }
        Ok(())
    }

    /// Descends to the child of the focus at position `index`, clamped to the
    /// last child. At a character, or where the focus has no children,
    /// nothing changes.
    pub fn move_child(&mut self, tree: &DocumentTree, index: usize) -> (moved: Result<
        (),
        MoveError,
    >)
        requires
            old(self).wf(tree),
        ensures
            final(self).wf(tree),
            match moved {
                Ok(()) => old(self)@.can_move_child(tree@) && final(self)@ == old(self)@.move_child(
                    tree@,
                    index,
                ),
                Err(e) => !old(self)@.can_move_child(tree@) && final(self)@ == old(self)@ && e == (
                if old(self)@.level() == ZipperType::Character {
                    MoveError::WrongLevel
                } else {
                    MoveError::NoChildren
                }),
            },
    {
        let level = self.level();
        if level == ZipperType::Character {
            return Err(MoveError::WrongLevel);
        }
        let focus = self.focus();
        let kids = tree.children(focus);
        if kids.len() == 0 {
            return Err(MoveError::NoChildren);
        }
        let at = if index < kids.len() {
            index
        } else {
            kids.len() - 1
        };
        let mut left: Vec<usize> = Vec::new();
        let mut i: usize = 0;
        while i < at
            invariant
                i <= at < kids@.len(),
                left@ == kids@.take(i as int),
            decreases at - i,
        {
            left.push(kids[i]);
            i += 1;
        }
        let mut right: VecDeque<usize> = VecDeque::new();
        let mut j: usize = at + 1;
        while j < kids.len()
            invariant
                at < j <= kids@.len(),
                right@ == kids@.subrange(at + 1, j as int),
            decreases kids.len() - j,
        {
            right.push_back(kids[j]);
            j += 1;
        }
        proof {
            assert(kids@.subrange(at + 1, j as int) == kids@.skip(at + 1));
            lemma_move_child_wf(self@, tree@, index);
        }
        let crumb = BranchZipperBundle::new(level.child_type(), kids[at], left, right);
        self.branches.push(crumb);
        proof {
            assert(self@.crumbs =~= old(self)@.move_child(tree@, index).crumbs);
        }
        Ok(())
    }
}

/// The reconstruction invariant, spelled out: in a cursor that agrees with
/// the tree, the left siblings, the focus and the right siblings of every
/// breadcrumb below the window are, in this order, exactly the children of
/// the focus one breadcrumb above, and no node occurs among them twice.
pub proof fn lemma_reconstruction(cursor: CursorView, tree: TreeView, i: int)
    requires
        tree.wf(),
        cursor.wf(tree),
        1 <= i < cursor.crumbs.len(),
    ensures
        cursor.crumbs[i].left + seq![cursor.crumbs[i].focus] + cursor.crumbs[i].right
            == tree.kids(cursor.crumbs[i - 1].focus),
        cursor.crumbs[i].siblings().no_duplicates(),
{
    assert(cursor.crumb_wf(tree, i));
    assert(cursor.crumbs[i - 1].focus < tree.nodes.len());
    assert(tree.node_wf(cursor.crumbs[i - 1].focus as int));
}

/// Sliding left keeps the cursor in agreement with the tree.
pub proof fn lemma_move_left_wf(cursor: CursorView, tree: TreeView)
    requires
        tree.wf(),
        cursor.wf(tree),
        cursor.can_move_left(),
    ensures
        cursor.move_left().wf(tree),
{
    let moved = cursor.move_left();
    let last = cursor.crumbs.len() - 1;
    let top = cursor.top();
    assert(cursor.crumb_wf(tree, last));
    assert(moved.top().siblings() =~= top.siblings());
    let parent = cursor.crumbs[last - 1];
    assert(tree.node_wf(parent.focus as int));
    assert(top.siblings()[top.left.len() as int - 1] == top.left.last());
    assert forall|i: int| 1 <= i < moved.crumbs.len() implies #[trigger] moved.crumb_wf(tree, i) by {
        if i < last {
            assert(cursor.crumb_wf(tree, i));
        }
    }
    assert forall|i: int| 0 <= i < moved.crumbs.len() implies {
        &&& (#[trigger] moved.crumbs[i]).focus < tree.nodes.len()
        &&& tree.kind(moved.crumbs[i].focus) == moved.crumbs[i].level
    } by {
        if i < last {
            assert(moved.crumbs[i] == cursor.crumbs[i]);
        }
    }
}

/// Sliding right keeps the cursor in agreement with the tree.
pub proof fn lemma_move_right_wf(cursor: CursorView, tree: TreeView)
    requires
        tree.wf(),
        cursor.wf(tree),
        cursor.can_move_right(),
    ensures
        cursor.move_right().wf(tree),
{
    let moved = cursor.move_right();
    let last = cursor.crumbs.len() - 1;
    let top = cursor.top();
    assert(cursor.crumb_wf(tree, last));
    assert(moved.top().siblings() =~= top.siblings());
    let parent = cursor.crumbs[last - 1];
    assert(tree.node_wf(parent.focus as int));
    assert(top.siblings()[top.left.len() as int + 1] == top.right.first());
    assert forall|i: int| 1 <= i < moved.crumbs.len() implies #[trigger] moved.crumb_wf(tree, i) by {
        if i < last {
            assert(cursor.crumb_wf(tree, i));
        }
    }
    assert forall|i: int| 0 <= i < moved.crumbs.len() implies {
        &&& (#[trigger] moved.crumbs[i]).focus < tree.nodes.len()
        &&& tree.kind(moved.crumbs[i].focus) == moved.crumbs[i].level
    } by {
        if i < last {
            assert(moved.crumbs[i] == cursor.crumbs[i]);
        }
    }
}

/// Ascending keeps the cursor in agreement with the tree.
pub proof fn lemma_move_parent_wf(cursor: CursorView, tree: TreeView)
    requires
        cursor.wf(tree),
        cursor.can_move_parent(),
    ensures
        cursor.move_parent().wf(tree),
{
    let moved = cursor.move_parent();
    assert forall|i: int| 1 <= i < moved.crumbs.len() implies #[trigger] moved.crumb_wf(tree, i) by {
        assert(cursor.crumb_wf(tree, i));
    }
    assert forall|i: int| 0 <= i < moved.crumbs.len() implies {
        &&& (#[trigger] moved.crumbs[i]).focus < tree.nodes.len()
        &&& tree.kind(moved.crumbs[i].focus) == moved.crumbs[i].level
    } by {
        assert(moved.crumbs[i] == cursor.crumbs[i]);
    }
}

/// Descending keeps the cursor in agreement with the tree.
pub proof fn lemma_move_child_wf(cursor: CursorView, tree: TreeView, index: usize)
    requires
        tree.wf(),
        cursor.wf(tree),
        cursor.can_move_child(tree),
    ensures
        cursor.move_child(tree, index).wf(tree),
{
    let moved = cursor.move_child(tree, index);
    let last = cursor.crumbs.len() - 1;
    let kids = tree.kids(cursor.focus());
    let at = CursorView::clamp(index, kids.len());
    assert(cursor.crumbs[last].focus < tree.nodes.len());
    assert(tree.node_wf(cursor.focus() as int));
    assert(moved.top().siblings() =~= kids);
    assert forall|i: int| 1 <= i < moved.crumbs.len() implies #[trigger] moved.crumb_wf(tree, i) by {
        if i <= last {
            assert(cursor.crumb_wf(tree, i));
        }
    }
    assert forall|i: int| 0 <= i < moved.crumbs.len() implies {
        &&& (#[trigger] moved.crumbs[i]).focus < tree.nodes.len()
        &&& tree.kind(moved.crumbs[i].focus) == moved.crumbs[i].level
    } by {
        if i <= last {
            assert(moved.crumbs[i] == cursor.crumbs[i]);
        } else {
            assert(kids[at] < tree.nodes.len());
        }
    }
}

/// Breadcrumb `i` of a cursor that agrees with the tree lies `i + 1` levels
/// deep, and no breadcrumb lies deeper than a character.
proof fn lemma_level_at(cursor: CursorView, tree: TreeView, i: int)
    requires
        tree.wf(),
        cursor.wf(tree),
        0 <= i < cursor.crumbs.len(),
    ensures
        i < 5,
        cursor.crumbs[i].level.depth() == i + 1,
    decreases i,
{
    if i > 0 {
        lemma_level_at(cursor, tree, i - 1);
        let above = cursor.crumbs[i - 1];
        assert(cursor.crumb_wf(tree, i));
        assert(tree.node_wf(above.focus as int));
        assert(cursor.crumbs[i].siblings().len() > 0);
    }
}

/// Every breadcrumb of a cursor that agrees with the tree lies as deep as
/// its place in the stack says: the first at the window, the fifth at a
/// character.
pub proof fn lemma_levels(cursor: CursorView, tree: TreeView)
    requires
        tree.wf(),
        cursor.wf(tree),
    ensures
        cursor.crumbs.len() <= 5,
        forall|i: int|
            0 <= i < cursor.crumbs.len() ==> (#[trigger] cursor.crumbs[i]).level.depth() == i + 1,
{
    lemma_level_at(cursor, tree, cursor.crumbs.len() - 1);
    assert forall|i: int| 0 <= i < cursor.crumbs.len() implies (#[trigger] cursor.crumbs[i]).level.depth()
        == i + 1 by {
        lemma_level_at(cursor, tree, i);
    }
}

/// The stack is as long as the focus is deep: one breadcrumb at the window,
/// five at a character, never more.
pub proof fn lemma_depth_is_level(cursor: CursorView, tree: TreeView)
    requires
        tree.wf(),
        cursor.wf(tree),
    ensures
        cursor.depth() == cursor.level().depth(),
        cursor.depth() <= 5,
{
    lemma_level_at(cursor, tree, cursor.crumbs.len() - 1);
}

/// The reconstruction invariant survives every instruction: where the cursor
/// agrees with the tree before a step, it agrees with it after, whether the
/// step was followed or dropped.
pub proof fn lemma_step_wf(cursor: CursorView, tree: TreeView, inst: MoveInstruction)
    requires
        tree.wf(),
        cursor.wf(tree),
    ensures
        cursor.step_or_stay(tree, inst).wf(tree),
{
    match inst {
        MoveInstruction::Left => if cursor.can_move_left() {
            lemma_move_left_wf(cursor, tree);
        },
        MoveInstruction::Right => if cursor.can_move_right() {
            lemma_move_right_wf(cursor, tree);
        },
        MoveInstruction::Parent => if cursor.can_move_parent() {
            lemma_move_parent_wf(cursor, tree);
        },
        MoveInstruction::Child(index) => if cursor.can_move_child(tree) {
            lemma_move_child_wf(cursor, tree, index);
        },
    }
}

/// Sliding right and then left returns the focus to the node it left, with
/// the siblings on both sides as they were.
pub proof fn lemma_right_then_left(cursor: CursorView)
    requires
        cursor.can_move_right(),
    ensures
        cursor.move_right().can_move_left(),
        cursor.move_right().move_left() == cursor,
{
    let top = cursor.top();
    let there = cursor.move_right();
    let back = there.move_left();
    assert(there.crumbs.drop_last() =~= cursor.crumbs.drop_last());
    assert(back.top().left =~= top.left);
    assert(back.top().right =~= top.right);
    assert(back.crumbs =~= cursor.crumbs);
}

/// Sliding left and then right returns the focus to the node it left, with
/// the siblings on both sides as they were.
pub proof fn lemma_left_then_right(cursor: CursorView)
    requires
        cursor.can_move_left(),
    ensures
        cursor.move_left().can_move_right(),
        cursor.move_left().move_right() == cursor,
{
    let top = cursor.top();
    let there = cursor.move_left();
    let back = there.move_right();
    assert(there.crumbs.drop_last() =~= cursor.crumbs.drop_last());
    assert(back.top().left =~= top.left);
    assert(back.top().right =~= top.right);
    assert(back.crumbs =~= cursor.crumbs);
}

/// Descending to any child and then ascending restores the cursor exactly:
/// every breadcrumb has the focus and the siblings it had before.
pub proof fn lemma_child_then_parent(cursor: CursorView, tree: TreeView, index: usize)
    requires
        cursor.depth() >= 1,
        cursor.can_move_child(tree),
    ensures
        cursor.move_child(tree, index).can_move_parent(),
        cursor.move_child(tree, index).move_parent() == cursor,
{
    assert(cursor.move_child(tree, index).move_parent().crumbs =~= cursor.crumbs);
}

/// Ascending and then descending to the position that was left restores the
/// cursor exactly, because the dropped breadcrumb spelled out the children
/// of the one above it.
pub proof fn lemma_parent_then_child(cursor: CursorView, tree: TreeView)
    requires
        tree.wf(),
        cursor.wf(tree),
        cursor.can_move_parent(),
    ensures
        cursor.move_parent().can_move_child(tree),
        cursor.top().left.len() <= usize::MAX,
        cursor.move_parent().move_child(tree, cursor.top().left.len() as usize) == cursor,
{
    let last = cursor.crumbs.len() - 1;
    let top = cursor.top();
    let up = cursor.move_parent();
    assert(cursor.crumb_wf(tree, last));
    let kids = tree.kids(up.focus());
    assert(kids == top.siblings());
    assert(up.top() == cursor.crumbs[last - 1]);
    assert(tree.node_wf(up.focus() as int));
    assert(kids.len() == top.left.len() + 1 + top.right.len());
    assert(kids[top.left.len() as int] == top.focus);
    assert(top.focus < tree.nodes.len());
    let at = top.left.len() as usize;
    let down = up.move_child(tree, at);
    assert(down.top().left =~= top.left);
    assert(down.top().right =~= top.right);
    assert(down.crumbs =~= cursor.crumbs);
}

/// Every instruction that was followed is taken back by its inverse.
pub proof fn lemma_inverse_restores(cursor: CursorView, tree: TreeView, inst: MoveInstruction)
    requires
        tree.wf(),
        cursor.wf(tree),
        cursor.step(tree, inst) is Ok,
    ensures
        cursor.step(tree, inst)->Ok_0.step(tree, cursor.inverse(inst)) == Ok::<
            CursorView,
            MoveError,
        >(cursor),
{
    match inst {
        MoveInstruction::Left => {
            lemma_left_then_right(cursor);
        },
        MoveInstruction::Right => {
            lemma_right_then_left(cursor);
        },
        MoveInstruction::Child(index) => {
            lemma_child_then_parent(cursor, tree, index);
        },
        MoveInstruction::Parent => {
            lemma_parent_then_child(cursor, tree);
            let up = cursor.move_parent();
            let last = cursor.crumbs.len() - 1;
            assert(up.top() == cursor.crumbs[last - 1]);
            assert(tree.node_wf(up.focus() as int));
        },
    }
}

} // verus!
