//! Moving by characters and by lines while the cursor rests on a character.
//!
//! A horizontal movement slides within the span and crosses into the
//! neighbouring span of the same line where the span ends. A vertical
//! movement keeps the horizontal offset of the focus within its line, as far
//! as the line it arrives at is long enough.

use vstd::prelude::*;
use crate::cursor::{
    lemma_levels, lemma_move_left_wf, lemma_move_parent_wf, lemma_move_right_wf, Cursor,
    CursorView, MoveError, MoveInstruction,
};
use crate::level::ZipperType;
use crate::movement::{followed, lemma_run_wf, lemma_try_run_wf, move_transaction, move_zipper};
use crate::tree::{DocumentTree, TreeView};

verus! {

/// A movement at character granularity.
#[derive(Clone, Copy, PartialEq, Eq, Debug, Structural)]
pub enum MoveChar {
    Right,
    Left,
    LineUp,
    LineDown,
}

/// A request to descend from a line to the character at a horizontal
/// offset: the offset, and the line.
#[derive(Clone, Copy, PartialEq, Eq, Debug)]
pub struct GoToChar(pub usize, pub usize);

/// How many characters the spans `ids` hold together.
pub open spec fn spans_len(tree: TreeView, ids: Seq<usize>) -> nat
    decreases ids.len(),
{
    if ids.len() == 0 {
        0
    } else {
        spans_len(tree, ids.drop_last()) + tree.kids(ids.last()).len()
    }
}

/// `n` as a machine word, or the largest machine word where `n` is larger.
pub open spec fn saturate(n: nat) -> usize {
    if n <= usize::MAX {
        n as usize
    } else {
        usize::MAX
    }
}

/// Where the character at offset `position` lies among `spans`: the position
/// of its span, and its position within that span. `None` where the spans
/// hold no more than `position` characters.
pub open spec fn locate(tree: TreeView, spans: Seq<usize>, position: nat) -> Option<(nat, nat)>
    decreases spans.len(),
{
    if spans.len() == 0 {
        None
    } else {
        let first = tree.kids(spans.first()).len();
        if position < first {
            Some((0, position))
        } else {
            match locate(tree, spans.drop_first(), (position - first) as nat) {
                Some((span, offset)) => Some((span + 1, offset)),
                None => None,
            }
        }
    }
}

/// The two descents that lead from `line` to the character at offset
/// `position`: into its span, then to its place in the span. Where the line
/// is too short, both descents go to the last child.
pub open spec fn descents(tree: TreeView, line: usize, position: usize) -> Seq<MoveInstruction> {
    match locate(tree, tree.kids(line), position as nat) {
        Some((span, offset)) => seq![
            MoveInstruction::Child(span as usize),
            MoveInstruction::Child(offset as usize),
        ],
        None => seq![MoveInstruction::Child(usize::MAX), MoveInstruction::Child(usize::MAX)],
    }
}

impl CursorView {
    /// One character to the left: within the span where the focus has a
    /// sibling there, else to the last character of the span before, as one
    /// gesture that fails whole.
    pub open spec fn char_left(self, tree: TreeView) -> Result<CursorView, MoveError> {
        if self.level() != ZipperType::Character {
            Err(MoveError::WrongLevel)
        } else if self.top().left.len() > 0 {
            Ok(self.move_left())
        } else {
            self.try_run(
                tree,
                seq![
                    MoveInstruction::Parent,
                    MoveInstruction::Left,
                    MoveInstruction::Child(usize::MAX),
                ],
            )
        }
    }

    /// One character to the right: within the span where the focus has a
    /// sibling there, else to the first character of the span after, as one
    /// gesture that fails whole.
    pub open spec fn char_right(self, tree: TreeView) -> Result<CursorView, MoveError> {
        if self.level() != ZipperType::Character {
            Err(MoveError::WrongLevel)
        } else if self.top().right.len() > 0 {
            Ok(self.move_right())
        } else {
            self.try_run(
                tree,
                seq![MoveInstruction::Parent, MoveInstruction::Right, MoveInstruction::Child(0)],
            )
        }
    }

    /// The horizontal offset of a focused character within its line: the
    /// characters of the spans to the left of its span, and the characters
    /// to its left within its span.
    pub open spec fn line_offset(self, tree: TreeView) -> nat {
        spans_len(tree, self.crumbs[self.crumbs.len() - 2].left) + self.top().left.len()
    }

    /// The cursor on the line above (`up`) or below, before it descends.
    pub open spec fn on_next_line(self, up: bool) -> CursorView {
        if up {
            self.move_parent().move_parent().move_left()
        } else {
            self.move_parent().move_parent().move_right()
        }
    }

    /// One line up or down. Where the line has a neighbour on that side the
    /// cursor moves to it and descends to the character at the offset the
    /// focus had, or to the last character of a shorter line. Where it has
    /// none, nothing changes.
    pub open spec fn line_move(self, tree: TreeView, up: bool) -> Result<CursorView, MoveError> {
        let line = self.crumbs[self.crumbs.len() - 3];
        if self.level() != ZipperType::Character {
            Err(MoveError::WrongLevel)
        } else if (if up {
            line.left.len() == 0
        } else {
            line.right.len() == 0
        }) {
            Err(MoveError::NoSiblings)
        } else {
            let arrived = self.on_next_line(up);
            Ok(
                arrived.run(
                    tree,
                    descents(tree, arrived.focus(), saturate(self.line_offset(tree))),
                ),
            )
        }
    }

    /// What a movement at character granularity does.
    pub open spec fn char_move(self, tree: TreeView, movement: MoveChar) -> Result<
        CursorView,
        MoveError,
    > {
        match movement {
            MoveChar::Left => self.char_left(tree),
            MoveChar::Right => self.char_right(tree),
            MoveChar::LineUp => self.line_move(tree, true),
            MoveChar::LineDown => self.line_move(tree, false),
        }
    }
}

/// What [`locate`] finds is a character of the spans, at the offset asked
/// for; and it finds one whenever the spans hold more than `position`
/// characters.
pub proof fn lemma_locate(tree: TreeView, spans: Seq<usize>, position: nat)
    ensures
        match locate(tree, spans, position) {
            Some((span, offset)) => {
                &&& span < spans.len()
                &&& offset < tree.kids(spans[span as int]).len()
                &&& spans_len(tree, spans.take(span as int)) + offset == position
            },
            None => spans_len(tree, spans) <= position,
        },
    decreases spans.len(),
{
    if spans.len() > 0 {
        let first = tree.kids(spans.first()).len();
        let rest = spans.drop_first();
        if position < first {
            assert(spans.take(0) =~= Seq::<usize>::empty());
        } else {
            lemma_locate(tree, rest, (position - first) as nat);
            match locate(tree, rest, (position - first) as nat) {
                Some((span, offset)) => {
                    assert(spans.take(span as int + 1).drop_first() =~= rest.take(span as int));
                    lemma_spans_len_first(tree, spans.take(span as int + 1));
                },
                None => {
                    lemma_spans_len_first(tree, spans);
                },
            }
        }
    }
}

/// The characters of some spans are those of the first and those of the
/// rest.
pub proof fn lemma_spans_len_first(tree: TreeView, ids: Seq<usize>)
    requires
        ids.len() > 0,
    ensures
        spans_len(tree, ids) == tree.kids(ids.first()).len() + spans_len(tree, ids.drop_first()),
    decreases ids.len(),
{
    if ids.len() == 1 {
        assert(ids.drop_last() =~= Seq::<usize>::empty());
        assert(ids.drop_first() =~= Seq::<usize>::empty());
    } else {
        lemma_spans_len_first(tree, ids.drop_last());
        assert(ids.drop_last().drop_first() =~= ids.drop_first().drop_last());
    }
}

/// At the last character of a line, one character to the right is a no-op:
/// the gesture fails at the line's edge and the cursor stays as it is.
pub proof fn lemma_char_right_at_line_end(cursor: CursorView, tree: TreeView)
    requires
        tree.wf(),
        cursor.wf(tree),
        cursor.level() == ZipperType::Character,
        cursor.top().right.len() == 0,
        cursor.crumbs[cursor.crumbs.len() - 2].right.len() == 0,
    ensures
        cursor.char_right(tree) == Err::<CursorView, MoveError>(MoveError::NoSiblings),
{
    lemma_levels(cursor, tree);
    reveal_with_fuel(CursorView::try_run, 3);
    let gesture = seq![
        MoveInstruction::Parent,
        MoveInstruction::Right,
        MoveInstruction::Child(0),
    ];
    assert(gesture.drop_first().first() == MoveInstruction::Right);
}

/// At the first character of a line, one character to the left is a no-op.
pub proof fn lemma_char_left_at_line_start(cursor: CursorView, tree: TreeView)
    requires
        tree.wf(),
        cursor.wf(tree),
        cursor.level() == ZipperType::Character,
        cursor.top().left.len() == 0,
        cursor.crumbs[cursor.crumbs.len() - 2].left.len() == 0,
    ensures
        cursor.char_left(tree) == Err::<CursorView, MoveError>(MoveError::NoSiblings),
{
    lemma_levels(cursor, tree);
    reveal_with_fuel(CursorView::try_run, 3);
    let gesture = seq![
        MoveInstruction::Parent,
        MoveInstruction::Left,
        MoveInstruction::Child(usize::MAX),
    ];
    assert(gesture.drop_first().first() == MoveInstruction::Left);
}

/// A vertical movement keeps the horizontal offset: where the line arrived
/// at holds more characters than the offset of the focus, the new focus is
/// a character at that same offset.
pub proof fn lemma_line_move_keeps_offset(cursor: CursorView, tree: TreeView, up: bool)
    requires
        tree.wf(),
        cursor.wf(tree),
        cursor.line_move(tree, up) is Ok,
        cursor.line_offset(tree) <= usize::MAX,
        cursor.line_offset(tree) < spans_len(tree, tree.kids(cursor.on_next_line(up).focus())),
    ensures
        cursor.line_move(tree, up)->Ok_0.level() == ZipperType::Character,
        cursor.line_move(tree, up)->Ok_0.line_offset(tree) == cursor.line_offset(tree),
{
    lemma_levels(cursor, tree);
    let offset = cursor.line_offset(tree);
    let arrived = cursor.on_next_line(up);
    lemma_on_next_line(cursor, tree, up);
    let line = arrived.focus();
    let spans = tree.kids(line);
    lemma_locate(tree, spans, offset);
    let (s, c) = locate(tree, spans, offset)->Some_0;
    assert(tree.node_wf(line as int));
    let span = spans[s as int];
    assert(tree.node_wf(span as int));
    let insts = descents(tree, line, saturate(offset));
    assert(insts =~= seq![MoveInstruction::Child(s as usize), MoveInstruction::Child(c as usize)]);
    reveal_with_fuel(CursorView::run, 3);
    let in_span = arrived.move_child(tree, s as usize);
    assert(arrived.step_or_stay(tree, insts.first()) == in_span);
    assert(insts.drop_first().first() == MoveInstruction::Child(c as usize));
    assert(in_span.focus() == span);
    let at_char = in_span.move_child(tree, c as usize);
    assert(in_span.step_or_stay(tree, MoveInstruction::Child(c as usize)) == at_char);
    assert(insts.drop_first().drop_first() =~= Seq::<MoveInstruction>::empty());
    assert(arrived.run(tree, insts) == at_char);
    assert(at_char.crumbs[at_char.crumbs.len() - 2] == in_span.top());
}

/// A vertical movement to a line that holds no more characters than the
/// offset of the focus ends at the last character of that line, provided
/// the last span of the line is not empty.
pub proof fn lemma_line_move_clamps(cursor: CursorView, tree: TreeView, up: bool)
    requires
        tree.wf(),
        cursor.wf(tree),
        cursor.line_move(tree, up) is Ok,
        cursor.line_offset(tree) <= usize::MAX,
        cursor.line_offset(tree) >= spans_len(tree, tree.kids(cursor.on_next_line(up).focus())),
        tree.kids(cursor.on_next_line(up).focus()).len() > 0,
        tree.kids(tree.kids(cursor.on_next_line(up).focus()).last()).len() > 0,
    ensures
        ({
            let after = cursor.line_move(tree, up)->Ok_0;
            let spans = tree.kids(cursor.on_next_line(up).focus());
            &&& after.level() == ZipperType::Character
            &&& after.parent_focus() == spans.last()
            &&& after.focus() == tree.kids(spans.last()).last()
            &&& after.top().right.len() == 0
        }),
{
    lemma_levels(cursor, tree);
    let offset = cursor.line_offset(tree);
    let arrived = cursor.on_next_line(up);
    lemma_on_next_line(cursor, tree, up);
    let line = arrived.focus();
    let spans = tree.kids(line);
    lemma_locate(tree, spans, offset);
    assert(locate(tree, spans, offset) is None) by {
        if locate(tree, spans, offset) is Some {
            let (s, c) = locate(tree, spans, offset)->Some_0;
            lemma_spans_len_grows(tree, spans, s as int + 1);
            assert(spans.take(s as int + 1).drop_last() =~= spans.take(s as int));
        }
    }
    assert(tree.node_wf(line as int));
    let span = spans.last();
    assert(tree.node_wf(span as int));
    let last = MoveInstruction::Child(usize::MAX);
    let insts = descents(tree, line, saturate(offset));
    assert(insts =~= seq![last, last]);
    reveal_with_fuel(CursorView::run, 3);
    let in_span = arrived.move_child(tree, usize::MAX);
    assert(arrived.step_or_stay(tree, insts.first()) == in_span);
    assert(insts.drop_first().first() == last);
    assert(in_span.focus() == span);
    let at_char = in_span.move_child(tree, usize::MAX);
    assert(in_span.step_or_stay(tree, last) == at_char);
    assert(insts.drop_first().drop_first() =~= Seq::<MoveInstruction>::empty());
    assert(arrived.run(tree, insts) == at_char);
    assert(at_char.crumbs[at_char.crumbs.len() - 2] == in_span.top());
}

/// The first spans of a row hold no more characters than the whole row.
pub proof fn lemma_spans_len_grows(tree: TreeView, ids: Seq<usize>, upto: int)
    requires
        0 <= upto <= ids.len(),
    ensures
        spans_len(tree, ids.take(upto)) <= spans_len(tree, ids),
    decreases ids.len(),
{
    if upto == ids.len() {
        assert(ids.take(upto) =~= ids);
    } else {
        lemma_spans_len_grows(tree, ids.drop_last(), upto);
        assert(ids.drop_last().take(upto) =~= ids.take(upto));
    }
}

/// Where a character cursor has a line to go to, going there leaves a
/// cursor that agrees with the tree and rests on a line.
proof fn lemma_on_next_line(cursor: CursorView, tree: TreeView, up: bool)
    requires
        tree.wf(),
        cursor.wf(tree),
        cursor.line_move(tree, up) is Ok,
    ensures
        cursor.on_next_line(up).wf(tree),
        cursor.on_next_line(up).level() == ZipperType::Line,
        cursor.on_next_line(up).depth() == 3,
{
    lemma_levels(cursor, tree);
    lemma_move_parent_wf(cursor, tree);
    lemma_move_parent_wf(cursor.move_parent(), tree);
    let on_line = cursor.move_parent().move_parent();
    assert(on_line.top() == cursor.crumbs[2]);
    if up {
        lemma_move_left_wf(on_line, tree);
    } else {
        lemma_move_right_wf(on_line, tree);
    }
    lemma_levels(cursor.on_next_line(up), tree);
}

/// A movement at character granularity keeps the reconstruction invariant.
pub proof fn lemma_char_move_wf(cursor: CursorView, tree: TreeView, movement: MoveChar)
    requires
        tree.wf(),
        cursor.wf(tree),
        cursor.char_move(tree, movement) is Ok,
    ensures
        cursor.char_move(tree, movement)->Ok_0.wf(tree),
{
    match movement {
        MoveChar::Left => {
            if cursor.top().left.len() > 0 {
                lemma_levels(cursor, tree);
                lemma_move_left_wf(cursor, tree);
            } else {
                lemma_try_run_wf(
                    cursor,
                    tree,
                    seq![
                        MoveInstruction::Parent,
                        MoveInstruction::Left,
                        MoveInstruction::Child(usize::MAX),
                    ],
                );
            }
        },
        MoveChar::Right => {
            if cursor.top().right.len() > 0 {
                lemma_levels(cursor, tree);
                lemma_move_right_wf(cursor, tree);
            } else {
                lemma_try_run_wf(
                    cursor,
                    tree,
                    seq![
                        MoveInstruction::Parent,
                        MoveInstruction::Right,
                        MoveInstruction::Child(0),
                    ],
                );
            }
        },
        MoveChar::LineUp => {
            lemma_on_next_line(cursor, tree, true);
            let arrived = cursor.on_next_line(true);
            lemma_run_wf(
                arrived,
                tree,
                descents(tree, arrived.focus(), saturate(cursor.line_offset(tree))),
            );
        },
        MoveChar::LineDown => {
            lemma_on_next_line(cursor, tree, false);
            let arrived = cursor.on_next_line(false);
            lemma_run_wf(
                arrived,
                tree,
                descents(tree, arrived.focus(), saturate(cursor.line_offset(tree))),
            );
        },
    }
}

/// Computes the two descents that lead from a line to the character at a
/// horizontal offset, by walking the spans of the line and counting their
/// characters. An offset beyond the line gives two descents to the last
/// child, which end at the last character of the line.
pub fn goto_char(tree: &DocumentTree, target: &GoToChar) -> (insts: Vec<MoveInstruction>)
    requires
        tree.wf(),
        target.1 < tree@.nodes.len(),
    ensures
        insts@ == descents(tree@, target.1, target.0),
{
    let position = target.0;
    let spans = tree.children(target.1);
    let mut insts: Vec<MoveInstruction> = Vec::new();
    let mut remaining: usize = position;
    let mut s: usize = 0;
    proof {
        assert(tree@.node_wf(target.1 as int));
        assert(spans@.skip(0) =~= spans@);
    }
    while s < spans.len()
        invariant
            s <= spans@.len(),
            tree.wf(),
            spans@ == tree@.kids(target.1),
            target.1 < tree@.nodes.len(),
            insts@.len() == 0,
            position == target.0,
            locate(tree@, spans@, position as nat) == match locate(
                tree@,
                spans@.skip(s as int),
                remaining as nat,
            ) {
                Some((span, offset)) => Some(((span + s) as nat, offset)),
                None => None,
            },
        decreases spans.len() - s,
    {
        proof {
            assert(tree@.node_wf(target.1 as int));
            assert(spans@.skip(s as int).first() == spans@[s as int]);
            assert(spans@.skip(s as int).drop_first() =~= spans@.skip(s + 1));
        }
        let count = tree.children(spans[s]).len();
        if remaining < count {
            insts.push(MoveInstruction::Child(s));
            insts.push(MoveInstruction::Child(remaining));
            assert(insts@ =~= descents(tree@, target.1, target.0));
            return insts;
        }
        remaining -= count;
        s += 1;
    }
    insts.push(MoveInstruction::Child(usize::MAX));
    insts.push(MoveInstruction::Child(usize::MAX));
    assert(insts@ =~= descents(tree@, target.1, target.0));
    insts
}

/// Follows a horizontal movement: one character to the left or right,
/// crossing into the neighbouring span of the line where the span ends. At
/// the edge of the line, or where the neighbouring span is empty, the cursor
/// stays exactly where it was. A vertical movement is not this function's to
/// follow and leaves the cursor alone.
pub fn move_char_left_right(cursor: &mut Cursor, tree: &DocumentTree, movement: MoveChar) -> (done:
    Result<(), MoveError>)
    requires
        old(cursor).wf(tree),
    ensures
        final(cursor).wf(tree),
        match movement {
            MoveChar::Left | MoveChar::Right => followed(
                old(cursor)@,
                old(cursor)@.char_move(tree@, movement),
                done,
                final(cursor)@,
            ),
            _ => done is Ok && final(cursor)@ == old(cursor)@,
        },
{
    match movement {
        MoveChar::Left => {
            if cursor.level() != ZipperType::Character {
                return Err(MoveError::WrongLevel);
            }
            if cursor.left_len() > 0 {
                proof {
                    lemma_move_left_wf(cursor@, tree@);
                }
                cursor.move_left()
            } else {
                let mut gesture: Vec<MoveInstruction> = Vec::new();
                gesture.push(MoveInstruction::Parent);
                gesture.push(MoveInstruction::Left);
                gesture.push(MoveInstruction::Child(usize::MAX));
                assert(gesture@ =~= seq![
                    MoveInstruction::Parent,
                    MoveInstruction::Left,
                    MoveInstruction::Child(usize::MAX),
                ]);
                move_transaction(cursor, tree, &gesture)
            }
        },
        MoveChar::Right => {
            if cursor.level() != ZipperType::Character {
                return Err(MoveError::WrongLevel);
            }
            if cursor.right_len() > 0 {
                proof {
                    lemma_move_right_wf(cursor@, tree@);
                }
                cursor.move_right()
            } else {
                let mut gesture: Vec<MoveInstruction> = Vec::new();
                gesture.push(MoveInstruction::Parent);
                gesture.push(MoveInstruction::Right);
                gesture.push(MoveInstruction::Child(0));
                assert(gesture@ =~= seq![
                    MoveInstruction::Parent,
                    MoveInstruction::Right,
                    MoveInstruction::Child(0),
                ]);
                move_transaction(cursor, tree, &gesture)
            }
        },
        _ => Ok(()),
    }
}

/// Follows a vertical movement: one line up or down, to the character at
/// the horizontal offset that the focus had, or to the last character of a
/// shorter line. Where the line has no neighbour on that side the cursor
/// stays exactly where it was. A horizontal movement is not this function's
/// to follow and leaves the cursor alone.
pub fn move_char_up_down(cursor: &mut Cursor, tree: &DocumentTree, movement: MoveChar) -> (done:
    Result<(), MoveError>)
    requires
        old(cursor).wf(tree),
    ensures
        final(cursor).wf(tree),
        match movement {
            MoveChar::LineUp | MoveChar::LineDown => followed(
                old(cursor)@,
                old(cursor)@.char_move(tree@, movement),
                done,
                final(cursor)@,
            ),
            _ => done is Ok && final(cursor)@ == old(cursor)@,
        },
{
    let up = match movement {
        MoveChar::LineUp => true,
        MoveChar::LineDown => false,
        _ => {
            return Ok(());
        },
    };
    if cursor.level() != ZipperType::Character {
        return Err(MoveError::WrongLevel);
    }
    proof {
        lemma_levels(cursor@, tree@);
    }
    let has_neighbour = if up {
        cursor.left_len_at(2) > 0
    } else {
        cursor.right_len_at(2) > 0
    };
    if !has_neighbour {
        return Err(MoveError::NoSiblings);
    }
    let offset = line_offset(cursor, tree);
    proof {
        lemma_move_parent_wf(cursor@, tree@);
        lemma_move_parent_wf(cursor@.move_parent(), tree@);
        assert(cursor@.move_parent().move_parent().top() == cursor@.crumbs[2]);
        if up {
            lemma_move_left_wf(cursor@.move_parent().move_parent(), tree@);
        } else {
            lemma_move_right_wf(cursor@.move_parent().move_parent(), tree@);
        }
    }
    let _ = cursor.move_parent();
    let _ = cursor.move_parent();
    if up {
        let _ = cursor.move_left();
    } else {
        let _ = cursor.move_right();
    }
    let line = cursor.focus();
    assert(cursor@.crumbs[2].focus < tree@.nodes.len());
    let insts = goto_char(tree, &GoToChar(offset, line));
    let _ = move_zipper(cursor, tree, &insts);
    Ok(())
}

/// The horizontal offset of the focused character within its line, counted
/// over the spans to the left of its span and the characters to its left,
/// and held at the largest machine word where it would not fit in one.
pub fn line_offset(cursor: &Cursor, tree: &DocumentTree) -> (offset: usize)
    requires
        cursor.wf(tree),
        cursor@.level() == ZipperType::Character,
    ensures
        offset == saturate(cursor@.line_offset(tree@)),
{
    proof {
        lemma_levels(cursor@, tree@);
        assert(cursor@.crumb_wf(tree@, 3));
        assert(tree@.node_wf(cursor@.crumbs[2].focus as int));
    }
    let mut offset: usize = cursor.left_len();
    let count = cursor.left_len_at(3);
    let ghost spans = cursor@.crumbs[3].left;
    let mut k: usize = 0;
    proof {
        assert(spans.take(0) =~= Seq::<usize>::empty());
        let row = cursor@.crumbs[3].siblings();
        assert forall|j: int| 0 <= j < spans.len() implies (#[trigger] spans[j]) < tree@.nodes.len() by {
            assert(row[j] == spans[j]);
        }
    }
    while k < count
        invariant
            k <= count == spans.len(),
            cursor@.depth() == 5,
            spans == cursor@.crumbs[3].left,
            forall|j: int| 0 <= j < spans.len() ==> (#[trigger] spans[j]) < tree@.nodes.len(),
            offset == saturate(spans_len(tree@, spans.take(k as int)) + cursor@.top().left.len()),
        decreases count - k,
    {
        let span = cursor.left_node_at(3, k);
        let chars = tree.children(span).len();
        proof {
            assert(spans.take(k + 1).drop_last() =~= spans.take(k as int));
            assert(spans.take(k + 1).last() == span);
        }
        offset = offset.saturating_add(chars);
        k += 1;
    }
    assert(spans.take(k as int) =~= spans);
    offset
}

/// Follows a movement at character granularity, horizontal or vertical.
pub fn move_char(cursor: &mut Cursor, tree: &DocumentTree, movement: MoveChar) -> (done: Result<
    (),
    MoveError,
>)
    requires
        old(cursor).wf(tree),
    ensures
        final(cursor).wf(tree),
        followed(old(cursor)@, old(cursor)@.char_move(tree@, movement), done, final(cursor)@),
{
    match movement {
        MoveChar::Left | MoveChar::Right => move_char_left_right(cursor, tree, movement),
        MoveChar::LineUp | MoveChar::LineDown => move_char_up_down(cursor, tree, movement),
    }
}

} // verus!
