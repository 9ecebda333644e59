//! Following movement instructions: one at a time, as an ordered batch, or
//! as a gesture that is taken back whole when one of its steps fails.

use vstd::prelude::*;
use crate::cursor::{
    lemma_inverse_restores, lemma_step_wf, Cursor, CursorView, MoveError, MoveInstruction,
};
use crate::tree::{DocumentTree, TreeView};

verus! {

impl CursorView {
    /// Whether `inst` is followed or dropped, without the cursor it leads to.
    pub open spec fn outcome(self, tree: TreeView, inst: MoveInstruction) -> Result<(), MoveError> {
        match self.step(tree, inst) {
            Ok(_) => Ok(()),
            Err(e) => Err(e),
        }
    }

    /// The cursor after a batch: the instructions are taken strictly in
    /// order, each one completed before the next is looked at, and one that
    /// cannot be followed is dropped without touching the others.
    pub open spec fn run(self, tree: TreeView, insts: Seq<MoveInstruction>) -> CursorView
        decreases insts.len(),
    {
        if insts.len() == 0 {
            self
        } else {
            self.step_or_stay(tree, insts.first()).run(tree, insts.drop_first())
        }
    }

    /// The cursor after a gesture: every instruction followed in order, or
    /// the error of the first one that cannot be followed.
    pub open spec fn try_run(self, tree: TreeView, insts: Seq<MoveInstruction>) -> Result<
        CursorView,
        MoveError,
    >
        decreases insts.len(),
    {
        if insts.len() == 0 {
            Ok(self)
        } else {
            match self.step(tree, insts.first()) {
                Ok(next) => next.try_run(tree, insts.drop_first()),
                Err(e) => Err(e),
            }
        }
    }

    /// The cursor after taking back the steps whose inverses are stacked in
    /// `undo`, the latest on top.
    pub open spec fn unwind(self, tree: TreeView, undo: Seq<MoveInstruction>) -> CursorView
        decreases undo.len(),
    {
        if undo.len() == 0 {
            self
        } else {
            self.step_or_stay(tree, undo.last()).unwind(tree, undo.drop_last())
        }
    }
}

/// A command reported `done` and left the cursor at `after`, as `outcome`
/// says it must: where the outcome is a cursor, the command succeeded and
/// the cursor is that one; where it is an error, the command failed with
/// that error and the cursor is as it was `before`.
pub open spec fn followed(
    before: CursorView,
    outcome: Result<CursorView, MoveError>,
    done: Result<(), MoveError>,
    after: CursorView,
) -> bool {
    match outcome {
        Ok(moved) => done is Ok && after == moved,
        Err(e) => done == Err::<(), MoveError>(e) && after == before,
    }
}

/// A batch keeps the cursor in agreement with the tree.
pub proof fn lemma_run_wf(cursor: CursorView, tree: TreeView, insts: Seq<MoveInstruction>)
    requires
        tree.wf(),
        cursor.wf(tree),
    ensures
        cursor.run(tree, insts).wf(tree),
    decreases insts.len(),
{
    if insts.len() > 0 {
        lemma_step_wf(cursor, tree, insts.first());
        lemma_run_wf(cursor.step_or_stay(tree, insts.first()), tree, insts.drop_first());
    }
}

/// A gesture that is followed leaves the cursor in agreement with the tree.
pub proof fn lemma_try_run_wf(cursor: CursorView, tree: TreeView, insts: Seq<MoveInstruction>)
    requires
        tree.wf(),
        cursor.wf(tree),
        cursor.try_run(tree, insts) is Ok,
    ensures
        cursor.try_run(tree, insts)->Ok_0.wf(tree),
    decreases insts.len(),
{
    if insts.len() > 0 {
        lemma_step_wf(cursor, tree, insts.first());
        lemma_try_run_wf(cursor.step(tree, insts.first())->Ok_0, tree, insts.drop_first());
    }
}

impl Cursor {
    /// Follows one instruction, or drops it where the structure does not
    /// allow it; the cursor is then left exactly as it was.
    pub fn apply(&mut self, tree: &DocumentTree, inst: MoveInstruction) -> (moved: Result<
        (),
        MoveError,
    >)
        requires
            old(self).wf(tree),
        ensures
            final(self).wf(tree),
            moved == old(self)@.outcome(tree@, inst),
            final(self)@ == old(self)@.step_or_stay(tree@, inst),
    {
        proof {
            lemma_step_wf(self@, tree@, inst);
        }
        let moved = match inst {
            MoveInstruction::Left => self.move_left(),
            MoveInstruction::Right => self.move_right(),
            MoveInstruction::Parent => self.move_parent(),
            MoveInstruction::Child(index) => self.move_child(tree, index),
        };
        proof {
            let expected = old(self)@.outcome(tree@, inst);
            match moved {
                Ok(unit) => {
                    assert(expected is Ok);
                    assert(unit == expected->Ok_0);
                },
                Err(e) => {
                    assert(expected == Err::<(), MoveError>(e));
                },
            }
        }
        moved
    }
}

/// Follows a batch of instructions strictly in the order given. Each one is
/// completed before the next is read; one that hits a structural boundary is
/// dropped and changes nothing. Returns, for every instruction, whether it
/// was followed or why it was dropped.
pub fn move_zipper(cursor: &mut Cursor, tree: &DocumentTree, insts: &Vec<MoveInstruction>) -> (outcomes:
    Vec<Result<(), MoveError>>)
    requires
        old(cursor).wf(tree),
    ensures
        final(cursor).wf(tree),
        final(cursor)@ == old(cursor)@.run(tree@, insts@),
        outcomes@.len() == insts@.len(),
        forall|k: int|
            0 <= k < insts@.len() ==> #[trigger] outcomes@[k] == old(cursor)@.run(
                tree@,
                insts@.take(k),
            ).outcome(tree@, insts@[k]),
{
    let mut outcomes: Vec<Result<(), MoveError>> = Vec::new();
    let mut i: usize = 0;
    while i < insts.len()
        invariant
            i <= insts.len(),
            cursor.wf(tree),
            outcomes@.len() == i,
            cursor@ == old(cursor)@.run(tree@, insts@.take(i as int)),
            forall|k: int|
                0 <= k < i ==> #[trigger] outcomes@[k] == old(cursor)@.run(
                    tree@,
                    insts@.take(k),
                ).outcome(tree@, insts@[k]),
        decreases insts.len() - i,
    {
        let moved = cursor.apply(tree, insts[i]);
        outcomes.push(moved);
        proof {
            lemma_run_push(old(cursor)@, tree@, insts@.take(i as int), insts@[i as int]);
            assert(insts@.take(i as int).push(insts@[i as int]) == insts@.take(i + 1));
        }
        i += 1;
    }
    assert(insts@.take(i as int) == insts@);
    outcomes
}

/// Running a batch with one more instruction at its end is running the batch
/// and then taking that instruction.
pub proof fn lemma_run_push(
    cursor: CursorView,
    tree: TreeView,
    insts: Seq<MoveInstruction>,
    last: MoveInstruction,
)
    ensures
        cursor.run(tree, insts.push(last)) == cursor.run(tree, insts).step_or_stay(tree, last),
    decreases insts.len(),
{
    let all = insts.push(last);
    if insts.len() == 0 {
        assert(all.drop_first() == Seq::<MoveInstruction>::empty());
        assert(cursor.step_or_stay(tree, last).run(tree, all.drop_first()) == cursor.step_or_stay(
            tree,
            last,
        ));
    } else {
        assert(all.first() == insts.first());
        assert(all.drop_first() == insts.drop_first().push(last));
        lemma_run_push(cursor.step_or_stay(tree, insts.first()), tree, insts.drop_first(), last);
    }
}

/// Follows `insts` as one gesture. Either every instruction is followed, in
/// order, or, at the first one that hits a structural boundary, the steps
/// already taken are taken back by their inverses, latest first, and the
/// cursor is exactly where it was.
pub fn move_transaction(cursor: &mut Cursor, tree: &DocumentTree, insts: &Vec<MoveInstruction>) -> (done:
    Result<(), MoveError>)
    requires
        old(cursor).wf(tree),
    ensures
        final(cursor).wf(tree),
        match old(cursor)@.try_run(tree@, insts@) {
            Ok(after) => done is Ok && final(cursor)@ == after,
            Err(e) => done == Err::<(), MoveError>(e) && final(cursor)@ == old(cursor)@,
        },
{
    let mut undo: Vec<MoveInstruction> = Vec::new();
    let mut i: usize = 0;
    assert(insts@.skip(0) == insts@);
    while i < insts.len()
        invariant
            i <= insts.len(),
            cursor.wf(tree),
            old(cursor)@.try_run(tree@, insts@) == cursor@.try_run(tree@, insts@.skip(i as int)),
            cursor@.unwind(tree@, undo@) == old(cursor)@,
        decreases insts.len() - i,
    {
        let inst = insts[i];
        let inverse = match inst {
            MoveInstruction::Left => MoveInstruction::Right,
            MoveInstruction::Right => MoveInstruction::Left,
            MoveInstruction::Child(_) => MoveInstruction::Parent,
            MoveInstruction::Parent => MoveInstruction::Child(cursor.left_len()),
        };
        let ghost before = cursor@;
        proof {
            assert(insts@.skip(i as int).first() == inst);
            assert(insts@.skip(i as int).drop_first() == insts@.skip(i + 1));
        }
        match cursor.apply(tree, inst) {
            Ok(()) => {
                proof {
                    lemma_inverse_restores(before, tree@, inst);
                    assert(undo@.push(inverse).drop_last() == undo@);
                }
                undo.push(inverse);
            },
            Err(e) => {
                while undo.len() > 0
                    invariant
                        cursor.wf(tree),
                        cursor@.unwind(tree@, undo@) == old(cursor)@,
                    decreases undo.len(),
                {
                    let back = undo.pop().unwrap();
                    let _ = cursor.apply(tree, back);
                }
                return Err(e);
            },
        }
        i += 1;
    }
    Ok(())
}

} // verus!
